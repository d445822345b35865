//! The tree of a parsed query.

use vstd::prelude::*;
use crate::expr::Expr;
use crate::expr::ExprView;
use crate::expr::text_view;
use crate::window::Window;

verus! {

#[derive(Debug, PartialEq, Eq)]
pub struct GroupBy {
    pub exprs: Vec<Expr>,
}

#[derive(Debug, PartialEq, Eq)]
pub enum SourceFrom {
    Named(String),
    SubQuery(Box<Select>),
}

#[derive(Debug, PartialEq, Eq)]
pub struct Source {
    pub from: SourceFrom,
    pub alias: Option<String>,
}

#[derive(Debug, PartialEq, Eq)]
pub struct Select {
    pub projection: Vec<Expr>,
    pub source: Source,
    pub where_clause: Option<Expr>,
    pub having_clause: Option<Expr>,
    pub group_clause: Option<GroupBy>,
    pub window: Option<Window>,
}

pub enum SourceFromView {
    Named(Seq<char>),
    SubQuery(Box<SelectView>),
}

pub struct SourceView {
    pub from: SourceFromView,
    pub alias: Option<Seq<char>>,
}

/// The mathematical value of a [`Select`].
pub struct SelectView {
    pub projection: Seq<ExprView>,
    pub source: SourceView,
    pub where_clause: Option<ExprView>,
    pub having_clause: Option<ExprView>,
    /// The grouping expressions, where the query has a `group by`.
    pub group_clause: Option<Seq<ExprView>>,
    pub window: Option<Window>,
}

/// The views of a sequence of expressions.
pub open spec fn expr_views(exprs: Seq<Expr>) -> Seq<ExprView> {
    exprs.map_values(|e: Expr| e@)
}

pub open spec fn optional_expr_view(expr: Option<Expr>) -> Option<ExprView> {
    match expr {
        Some(e) => Some(e@),
        None => None,
    }
}

pub open spec fn select_view(select: Select) -> SelectView
    decreases select,
{
    SelectView {
        projection: expr_views(select.projection@),
        source: SourceView {
            from: match select.source.from {
                SourceFrom::Named(name) => SourceFromView::Named(name@),
                SourceFrom::SubQuery(query) => SourceFromView::SubQuery(
                    Box::new(select_view(*query)),
                ),
            },
            alias: text_view(select.source.alias),
        },
        where_clause: optional_expr_view(select.where_clause),
        having_clause: optional_expr_view(select.having_clause),
        group_clause: match select.group_clause {
            Some(group) => Some(expr_views(group.exprs@)),
            None => None,
        },
        window: select.window,
    }
}

impl View for Select {
    type V = SelectView;

    open spec fn view(&self) -> SelectView {
        select_view(*self)
    }
}

impl View for SourceFrom {
    type V = SourceFromView;

    open spec fn view(&self) -> SourceFromView {
        match *self {
            SourceFrom::Named(name) => SourceFromView::Named(name@),
            SourceFrom::SubQuery(query) => SourceFromView::SubQuery(Box::new(select_view(*query))),
        }
    }
}

impl View for Source {
    type V = SourceView;

    open spec fn view(&self) -> SourceView {
        SourceView { from: self.from@, alias: text_view(self.alias) }
    }
}

} // verus!
