//! Bound expressions and their evaluation over a dataset.
//!
//! A physical expression is evaluated row by row. An aggregate call keeps a
//! running result in its state cell: the value of the call at a row is the
//! result over all rows seen so far, that row included.

use vstd::prelude::*;
use crate::array::Array;
use crate::array::DataType;
use crate::array::Scalar;
use crate::array::ScalarValue;
use crate::array::TimeUnit;
use crate::array::coerce_all;
use crate::array::scalar_values;
use crate::codec::enc_scalars;
use crate::codec::parse_scalars;
use crate::codec::put_scalars;
use crate::codec::read_scalars;
use crate::codec::scalars_fit;
use crate::codec::lemma_scalars_round_trip;
use crate::error::Error;
use crate::error::EvalError;
use crate::expr::BinaryOperator;
use crate::expr::UnaryOperator;
use crate::schema::DataSet;
use crate::schema::DataSetView;
use crate::schema::FieldView;

verus! {

#[derive(Clone, Copy, Debug, PartialEq, Eq, Hash, Structural)]
pub enum AggregateFunction {
    Sum,
    Count,
    Min,
    Max,
}

/// A bound expression. Columns are named by their index in the dataset.
#[derive(Debug, PartialEq, Eq)]
pub enum PhysicalExpr {
    Column { index: usize },
    Literal { value: Scalar },
    Unary { op: UnaryOperator, expr: Box<PhysicalExpr> },
    Binary { op: BinaryOperator, lhs: Box<PhysicalExpr>, rhs: Box<PhysicalExpr> },
    /// An aggregate call and its state cell: the running result.
    Aggregate { function: AggregateFunction, arg: Box<PhysicalExpr>, state: Scalar },
}

/// The mathematical value of a [`PhysicalExpr`].
pub enum PhysicalExprView {
    Column { index: usize },
    Literal { value: ScalarValue },
    Unary { op: UnaryOperator, expr: Box<PhysicalExprView> },
    Binary { op: BinaryOperator, lhs: Box<PhysicalExprView>, rhs: Box<PhysicalExprView> },
    Aggregate { function: AggregateFunction, arg: Box<PhysicalExprView>, state: ScalarValue },
}

pub open spec fn physical_view(e: PhysicalExpr) -> PhysicalExprView
    decreases e,
{
    match e {
        PhysicalExpr::Column { index } => PhysicalExprView::Column { index },
        PhysicalExpr::Literal { value } => PhysicalExprView::Literal { value: value@ },
        PhysicalExpr::Unary { op, expr } => PhysicalExprView::Unary {
            op,
            expr: Box::new(physical_view(*expr)),
        },
        PhysicalExpr::Binary { op, lhs, rhs } => PhysicalExprView::Binary {
            op,
            lhs: Box::new(physical_view(*lhs)),
            rhs: Box::new(physical_view(*rhs)),
        },
        PhysicalExpr::Aggregate { function, arg, state } => PhysicalExprView::Aggregate {
            function,
            arg: Box::new(physical_view(*arg)),
            state: state@,
        },
    }
}

impl View for PhysicalExpr {
    type V = PhysicalExprView;

    open spec fn view(&self) -> PhysicalExprView {
        physical_view(*self)
    }
}

/// The views of a sequence of expressions.
pub open spec fn physical_views(exprs: Seq<PhysicalExpr>) -> Seq<PhysicalExprView> {
    exprs.map_values(|e: PhysicalExpr| e@)
}

/// The integer that an integer scalar holds.
pub open spec fn numeric(value: ScalarValue) -> Option<i64> {
    match value {
        ScalarValue::Int8(v) => Some(v as i64),
        ScalarValue::Int16(v) => Some(v as i64),
        ScalarValue::Int32(v) => Some(v as i64),
        ScalarValue::Int64(v) => Some(v),
        _ => None,
    }
}

/// A 64-bit integer scalar, or an overflow where `v` does not fit.
pub open spec fn int_result(v: int) -> Result<ScalarValue, EvalError> {
    if i64::MIN <= v <= i64::MAX {
        Ok(ScalarValue::Int64(v as i64))
    } else {
        Err(EvalError::Overflow)
    }
}

/// The value of a unary operator. A null operand gives null.
pub open spec fn apply_unary(op: UnaryOperator, value: ScalarValue) -> Result<
    ScalarValue,
    EvalError,
> {
    if value is Null {
        Ok(ScalarValue::Null)
    } else {
        match op {
            UnaryOperator::Not => match value {
                ScalarValue::Boolean(b) => Ok(ScalarValue::Boolean(!b)),
                _ => Err(EvalError::TypeMismatch),
            },
            UnaryOperator::Neg => match numeric(value) {
                Some(v) => int_result(-v),
                None => Err(EvalError::TypeMismatch),
            },
        }
    }
}

/// The value of a comparison of two integers.
pub open spec fn compare(op: BinaryOperator, l: i64, r: i64) -> bool {
    match op {
        BinaryOperator::Eq => l == r,
        BinaryOperator::NotEq => l != r,
        BinaryOperator::Lt => l < r,
        BinaryOperator::LtEq => l <= r,
        BinaryOperator::Gt => l > r,
        _ => l >= r,
    }
}

/// The value of an arithmetic operator on two integers. Division truncates
/// towards zero.
pub open spec fn arithmetic(op: BinaryOperator, l: i64, r: i64) -> Result<ScalarValue, EvalError> {
    match op {
        BinaryOperator::Plus => int_result(l + r),
        BinaryOperator::Minus => int_result(l - r),
        BinaryOperator::Multiply => int_result(l * r),
        _ => if r == 0 {
            Err(EvalError::DivideByZero)
        } else {
            match l.checked_div(r) {
                Some(q) => Ok(ScalarValue::Int64(q)),
                None => Err(EvalError::Overflow),
            }
        },
    }
}

/// The value of a binary operator. A null operand gives null; integers of
/// any width are computed with as 64-bit integers; timestamps can be
/// compared with each other; any two values of one type can be tested for
/// equality.
pub open spec fn apply_binary(op: BinaryOperator, l: ScalarValue, r: ScalarValue) -> Result<
    ScalarValue,
    EvalError,
> {
    if l is Null || r is Null {
        Ok(ScalarValue::Null)
    } else {
        match op {
            BinaryOperator::And | BinaryOperator::Or => match (l, r) {
                (ScalarValue::Boolean(a), ScalarValue::Boolean(b)) => Ok(
                    ScalarValue::Boolean(
                        if op == BinaryOperator::And {
                            a && b
                        } else {
                            a || b
                        },
                    ),
                ),
                _ => Err(EvalError::TypeMismatch),
            },
            BinaryOperator::Plus | BinaryOperator::Minus | BinaryOperator::Multiply
            | BinaryOperator::Divide => match (numeric(l), numeric(r)) {
                (Some(a), Some(b)) => arithmetic(op, a, b),
                _ => Err(EvalError::TypeMismatch),
            },
            _ => match (numeric(l), numeric(r)) {
                (Some(a), Some(b)) => Ok(ScalarValue::Boolean(compare(op, a, b))),
                _ => match (l, r) {
                    (ScalarValue::Timestamp(a), ScalarValue::Timestamp(b)) => Ok(
                        ScalarValue::Boolean(compare(op, a, b)),
                    ),
                    _ => if op == BinaryOperator::Eq {
                        Ok(ScalarValue::Boolean(l == r))
                    } else if op == BinaryOperator::NotEq {
                        Ok(ScalarValue::Boolean(l != r))
                    } else {
                        Err(EvalError::TypeMismatch)
                    },
                },
            },
        }
    }
}

/// The running result of an aggregate after one more value. A null value
/// leaves it as it is; the result over no value at all is null.
pub open spec fn accumulate(function: AggregateFunction, state: ScalarValue, value: ScalarValue)
    -> Result<ScalarValue, EvalError> {
    if value is Null {
        Ok(state)
    } else {
        match function {
            AggregateFunction::Count => match state {
                ScalarValue::Null => Ok(ScalarValue::Int64(1)),
                ScalarValue::Int64(n) => int_result(n + 1),
                _ => Err(EvalError::TypeMismatch),
            },
            _ => match numeric(value) {
                Some(v) => match state {
                    ScalarValue::Null => Ok(ScalarValue::Int64(v)),
                    ScalarValue::Int64(s) => match function {
                        AggregateFunction::Sum => int_result(s + v),
                        AggregateFunction::Min => Ok(
                            ScalarValue::Int64(
                                if v < s {
                                    v
                                } else {
                                    s
                                },
                            ),
                        ),
                        _ => Ok(
                            ScalarValue::Int64(
                                if v > s {
                                    v
                                } else {
                                    s
                                },
                            ),
                        ),
                    },
                    _ => Err(EvalError::TypeMismatch),
                },
                None => Err(EvalError::TypeMismatch),
            },
        }
    }
}

/// The value of an expression at one row, and the expression with the
/// state cells that it has after that row.
pub open spec fn eval_row(e: PhysicalExprView, row: Seq<ScalarValue>) -> Result<
    (ScalarValue, PhysicalExprView),
    EvalError,
>
    decreases e,
{
    match e {
        PhysicalExprView::Column { index } => if index < row.len() {
            Ok((row[index as int], e))
        } else {
            Err(EvalError::NoSuchColumn)
        },
        PhysicalExprView::Literal { value } => Ok((value, e)),
        PhysicalExprView::Unary { op, expr } => match eval_row(*expr, row) {
            Ok((v, after)) => match apply_unary(op, v) {
                Ok(value) => Ok((value, PhysicalExprView::Unary { op, expr: Box::new(after) })),
                Err(error) => Err(error),
            },
            Err(error) => Err(error),
        },
        PhysicalExprView::Binary { op, lhs, rhs } => match eval_row(*lhs, row) {
            Ok((l, lhs_after)) => match eval_row(*rhs, row) {
                Ok((r, rhs_after)) => match apply_binary(op, l, r) {
                    Ok(value) => Ok(
                        (
                            value,
                            PhysicalExprView::Binary {
                                op,
                                lhs: Box::new(lhs_after),
                                rhs: Box::new(rhs_after),
                            },
                        ),
                    ),
                    Err(error) => Err(error),
                },
                Err(error) => Err(error),
            },
            Err(error) => Err(error),
        },
        PhysicalExprView::Aggregate { function, arg, state } => match eval_row(*arg, row) {
            Ok((v, after)) => match accumulate(function, state, v) {
                Ok(next) => Ok(
                    (
                        next,
                        PhysicalExprView::Aggregate { function, arg: Box::new(after), state: next },
                    ),
                ),
                Err(error) => Err(error),
            },
            Err(error) => Err(error),
        },
    }
}

/// The cells of one row of a dataset, in the order of the columns.
pub open spec fn row_of(dataset: DataSetView, row: int) -> Seq<ScalarValue> {
    Seq::new(dataset.columns.len(), |c: int| dataset.columns[c].cells[row])
}

/// The values of an expression at the first `rows` rows of a dataset, and
/// the expression as it is after them.
pub open spec fn eval_rows(e: PhysicalExprView, dataset: DataSetView, rows: nat) -> Result<
    (Seq<ScalarValue>, PhysicalExprView),
    EvalError,
>
    decreases rows,
{
    if rows == 0 {
        Ok((Seq::empty(), e))
    } else {
        match eval_rows(e, dataset, (rows - 1) as nat) {
            Ok((values, mid)) => match eval_row(mid, row_of(dataset, rows - 1)) {
                Ok((value, after)) => Ok((values.push(value), after)),
                Err(error) => Err(error),
            },
            Err(error) => Err(error),
        }
    }
}

/// The values of an expression at every row of a dataset, in order.
pub open spec fn eval_batch(e: PhysicalExprView, dataset: DataSetView) -> Result<
    (Seq<ScalarValue>, PhysicalExprView),
    EvalError,
> {
    eval_rows(e, dataset, dataset.num_rows())
}

/// The type of the column that an expression evaluates to.
pub open spec fn result_type(e: PhysicalExprView, schema: Seq<FieldView>) -> DataType {
    match e {
        PhysicalExprView::Column { index } => if index < schema.len() {
            schema[index as int].data_type
        } else {
            DataType::Null
        },
        PhysicalExprView::Literal { value } => match value {
            ScalarValue::Null => DataType::Null,
            ScalarValue::Int8(_) => DataType::Int8,
            ScalarValue::Int16(_) => DataType::Int16,
            ScalarValue::Int32(_) => DataType::Int32,
            ScalarValue::Int64(_) => DataType::Int64,
            ScalarValue::Float32(_) => DataType::Float32,
            ScalarValue::Float64(_) => DataType::Float64,
            ScalarValue::Boolean(_) => DataType::Boolean,
            ScalarValue::Timestamp(_) => DataType::Timestamp(TimeUnit::Millisecond),
            ScalarValue::String(_) => DataType::String,
        },
        PhysicalExprView::Unary { op, expr } => match op {
            UnaryOperator::Not => DataType::Boolean,
            UnaryOperator::Neg => DataType::Int64,
        },
        PhysicalExprView::Binary { op, lhs, rhs } => match op {
            BinaryOperator::Plus | BinaryOperator::Minus | BinaryOperator::Multiply
            | BinaryOperator::Divide => DataType::Int64,
            _ => DataType::Boolean,
        },
        PhysicalExprView::Aggregate { function, arg, state } => DataType::Int64,
    }
}

/// The integer that an integer scalar holds.
fn as_integer(scalar: &Scalar) -> (v: Option<i64>)
    ensures
        v == numeric(scalar@),
{
    match scalar {
        Scalar::Int8(v) => Some(*v as i64),
        Scalar::Int16(v) => Some(*v as i64),
        Scalar::Int32(v) => Some(*v as i64),
        Scalar::Int64(v) => Some(*v),
        _ => None,
    }
}

/// A checked result as a scalar.
fn checked_result(v: Option<i64>, Ghost(exact): Ghost<int>) -> (r: Result<Scalar, EvalError>)
    requires
        v == (if i64::MIN <= exact <= i64::MAX {
            Some(exact as i64)
        } else {
            None
        }),
    ensures
        scalar_result(r) == int_result(exact),
{
    match v {
        Some(v) => Ok(Scalar::Int64(v)),
        None => Err(EvalError::Overflow),
    }
}

/// The view of the outcome of a computation on scalars.
pub open spec fn scalar_result(r: Result<Scalar, EvalError>) -> Result<ScalarValue, EvalError> {
    match r {
        Ok(s) => Ok(s@),
        Err(e) => Err(e),
    }
}

fn unary(op: UnaryOperator, value: &Scalar) -> (r: Result<Scalar, EvalError>)
    ensures
        scalar_result(r) == apply_unary(op, value@),
{
    if value.is_null() {
        return Ok(Scalar::Null);
    }
    match op {
        UnaryOperator::Not => match value {
            Scalar::Boolean(b) => Ok(Scalar::Boolean(!*b)),
            _ => Err(EvalError::TypeMismatch),
        },
        UnaryOperator::Neg => match as_integer(value) {
            Some(v) => checked_result(0i64.checked_sub(v), Ghost(-v)),
            None => Err(EvalError::TypeMismatch),
        },
    }
}

fn compare_integers(op: BinaryOperator, l: i64, r: i64) -> (b: bool)
    ensures
        b == compare(op, l, r),
{
    match op {
        BinaryOperator::Eq => l == r,
        BinaryOperator::NotEq => l != r,
        BinaryOperator::Lt => l < r,
        BinaryOperator::LtEq => l <= r,
        BinaryOperator::Gt => l > r,
        _ => l >= r,
    }
}

fn compute(op: BinaryOperator, l: i64, r: i64) -> (result: Result<Scalar, EvalError>)
    ensures
        scalar_result(result) == arithmetic(op, l, r),
{
    match op {
        BinaryOperator::Plus => checked_result(l.checked_add(r), Ghost(l + r)),
        BinaryOperator::Minus => checked_result(l.checked_sub(r), Ghost(l - r)),
        BinaryOperator::Multiply => checked_result(l.checked_mul(r), Ghost(l * r)),
        _ => {
            if r == 0 {
                Err(EvalError::DivideByZero)
            } else {
                match l.checked_div(r) {
                    Some(q) => Ok(Scalar::Int64(q)),
                    None => Err(EvalError::Overflow),
                }
            }
        },
    }
}

fn binary(op: BinaryOperator, l: &Scalar, r: &Scalar) -> (result: Result<Scalar, EvalError>)
    ensures
        scalar_result(result) == apply_binary(op, l@, r@),
{
    if l.is_null() || r.is_null() {
        return Ok(Scalar::Null);
    }
    match op {
        BinaryOperator::And | BinaryOperator::Or => match (l, r) {
            (Scalar::Boolean(a), Scalar::Boolean(b)) => Ok(
                Scalar::Boolean(
                    if op == BinaryOperator::And {
                        *a && *b
                    } else {
                        *a || *b
                    },
                ),
            ),
            _ => Err(EvalError::TypeMismatch),
        },
        BinaryOperator::Plus | BinaryOperator::Minus | BinaryOperator::Multiply
        | BinaryOperator::Divide => match (as_integer(l), as_integer(r)) {
            (Some(a), Some(b)) => compute(op, a, b),
            _ => Err(EvalError::TypeMismatch),
        },
        _ => match (as_integer(l), as_integer(r)) {
            (Some(a), Some(b)) => Ok(Scalar::Boolean(compare_integers(op, a, b))),
            _ => match (l, r) {
                (Scalar::Timestamp(a), Scalar::Timestamp(b)) => Ok(
                    Scalar::Boolean(compare_integers(op, *a, *b)),
                ),
                _ => if op == BinaryOperator::Eq {
                    Ok(Scalar::Boolean(l.same(r)))
                } else if op == BinaryOperator::NotEq {
                    Ok(Scalar::Boolean(!l.same(r)))
                } else {
                    Err(EvalError::TypeMismatch)
                },
            },
        },
    }
}

fn fold(function: AggregateFunction, state: &Scalar, value: &Scalar) -> (result: Result<
    Scalar,
    EvalError,
>)
    ensures
        scalar_result(result) == accumulate(function, state@, value@),
{
    if value.is_null() {
        return Ok(state.duplicate());
    }
    match function {
        AggregateFunction::Count => match state {
            Scalar::Null => Ok(Scalar::Int64(1)),
            Scalar::Int64(n) => checked_result(n.checked_add(1), Ghost(*n + 1)),
            _ => Err(EvalError::TypeMismatch),
        },
        _ => match as_integer(value) {
            Some(v) => match state {
                Scalar::Null => Ok(Scalar::Int64(v)),
                Scalar::Int64(s) => match function {
                    AggregateFunction::Sum => checked_result(s.checked_add(v), Ghost(*s + v)),
                    AggregateFunction::Min => Ok(
                        Scalar::Int64(
                            if v < *s {
                                v
                            } else {
                                *s
                            },
                        ),
                    ),
                    _ => Ok(
                        Scalar::Int64(
                            if v > *s {
                                v
                            } else {
                                *s
                            },
                        ),
                    ),
                },
                _ => Err(EvalError::TypeMismatch),
            },
            None => Err(EvalError::TypeMismatch),
        },
    }
}

/// What an evaluation at one row that ended in `result` and left the
/// expression as `after` has to agree with: the value and the expression of
/// `expected`, or its error.
pub open spec fn evaluates(
    expected: Result<(ScalarValue, PhysicalExprView), EvalError>,
    result: Result<Scalar, EvalError>,
    after: PhysicalExprView,
) -> bool {
    match expected {
        Ok((v, e)) => result is Ok && result->Ok_0@ == v && after == e,
        Err(error) => result == Err::<Scalar, EvalError>(error),
    }
}

/// What an evaluation over a batch that ended in `result` and left the
/// expression as `after` has to agree with: a well-formed column of type
/// `data_type` that stores the values of `expected`, and its expression; or
/// its error.
pub open spec fn evaluates_column(
    expected: Result<(Seq<ScalarValue>, PhysicalExprView), EvalError>,
    data_type: DataType,
    result: Result<Array, EvalError>,
    after: PhysicalExprView,
) -> bool {
    match expected {
        Ok((values, e)) => {
            &&& after == e
            &&& result matches Ok(array)
            &&& array.wf()
            &&& array@.data_type == data_type
            &&& array@.cells == coerce_all(values, data_type)
        },
        Err(error) => result matches Err(e) && e == error,
    }
}

impl PhysicalExpr {
    /// A copy of this expression, state cells included.
    pub fn duplicate(&self) -> (copy: PhysicalExpr)
        ensures
            copy@ == self@,
        decreases self,
    {
        match self {
            PhysicalExpr::Column { index } => PhysicalExpr::Column { index: *index },
            PhysicalExpr::Literal { value } => PhysicalExpr::Literal { value: value.duplicate() },
            PhysicalExpr::Unary { op, expr } => PhysicalExpr::Unary {
                op: *op,
                expr: Box::new(expr.duplicate()),
            },
            PhysicalExpr::Binary { op, lhs, rhs } => PhysicalExpr::Binary {
                op: *op,
                lhs: Box::new(lhs.duplicate()),
                rhs: Box::new(rhs.duplicate()),
            },
            PhysicalExpr::Aggregate { function, arg, state } => PhysicalExpr::Aggregate {
                function: *function,
                arg: Box::new(arg.duplicate()),
                state: state.duplicate(),
            },
        }
    }

    /// The type of the column that this expression evaluates to.
    pub fn data_type(&self, dataset: &DataSet) -> (data_type: DataType)
        ensures
            data_type == result_type(self@, dataset@.schema),
    {
        match self {
            PhysicalExpr::Column { index } => {
                if *index < dataset.schema().len() {
                    dataset.schema().data_type(*index)
                } else {
                    DataType::Null
                }
            },
            PhysicalExpr::Literal { value } => match value {
                Scalar::Null => DataType::Null,
                Scalar::Int8(_) => DataType::Int8,
                Scalar::Int16(_) => DataType::Int16,
                Scalar::Int32(_) => DataType::Int32,
                Scalar::Int64(_) => DataType::Int64,
                Scalar::Float32(_) => DataType::Float32,
                Scalar::Float64(_) => DataType::Float64,
                Scalar::Boolean(_) => DataType::Boolean,
                Scalar::Timestamp(_) => DataType::Timestamp(TimeUnit::Millisecond),
                Scalar::String(_) => DataType::String,
            },
            PhysicalExpr::Unary { op, expr } => match op {
                UnaryOperator::Not => DataType::Boolean,
                UnaryOperator::Neg => DataType::Int64,
            },
            PhysicalExpr::Binary { op, lhs, rhs } => match op {
                BinaryOperator::Plus | BinaryOperator::Minus | BinaryOperator::Multiply
                | BinaryOperator::Divide => DataType::Int64,
                _ => DataType::Boolean,
            },
            PhysicalExpr::Aggregate { function, arg, state } => DataType::Int64,
        }
    }

    /// Evaluates this expression at one row of `dataset` and moves its
    /// state cells on by that row.
    pub fn eval_row(&mut self, dataset: &DataSet, row: usize) -> (result: Result<Scalar, EvalError>)
        requires
            row < dataset@.num_rows(),
        ensures
            evaluates(eval_row(old(self)@, row_of(dataset@, row as int)), result, final(self)@),
            blank(final(self)@) == blank(old(self)@),
        decreases *old(self),
    {
        match self {
            PhysicalExpr::Column { index } => {
                if *index < dataset.num_columns() {
                    Ok(dataset.column(*index).scalar_value(row))
                } else {
                    Err(EvalError::NoSuchColumn)
                }
            },
            PhysicalExpr::Literal { value } => Ok(value.duplicate()),
            PhysicalExpr::Unary { op, expr } => {
                let v = match expr.eval_row(dataset, row) {
                    Ok(v) => v,
                    Err(error) => { return Err(error); },
                };
                unary(*op, &v)
            },
            PhysicalExpr::Binary { op, lhs: left, rhs: right } => {
                let l = match left.eval_row(dataset, row) {
                    Ok(v) => v,
                    Err(error) => { return Err(error); },
                };
                let r = match right.eval_row(dataset, row) {
                    Ok(v) => v,
                    Err(error) => { return Err(error); },
                };
                binary(*op, &l, &r)
            },
            PhysicalExpr::Aggregate { function, arg, state } => {
                let v = match arg.eval_row(dataset, row) {
                    Ok(v) => v,
                    Err(error) => { return Err(error); },
                };
                match fold(*function, state, &v) {
                    Ok(next) => {
                        *state = next.duplicate();
                        Ok(next)
                    },
                    Err(error) => Err(error),
                }
            },
        }
    }

    /// Evaluates this expression at every row of `dataset`, in order, and
    /// moves its state cells on by those rows. The column has the
    /// expression's type; a value of another type is stored as null.
    pub fn eval(&mut self, dataset: &DataSet) -> (result: Result<Array, EvalError>)
        ensures
            evaluates_column(
                eval_batch(old(self)@, dataset@),
                result_type(old(self)@, dataset@.schema),
                result,
                final(self)@,
            ),
            blank(final(self)@) == blank(old(self)@),
    {
        let ghost start = self@;
        let data_type = self.data_type(dataset);
        let rows = dataset.num_rows();
        let mut values: Vec<Scalar> = Vec::new();
        let mut row: usize = 0;
        assert(scalar_values(values@) =~= Seq::<ScalarValue>::empty());
        while row < rows
            invariant
                row <= rows,
                rows == dataset@.num_rows(),
                start == old(self)@,
                blank(self@) == blank(start),
                eval_rows(start, dataset@, row as nat) == Ok::<
                    (Seq<ScalarValue>, PhysicalExprView),
                    EvalError,
                >((scalar_values(values@), self@)),
            decreases rows - row,
        {
            let ghost before = scalar_values(values@);
            match self.eval_row(dataset, row) {
                Ok(value) => {
                    values.push(value);
                    assert(scalar_values(values@) =~= before.push(value@));
                },
                Err(error) => {
                    proof {
                        lemma_eval_rows_stops(start, dataset@, row as nat, rows as nat);
                    }
                    return Err(error);
                },
            }
            row += 1;
        }
        Ok(Array::materialize(data_type, &values))
    }
}

/// Once a row fails, the evaluation of every longer run of rows fails with
/// the same error.
pub proof fn lemma_eval_rows_stops(e: PhysicalExprView, dataset: DataSetView, at: nat, rows: nat)
    requires
        at < rows,
        eval_rows(e, dataset, at) is Ok,
        eval_row(eval_rows(e, dataset, at)->Ok_0.1, row_of(dataset, at as int)) is Err,
    ensures
        eval_rows(e, dataset, rows) is Err,
        eval_rows(e, dataset, rows)->Err_0 == eval_row(
            eval_rows(e, dataset, at)->Ok_0.1,
            row_of(dataset, at as int),
        )->Err_0,
    decreases rows,
{
    if at + 1 < rows {
        lemma_eval_rows_stops(e, dataset, at, (rows - 1) as nat);
    }
}

/// The state cells of an expression, an aggregate call's own before those
/// of its argument, a left operand's before those of the right.
pub open spec fn states_of(e: PhysicalExprView) -> Seq<ScalarValue>
    decreases e,
{
    match e {
        PhysicalExprView::Column { index } => Seq::empty(),
        PhysicalExprView::Literal { value } => Seq::empty(),
        PhysicalExprView::Unary { op, expr } => states_of(*expr),
        PhysicalExprView::Binary { op, lhs, rhs } => states_of(*lhs) + states_of(*rhs),
        PhysicalExprView::Aggregate { function, arg, state } => seq![state] + states_of(*arg),
    }
}

/// The number of state cells of an expression.
pub open spec fn state_count(e: PhysicalExprView) -> nat
    decreases e,
{
    match e {
        PhysicalExprView::Column { index } => 0,
        PhysicalExprView::Literal { value } => 0,
        PhysicalExprView::Unary { op, expr } => state_count(*expr),
        PhysicalExprView::Binary { op, lhs, rhs } => state_count(*lhs) + state_count(*rhs),
        PhysicalExprView::Aggregate { function, arg, state } => 1 + state_count(*arg),
    }
}

/// The expression with `states` in its state cells, in the order of
/// [`states_of`].
pub open spec fn with_states(e: PhysicalExprView, states: Seq<ScalarValue>) -> PhysicalExprView
    decreases e,
{
    match e {
        PhysicalExprView::Column { index } => e,
        PhysicalExprView::Literal { value } => e,
        PhysicalExprView::Unary { op, expr } => PhysicalExprView::Unary {
            op,
            expr: Box::new(with_states(*expr, states)),
        },
        PhysicalExprView::Binary { op, lhs, rhs } => PhysicalExprView::Binary {
            op,
            lhs: Box::new(with_states(*lhs, states.take(state_count(*lhs) as int))),
            rhs: Box::new(with_states(*rhs, states.skip(state_count(*lhs) as int))),
        },
        PhysicalExprView::Aggregate { function, arg, state } => PhysicalExprView::Aggregate {
            function,
            arg: Box::new(with_states(*arg, states.skip(1))),
            state: states[0],
        },
    }
}

/// The expression with every state cell empty: what is left of it when its
/// state is set aside.
pub open spec fn blank(e: PhysicalExprView) -> PhysicalExprView
    decreases e,
{
    match e {
        PhysicalExprView::Column { index } => e,
        PhysicalExprView::Literal { value } => e,
        PhysicalExprView::Unary { op, expr } => PhysicalExprView::Unary {
            op,
            expr: Box::new(blank(*expr)),
        },
        PhysicalExprView::Binary { op, lhs, rhs } => PhysicalExprView::Binary {
            op,
            lhs: Box::new(blank(*lhs)),
            rhs: Box::new(blank(*rhs)),
        },
        PhysicalExprView::Aggregate { function, arg, state } => PhysicalExprView::Aggregate {
            function,
            arg: Box::new(blank(*arg)),
            state: ScalarValue::Null,
        },
    }
}

/// The saved state of an expression: the encoding of its state cells.
pub open spec fn saved(e: PhysicalExprView) -> Seq<u8> {
    enc_scalars(states_of(e))
}

/// The expression that loading `bytes` into `e` gives: `e` with the state
/// cells that `bytes` encode, where `bytes` encode exactly as many as `e`
/// has and nothing follows them.
pub open spec fn loaded(e: PhysicalExprView, bytes: Seq<u8>) -> Option<PhysicalExprView> {
    match parse_scalars(bytes) {
        Some((states, rest)) => if rest.len() == 0 && states.len() == state_count(e) {
            Some(with_states(e, states))
        } else {
            None
        },
        None => None,
    }
}

/// An expression has as many state cells as [`state_count`] says, and is
/// itself again when they are put back; so is every expression that differs
/// from it in its state cells alone.
pub proof fn lemma_with_states(template: PhysicalExprView, e: PhysicalExprView)
    requires
        blank(template) == blank(e),
    ensures
        states_of(e).len() == state_count(e),
        state_count(template) == state_count(e),
        with_states(template, states_of(e)) == e,
    decreases e,
{
    match e {
        PhysicalExprView::Column { index } => {},
        PhysicalExprView::Literal { value } => {},
        PhysicalExprView::Unary { op, expr } => {
            lemma_with_states(*template->Unary_expr, *expr);
        },
        PhysicalExprView::Binary { op, lhs, rhs } => {
            lemma_with_states(*template->Binary_lhs, *lhs);
            lemma_with_states(*template->Binary_rhs, *rhs);
            assert(states_of(e).take(state_count(*lhs) as int) =~= states_of(*lhs));
            assert(states_of(e).skip(state_count(*lhs) as int) =~= states_of(*rhs));
        },
        PhysicalExprView::Aggregate { function, arg, state } => {
            lemma_with_states(*template->Aggregate_arg, *arg);
            assert(states_of(e).skip(1) =~= states_of(*arg));
        },
    }
}

/// Loading what was saved of an expression, into an expression that
/// differs from it in its state cells alone, gives the expression back.
pub proof fn lemma_load_saved(template: PhysicalExprView, e: PhysicalExprView)
    requires
        blank(template) == blank(e),
        scalars_fit(states_of(e)),
    ensures
        loaded(template, saved(e)) == Some(e),
{
    lemma_with_states(template, e);
    lemma_scalars_round_trip(states_of(e), Seq::empty());
    assert(saved(e) + Seq::<u8>::empty() =~= saved(e));
}

impl PhysicalExpr {
    /// Appends the state cells of this expression to `out`.
    fn collect_states(&self, out: &mut Vec<Scalar>)
        ensures
            scalar_values(final(out)@) == scalar_values(old(out)@) + states_of(self@),
        decreases self,
    {
        match self {
            PhysicalExpr::Column { index } => {
                assert(scalar_values(out@) + states_of(self@) =~= scalar_values(out@));
            },
            PhysicalExpr::Literal { value } => {
                assert(scalar_values(out@) + states_of(self@) =~= scalar_values(out@));
            },
            PhysicalExpr::Unary { op, expr } => {
                expr.collect_states(out);
            },
            PhysicalExpr::Binary { op, lhs, rhs } => {
                lhs.collect_states(out);
                rhs.collect_states(out);
                assert(scalar_values(out@) =~= scalar_values(old(out)@) + states_of(self@));
            },
            PhysicalExpr::Aggregate { function, arg, state } => {
                out.push(state.duplicate());
                assert(scalar_values(out@) =~= scalar_values(old(out)@) + seq![state@]);
                arg.collect_states(out);
                assert(scalar_values(out@) =~= scalar_values(old(out)@) + states_of(self@));
            },
        }
    }

    /// The state of this expression as bytes.
    pub fn save_state(&self) -> (bytes: Vec<u8>)
        ensures
            bytes@ == saved(self@),
            scalars_fit(states_of(self@)),
    {
        let mut states: Vec<Scalar> = Vec::new();
        assert(scalar_values(states@) =~= Seq::<ScalarValue>::empty());
        self.collect_states(&mut states);
        assert(scalar_values(states@) =~= states_of(self@));
        let mut bytes: Vec<u8> = Vec::new();
        put_scalars(&mut bytes, &states);
        assert(bytes@ =~= saved(self@));
        bytes
    }

    /// What is left of `available` state cells when this expression has
    /// taken its own, or nothing where it has more.
    fn budget(&self, available: usize) -> (left: Option<usize>)
        ensures
            match left {
                Some(l) => state_count(self@) + l == available,
                None => state_count(self@) > available,
            },
        decreases self,
    {
        match self {
            PhysicalExpr::Column { index } => Some(available),
            PhysicalExpr::Literal { value } => Some(available),
            PhysicalExpr::Unary { op, expr } => expr.budget(available),
            PhysicalExpr::Binary { op, lhs, rhs } => match lhs.budget(available) {
                Some(l) => rhs.budget(l),
                None => None,
            },
            PhysicalExpr::Aggregate { function, arg, state } => {
                if available == 0 {
                    None
                } else {
                    arg.budget(available - 1)
                }
            },
        }
    }

    /// Sets the state cells of this expression to the scalars that stand in
    /// `states` from `from` on.
    fn restore(&mut self, states: &Vec<Scalar>, from: usize) -> (next: usize)
        requires
            from + state_count(old(self)@) <= states@.len(),
        ensures
            next == from + state_count(old(self)@),
            final(self)@ == with_states(
                old(self)@,
                scalar_values(states@).subrange(from as int, next as int),
            ),
        decreases *old(self),
    {
        let ghost values = scalar_values(states@);
        match self {
            PhysicalExpr::Column { index } => from,
            PhysicalExpr::Literal { value } => from,
            PhysicalExpr::Unary { op, expr } => expr.restore(states, from),
            PhysicalExpr::Binary { op, lhs: left, rhs: right } => {
                let ghost left_count = state_count(left@);
                let middle = left.restore(states, from);
                let next = right.restore(states, middle);
                proof {
                    let all = values.subrange(from as int, next as int);
                    assert(all.take(left_count as int) =~= values.subrange(
                        from as int,
                        middle as int,
                    ));
                    assert(all.skip(left_count as int) =~= values.subrange(
                        middle as int,
                        next as int,
                    ));
                }
                next
            },
            PhysicalExpr::Aggregate { function, arg, state } => {
                assert(state_count(old(self)@) == 1 + state_count(arg@));
                assert(from < states.len());
                *state = states[from].duplicate();
                let next = arg.restore(states, from + 1);
                proof {
                    let all = values.subrange(from as int, next as int);
                    assert(all.skip(1) =~= values.subrange(from + 1, next as int));
                    assert(all[0] == states@[from as int]@);
                }
                next
            },
        }
    }

    /// Restores the state that `bytes` hold. Where `bytes` are no saved
    /// state of an expression of this shape, the expression stays as it is.
    pub fn load_state(&mut self, bytes: &[u8]) -> (result: Result<(), Error>)
        ensures
            match loaded(old(self)@, bytes@) {
                Some(e) => result is Ok && final(self)@ == e,
                None => result == Err::<(), Error>(Error::State) && final(self)@ == old(self)@,
            },
    {
        assert(bytes@.skip(0) =~= bytes@);
        let (states, end) = match read_scalars(bytes, 0) {
            Some(found) => found,
            None => { return Err(Error::State); },
        };
        if end != bytes.len() {
            return Err(Error::State);
        }
        match self.budget(states.len()) {
            Some(0) => {},
            _ => { return Err(Error::State); },
        }
        let next = self.restore(&states, 0);
        assert(scalar_values(states@).subrange(0, next as int) =~= scalar_values(states@));
        Ok(())
    }
}

/// The shapes of a sequence of expressions.
pub open spec fn blanks(exprs: Seq<PhysicalExprView>) -> Seq<PhysicalExprView> {
    Seq::new(exprs.len(), |i: int| blank(exprs[i]))
}

/// Loading a state changes the state cells of an expression and nothing else.
pub proof fn lemma_with_states_keeps_shape(e: PhysicalExprView, states: Seq<ScalarValue>)
    ensures
        blank(with_states(e, states)) == blank(e),
    decreases e,
{
    match e {
        PhysicalExprView::Column { index } => {},
        PhysicalExprView::Literal { value } => {},
        PhysicalExprView::Unary { op, expr } => {
            lemma_with_states_keeps_shape(*expr, states);
        },
        PhysicalExprView::Binary { op, lhs, rhs } => {
            lemma_with_states_keeps_shape(*lhs, states.take(state_count(*lhs) as int));
            lemma_with_states_keeps_shape(*rhs, states.skip(state_count(*lhs) as int));
        },
        PhysicalExprView::Aggregate { function, arg, state } => {
            lemma_with_states_keeps_shape(*arg, states.skip(1));
        },
    }
}

} // verus!
