//! The parser of the query language.
//!
//! Every production reads from the front of its input and hands back what
//! is left of the input together with the value it read.

use vstd::prelude::*;
use crate::expr::BinaryOperator;
use crate::expr::Expr;
use crate::expr::ExprView;
use crate::expr::Literal;
use crate::expr::LiteralView;
use crate::expr::UnaryOperator;
use crate::sql::ast::GroupBy;
use crate::sql::ast::Select;
use crate::sql::ast::SelectView;
use crate::sql::ast::Source;
use crate::sql::ast::SourceFrom;
use crate::sql::ast::expr_views;
use crate::sql::ast::SourceFromView;
use crate::sql::ast::SourceView;
use crate::sql::grammar::g_source_from as spec_source_from;
use crate::sql::grammar::Parsed;
use crate::sql::grammar::comparison_at;
use crate::text::decimal;
use crate::text::digits_end;
use crate::sql::grammar::folded;
use crate::sql::grammar::g_boolean;
use crate::sql::grammar::g_call;
use crate::sql::grammar::g_chain;
use crate::sql::grammar::g_clause;
use crate::sql::grammar::g_clauses;
use crate::sql::grammar::g_column;
use crate::sql::grammar::g_duration;
use crate::sql::grammar::g_expr;
use crate::sql::grammar::g_fixed;
use crate::sql::grammar::g_float;
use crate::sql::grammar::g_function;
use crate::sql::grammar::g_group_by;
use crate::sql::grammar::g_ident;
use crate::sql::grammar::g_integer;
use crate::sql::grammar::g_item;
use crate::sql::grammar::g_items;
use crate::sql::grammar::g_list;
use crate::sql::grammar::g_literal;
use crate::sql::grammar::g_literal_expr;
use crate::sql::grammar::g_name;
use crate::sql::grammar::g_parens;
use crate::sql::grammar::g_period;
use crate::sql::grammar::g_primitive;
use crate::sql::grammar::g_projection;
use crate::sql::grammar::g_projection_field;
use crate::sql::grammar::g_projection_item;
use crate::sql::grammar::g_projection_items;
use crate::sql::grammar::g_quoted;
use crate::sql::grammar::g_select;
use crate::sql::grammar::g_sliding;
use crate::sql::grammar::g_source;
use crate::sql::grammar::g_string;
use crate::sql::grammar::g_tier;
use crate::sql::grammar::g_unary;
use crate::sql::grammar::g_window;
use crate::sql::grammar::has_char;
use crate::sql::grammar::has_word;
use crate::sql::grammar::ident_end;
use crate::sql::grammar::is_alpha;
use crate::text::is_digit;
use crate::sql::grammar::is_space;
use crate::sql::grammar::later_of;
use crate::sql::grammar::lower;
use crate::sql::grammar::mantissa_end;
use crate::sql::grammar::mark_end;
use crate::sql::grammar::operator_at;
use crate::sql::grammar::optional;
use crate::sql::grammar::spaces_end;
use crate::sql::grammar::string_body;
use crate::sql::grammar::unary_at;
use crate::sql::grammar::unescaped;
use crate::sql::grammar::unit_at;
use crate::text::chars_of;
use crate::text::push_char;
use crate::text::string_of;
use crate::window::Period;
use crate::window::Window;

verus! {

/// The production that a parse error names.
#[derive(Clone, Copy, Debug, PartialEq, Eq, Structural)]
pub enum Production {
    Ident,
    Boolean,
    Integer,
    Float,
    String,
    Literal,
    Name,
    Input,
    Expr,
    ExprCall,
    Source,
    Window,
    Select,
}

/// Why a text is no production: the furthest place that the parser
/// reached, counted in characters from the start of the input, and the
/// production that was asked for.
#[derive(Clone, Copy, Debug, PartialEq, Eq, Structural)]
pub struct ParseError {
    pub offset: usize,
    pub context: Production,
}

/// What a production reads at a place of the input.
pub enum Step<T> {
    /// The value, and the place behind what was read.
    Done(T, usize),
    /// Nothing; the furthest place that an attempt reached.
    Miss(usize),
    /// Nothing, and no alternative may be tried.
    Fatal(usize),
}

/// Whether a step of the parser is what the grammar reads, for values that
/// are their own model.
pub open spec fn same<T>(step: Step<T>, parsed: Parsed<T>) -> bool {
    match (step, parsed) {
        (Step::Done(value, next), Parsed::Done { value: v, next: n }) => value == v && next == n,
        (Step::Miss(at), Parsed::Miss { at: a }) => at == a,
        (Step::Fatal(at), Parsed::Fatal { at: a }) => at == a,
        _ => false,
    }
}

/// Whether a step of the parser is what the grammar reads, for texts.
pub open spec fn same_text(step: Step<String>, parsed: Parsed<Seq<char>>) -> bool {
    match (step, parsed) {
        (Step::Done(value, next), Parsed::Done { value: v, next: n }) => value@ == v && next == n,
        (Step::Miss(at), Parsed::Miss { at: a }) => at == a,
        (Step::Fatal(at), Parsed::Fatal { at: a }) => at == a,
        _ => false,
    }
}

/// Whether a step of the parser is what the grammar reads, for expressions.
pub open spec fn same_expr(step: Step<Expr>, parsed: Parsed<ExprView>) -> bool {
    match (step, parsed) {
        (Step::Done(value, next), Parsed::Done { value: v, next: n }) => value@ == v && next == n,
        (Step::Miss(at), Parsed::Miss { at: a }) => at == a,
        (Step::Fatal(at), Parsed::Fatal { at: a }) => at == a,
        _ => false,
    }
}

/// Whether a step of the parser is what the grammar reads, for lists of
/// expressions.
pub open spec fn same_exprs(step: Step<Vec<Expr>>, parsed: Parsed<Seq<ExprView>>) -> bool {
    match (step, parsed) {
        (Step::Done(value, next), Parsed::Done { value: v, next: n }) => expr_views(value@) == v
            && next == n,
        (Step::Miss(at), Parsed::Miss { at: a }) => at == a,
        (Step::Fatal(at), Parsed::Fatal { at: a }) => at == a,
        _ => false,
    }
}

/// A step of the parser ends within the input, at or behind `pos`.
pub open spec fn bounded<T>(step: Step<T>, pos: usize, len: nat) -> bool {
    match step {
        Step::Done(_, next) => pos <= next <= len,
        Step::Miss(at) => pos <= at <= len,
        Step::Fatal(at) => pos <= at <= len,
    }
}

fn later(a: usize, b: usize) -> (r: usize)
    ensures
        r == later_of(a as int, b as int),
{
    if a >= b {
        a
    } else {
        b
    }
}

fn space(c: char) -> (r: bool)
    ensures
        r == is_space(c),
{
    c == ' ' || c == '\t' || c == '\n' || c == '\r'
}

fn alpha(c: char) -> (r: bool)
    ensures
        r == is_alpha(c),
{
    ('a' <= c && c <= 'z') || ('A' <= c && c <= 'Z')
}

fn digit(c: char) -> (r: bool)
    ensures
        r == is_digit(c),
{
    '0' <= c && c <= '9'
}

fn to_lower(c: char) -> (r: char)
    ensures
        r == lower(c),
{
    if 'A' <= c && c <= 'Z' {
        ((c as u8) + 32) as char
    } else {
        c
    }
}

fn skip_spaces(s: &[char], pos: usize) -> (end: usize)
    requires
        pos <= s@.len(),
    ensures
        end == spaces_end(s@, pos as int),
        pos <= end <= s@.len(),
        s@.len() <= usize::MAX,
{
    let mut end = pos;
    while end < s.len() && space(s[end])
        invariant
            pos <= end <= s@.len(),
            spaces_end(s@, pos as int) == spaces_end(s@, end as int),
        decreases s@.len() - end,
    {
        end += 1;
    }
    end
}

fn skip_digits(s: &[char], pos: usize) -> (end: usize)
    requires
        pos <= s@.len(),
    ensures
        end == digits_end(s@, pos as int),
        pos <= end <= s@.len(),
        s@.len() <= usize::MAX,
        forall|i: int| pos <= i < end ==> is_digit(#[trigger] s@[i]),
{
    let mut end = pos;
    while end < s.len() && digit(s[end])
        invariant
            pos <= end <= s@.len(),
            digits_end(s@, pos as int) == digits_end(s@, end as int),
            forall|i: int| pos <= i < end ==> is_digit(#[trigger] s@[i]),
        decreases s@.len() - end,
    {
        end += 1;
    }
    end
}

fn skip_ident(s: &[char], pos: usize) -> (end: usize)
    requires
        pos <= s@.len(),
    ensures
        end == ident_end(s@, pos as int),
        pos <= end <= s@.len(),
        s@.len() <= usize::MAX,
{
    let mut end = pos;
    while end < s.len() && (alpha(s[end]) || digit(s[end]) || s[end] == '_')
        invariant
            pos <= end <= s@.len(),
            ident_end(s@, pos as int) == ident_end(s@, end as int),
        decreases s@.len() - end,
    {
        end += 1;
    }
    end
}

fn at_char(s: &[char], pos: usize, c: char) -> (found: bool)
    ensures
        found == has_char(s@, pos as int, c),
        s@.len() <= usize::MAX,
{
    pos < s.len() && s[pos] == c
}

fn at_word(s: &[char], pos: usize, word: &str) -> (found: bool)
    ensures
        found == has_word(s@, pos as int, word@),
        found ==> pos + word@.len() <= s@.len(),
        s@.len() <= usize::MAX,
{
    let len = word.unicode_len();
    let total = s.len();
    if pos > total || len > total - pos {
        return false;
    }
    let mut i: usize = 0;
    while i < len
        invariant
            i <= len,
            len == word@.len(),
            total == s@.len(),
            pos + len <= total,
            forall|j: int| 0 <= j < i ==> lower(#[trigger] s@[pos + j]) == word@[j],
        decreases len - i,
    {
        if to_lower(s[pos + i]) != word.get_char(i) {
            return false;
        }
        i += 1;
    }
    true
}

fn p_ident(s: &[char], pos: usize) -> (step: Step<String>)
    requires
        pos <= s@.len(),
    ensures
        same_text(step, g_ident(s@, pos as int)),
        bounded(step, pos, s@.len()),
{
    if pos < s.len() && (alpha(s[pos]) || s[pos] == '_' || s[pos] == '@') {
        let end = skip_ident(s, pos + 1);
        Step::Done(string_of(s, pos, end), end)
    } else {
        Step::Miss(pos)
    }
}

fn p_boolean(s: &[char], pos: usize) -> (step: Step<bool>)
    requires
        pos <= s@.len(),
    ensures
        same(step, g_boolean(s@, pos as int)),
        bounded(step, pos, s@.len()),
{
    proof {
        reveal_strlit("true");
        reveal_strlit("false");
        assert("true"@ =~= seq!['t', 'r', 'u', 'e']);
        assert("false"@ =~= seq!['f', 'a', 'l', 's', 'e']);
    }
    if at_word(s, pos, "true") {
        Step::Done(true, pos + 4)
    } else if at_word(s, pos, "false") {
        Step::Done(false, pos + 5)
    } else {
        Step::Miss(pos)
    }
}

fn p_integer(s: &[char], pos: usize) -> (step: Step<i64>)
    requires
        pos <= s@.len(),
    ensures
        same(step, g_integer(s@, pos as int)),
        bounded(step, pos, s@.len()),
{
    let negative = at_char(s, pos, '-');
    let first = if negative {
        pos + 1
    } else {
        pos
    };
    let end = skip_digits(s, first);
    if end == first {
        return Step::Miss(first);
    }
    let limit: i128 = 0x8000_0000_0000_0000;
    let mut total: i128 = 0;
    let mut big = false;
    let mut i: usize = first;
    while i < end
        invariant
            first <= i <= end <= s@.len(),
            limit == 0x8000_0000_0000_0000,
            forall|j: int| first <= j < end ==> is_digit(#[trigger] s@[j]),
            0 <= decimal(s@, first as int, i as int),
            !big ==> total == decimal(s@, first as int, i as int) && total <= limit,
            big ==> decimal(s@, first as int, i as int) > limit,
        decreases end - i,
    {
        let d = (s[i] as u32 - '0' as u32) as i128;
        assert(is_digit(s@[i as int]));
        assert(decimal(s@, first as int, i + 1) == decimal(s@, first as int, i as int) * 10 + d);
        if !big {
            total = total * 10 + d;
            if total > limit {
                big = true;
            }
        }
        i += 1;
    }
    if big {
        return Step::Miss(pos);
    }
    if negative {
        Step::Done((-total) as i64, end)
    } else if total < limit {
        Step::Done(total as i64, end)
    } else {
        Step::Miss(pos)
    }
}

fn p_mantissa(s: &[char], first: usize) -> (end: Option<usize>)
    requires
        first <= s@.len(),
    ensures
        match end {
            Some(e) => mantissa_end(s@, first as int) == Some(e as int) && first <= e <= s@.len(),
            None => mantissa_end(s@, first as int) is None,
        },
{
    let whole = skip_digits(s, first);
    if whole > first {
        if at_char(s, whole, '.') {
            Some(skip_digits(s, whole + 1))
        } else {
            None
        }
    } else if at_char(s, first, '.') {
        let end = skip_digits(s, first + 1);
        if end > first + 1 {
            Some(end)
        } else {
            None
        }
    } else {
        None
    }
}

fn p_float(s: &[char], pos: usize) -> (step: Step<String>)
    requires
        pos <= s@.len(),
    ensures
        same_text(step, g_float(s@, pos as int)),
        bounded(step, pos, s@.len()),
{
    let first = if at_char(s, pos, '-') {
        pos + 1
    } else {
        pos
    };
    match p_mantissa(s, first) {
        None => Step::Miss(first),
        Some(mantissa) => {
            if at_char(s, mantissa, 'e') || at_char(s, mantissa, 'E') {
                let digits = if at_char(s, mantissa + 1, '+') || at_char(s, mantissa + 1, '-') {
                    mantissa + 2
                } else {
                    mantissa + 1
                };
                let end = skip_digits(s, digits);
                if end == digits {
                    Step::Fatal(digits)
                } else {
                    Step::Done(string_of(s, pos, end), end)
                }
            } else {
                Step::Done(string_of(s, pos, mantissa), mantissa)
            }
        },
    }
}

fn unescape(c: char) -> (r: char)
    ensures
        r == unescaped(c),
{
    if c == 'b' {
        '\x7f'
    } else if c == 'r' {
        '\r'
    } else if c == 'n' {
        '\n'
    } else if c == 't' {
        '\t'
    } else if c == '0' {
        '\0'
    } else if c == 'Z' {
        '\x1a'
    } else {
        c
    }
}

fn p_quoted(s: &[char], pos: usize, quote: char) -> (step: Step<String>)
    requires
        pos <= s@.len(),
    ensures
        same_text(step, g_quoted(s@, pos as int, quote)),
        bounded(step, pos, s@.len()),
{
    if !at_char(s, pos, quote) {
        return Step::Miss(pos);
    }
    let mut text = String::new();
    let mut i: usize = pos + 1;
    let ghost body = string_body(s@, pos + 1, quote, Seq::empty());
    loop
        invariant
            pos < i <= s@.len(),
            body == string_body(s@, pos + 1, quote, Seq::empty()),
            body == string_body(s@, i as int, quote, text@),
        ensures
            pos < i <= s@.len(),
            body == (text@, i as int),
        decreases s@.len() - i,
    {
        if i >= s.len() {
            break;
        }
        let c = s[i];
        if c != '\\' && c != quote {
            push_char(&mut text, c);
            i += 1;
        } else if c == quote {
            if at_char(s, i + 1, quote) {
                push_char(&mut text, quote);
                i += 2;
            } else {
                break;
            }
        } else if i + 1 < s.len() {
            push_char(&mut text, unescape(s[i + 1]));
            i += 2;
        } else {
            break;
        }
    }
    if at_char(s, i, quote) {
        Step::Done(text, i + 1)
    } else {
        Step::Miss(i)
    }
}

fn p_string(s: &[char], pos: usize) -> (step: Step<String>)
    requires
        pos <= s@.len(),
    ensures
        same_text(step, g_string(s@, pos as int)),
        bounded(step, pos, s@.len()),
{
    match p_quoted(s, pos, '\'') {
        Step::Miss(single) => match p_quoted(s, pos, '"') {
            Step::Miss(double) => Step::Miss(later(single, double)),
            other => other,
        },
        other => other,
    }
}

/// Whether a step of the parser is what the grammar reads, for literals.
pub open spec fn same_literal(step: Step<Literal>, parsed: Parsed<LiteralView>) -> bool {
    match (step, parsed) {
        (Step::Done(value, next), Parsed::Done { value: v, next: n }) => value@ == v && next == n,
        (Step::Miss(at), Parsed::Miss { at: a }) => at == a,
        (Step::Fatal(at), Parsed::Fatal { at: a }) => at == a,
        _ => false,
    }
}

fn p_literal(s: &[char], pos: usize) -> (step: Step<Literal>)
    requires
        pos <= s@.len(),
    ensures
        same_literal(step, g_literal(s@, pos as int)),
        bounded(step, pos, s@.len()),
{
    let a = match p_boolean(s, pos) {
        Step::Done(value, next) => {
            return Step::Done(Literal::Boolean(value), next);
        },
        Step::Fatal(at) => {
            return Step::Fatal(at);
        },
        Step::Miss(at) => at,
    };
    let b = match p_float(s, pos) {
        Step::Done(value, next) => {
            return Step::Done(Literal::Float(value), next);
        },
        Step::Fatal(at) => {
            return Step::Fatal(at);
        },
        Step::Miss(at) => at,
    };
    let c = match p_integer(s, pos) {
        Step::Done(value, next) => {
            return Step::Done(Literal::Int(value), next);
        },
        Step::Fatal(at) => {
            return Step::Fatal(at);
        },
        Step::Miss(at) => at,
    };
    match p_string(s, pos) {
        Step::Done(value, next) => Step::Done(Literal::String(value), next),
        Step::Fatal(at) => Step::Fatal(at),
        Step::Miss(d) => Step::Miss(later(later(a, b), later(c, d))),
    }
}

fn p_name(s: &[char], pos: usize) -> (step: Step<String>)
    requires
        pos <= s@.len(),
    ensures
        same_text(step, g_name(s@, pos as int)),
        bounded(step, pos, s@.len()),
{
    match p_string(s, pos) {
        Step::Miss(a) => match p_ident(s, pos) {
            Step::Miss(b) => Step::Miss(later(a, b)),
            other => other,
        },
        other => other,
    }
}

fn p_column(s: &[char], pos: usize) -> (step: Step<Expr>)
    requires
        pos <= s@.len(),
    ensures
        same_expr(step, g_column(s@, pos as int)),
        bounded(step, pos, s@.len()),
{
    match p_name(s, pos) {
        Step::Done(first, next) => {
            let qualified = if at_char(s, next, '.') {
                p_name(s, next + 1)
            } else {
                Step::Miss(next)
            };
            match qualified {
                Step::Done(name, end) => Step::Done(
                    Expr::Column { qualifier: Some(first), name },
                    end,
                ),
                Step::Fatal(at) => Step::Fatal(at),
                Step::Miss(_) => Step::Done(Expr::Column { qualifier: None, name: first }, next),
            }
        },
        Step::Fatal(at) => Step::Fatal(at),
        Step::Miss(at) => {
            if at_char(s, pos, '*') {
                Step::Done(Expr::Wildcard { qualifier: None }, pos + 1)
            } else {
                Step::Miss(at)
            }
        },
    }
}

/// The views of operators with their operands.
pub open spec fn pair_views(pairs: Seq<(BinaryOperator, Expr)>) -> Seq<(BinaryOperator, ExprView)> {
    pairs.map_values(|p: (BinaryOperator, Expr)| (p.0, p.1@))
}

/// Joins an expression and the operators and operands behind it, from the
/// left: `a`, `+ b`, `- c` is `(a + b) - c`.
pub fn parse_expr(expr: Expr, rem: Vec<(BinaryOperator, Expr)>) -> (joined: Expr)
    ensures
        joined@ == folded(expr@, pair_views(rem@)),
{
    let ghost first = expr@;
    let ghost pairs = pair_views(rem@);
    let mut joined = expr;
    assert(pairs.take(0) =~= Seq::<(BinaryOperator, ExprView)>::empty());
    for pair in held: rem
        invariant
            pair_views(held.seq()) == pairs,
            joined@ == folded(first, pairs.take(held.index() as int)),
    {
        proof {
            let next = pairs.take(held.index() + 1);
            assert(next.drop_last() =~= pairs.take(held.index() as int));
            assert(next.last() == (pair.0, pair.1@));
        }
        joined = Expr::Binary { op: pair.0, lhs: Box::new(joined), rhs: Box::new(pair.1) };
    }
    assert(pairs.take(pairs.len() as int) =~= pairs);
    joined
}

fn p_comparison(s: &[char], pos: usize) -> (found: Option<(BinaryOperator, usize)>)
    ensures
        match found {
            Some((op, len)) => comparison_at(s@, pos as int) == Some((op, len as int)),
            None => comparison_at(s@, pos as int) is None,
        },
        found matches Some((_, len)) ==> 0 < len && pos + len <= s@.len(),
        s@.len() <= usize::MAX,
{
    let len = s.len();
    if pos >= len {
        return None;
    }
    let followed = pos + 1 < len;
    if s[pos] == '<' && followed && s[pos + 1] == '=' {
        Some((BinaryOperator::LtEq, 2))
    } else if s[pos] == '<' && followed && s[pos + 1] == '>' {
        Some((BinaryOperator::NotEq, 2))
    } else if s[pos] == '<' {
        Some((BinaryOperator::Lt, 1))
    } else if s[pos] == '>' && followed && s[pos + 1] == '=' {
        Some((BinaryOperator::GtEq, 2))
    } else if s[pos] == '>' {
        Some((BinaryOperator::Gt, 1))
    } else if s[pos] == '=' {
        Some((BinaryOperator::Eq, 1))
    } else if s[pos] == '!' && followed && s[pos + 1] == '=' {
        Some((BinaryOperator::NotEq, 2))
    } else {
        None
    }
}

fn p_operator(s: &[char], pos: usize, tier: u8) -> (found: Option<(BinaryOperator, usize)>)
    ensures
        match found {
            Some((op, len)) => operator_at(s@, pos as int, tier as int) == Some((op, len as int)),
            None => operator_at(s@, pos as int, tier as int) is None,
        },
        found matches Some((_, len)) ==> 0 < len && pos + len <= s@.len(),
        s@.len() <= usize::MAX,
{
    proof {
        reveal_strlit("or");
        reveal_strlit("and");
        assert("or"@ =~= seq!['o', 'r']);
        assert("and"@ =~= seq!['a', 'n', 'd']);
    }
    if tier == 0 {
        if at_word(s, pos, "or") {
            Some((BinaryOperator::Or, 2))
        } else {
            None
        }
    } else if tier == 1 {
        if at_word(s, pos, "and") {
            Some((BinaryOperator::And, 3))
        } else {
            None
        }
    } else if tier == 2 {
        p_comparison(s, pos)
    } else if tier == 3 {
        if at_char(s, pos, '+') {
            Some((BinaryOperator::Plus, 1))
        } else if at_char(s, pos, '-') {
            Some((BinaryOperator::Minus, 1))
        } else {
            None
        }
    } else {
        if at_char(s, pos, '*') {
            Some((BinaryOperator::Multiply, 1))
        } else if at_char(s, pos, '/') {
            Some((BinaryOperator::Divide, 1))
        } else {
            None
        }
    }
}

fn p_unary_operator(s: &[char], pos: usize) -> (found: Option<(UnaryOperator, usize)>)
    ensures
        match found {
            Some((op, len)) => unary_at(s@, pos as int) == Some((op, len as int)),
            None => unary_at(s@, pos as int) is None,
        },
        found matches Some((_, len)) ==> 0 < len && pos + len <= s@.len(),
        s@.len() <= usize::MAX,
{
    proof {
        reveal_strlit("not");
        assert("not"@ =~= seq!['n', 'o', 't']);
    }
    if at_word(s, pos, "not") {
        Some((UnaryOperator::Not, 3))
    } else if at_char(s, pos, '-') {
        Some((UnaryOperator::Neg, 1))
    } else {
        None
    }
}

fn p_expr(s: &[char], pos: usize) -> (step: Step<Expr>)
    requires
        pos <= s@.len(),
    ensures
        same_expr(step, g_expr(s@, pos as int)),
        bounded(step, pos, s@.len()),
    decreases s@.len() - pos, 20nat,
{
    p_tier(s, pos, 0)
}

/// An expression of a tier of operators: `or`, `and`, comparisons, `+` and
/// `-`, `*` and `/`, from the loosest to the tightest.
fn p_tier(s: &[char], pos: usize, tier: u8) -> (step: Step<Expr>)
    requires
        pos <= s@.len(),
        tier <= 5,
    ensures
        same_expr(step, g_tier(s@, pos as int, tier as int)),
        bounded(step, pos, s@.len()),
    decreases s@.len() - pos, 15 - 2 * tier,
{
    if tier > 4 {
        return p_primitive(s, pos);
    }
    let (first, next) = match p_tier(s, pos, tier + 1) {
        Step::Done(value, next) => (value, next),
        other => {
            return other;
        },
    };
    let ghost lhs = first@;
    let mut rem: Vec<(BinaryOperator, Expr)> = Vec::new();
    let mut at: usize = next;
    assert(pair_views(rem@) =~= Seq::<(BinaryOperator, ExprView)>::empty());
    loop
        invariant
            pos <= next <= at <= s@.len(),
            tier <= 4,
            g_tier(s@, pos as int, tier as int) == g_chain(s@, next as int, tier as int, lhs),
            g_chain(s@, next as int, tier as int, lhs) == g_chain(
                s@,
                at as int,
                tier as int,
                folded(lhs, pair_views(rem@)),
            ),
        ensures
            pos <= at <= s@.len(),
            g_chain(s@, next as int, tier as int, lhs) == (Parsed::Done {
                value: folded(lhs, pair_views(rem@)),
                next: at as int,
            }),
        decreases s@.len() - at,
    {
        let (op, len) = match p_operator(s, at, tier) {
            Some(found) => found,
            None => {
                break;
            },
        };
        match p_tier(s, at + len, tier + 1) {
            Step::Done(rhs, end) => {
                let ghost before = pair_views(rem@);
                assert(pair_views(rem@.push((op, rhs))) =~= before.push((op, rhs@)));
                assert(before.push((op, rhs@)).drop_last() =~= before);
                rem.push((op, rhs));
                at = end;
            },
            Step::Fatal(x) => {
                return Step::Fatal(x);
            },
            Step::Miss(_) => {
                break;
            },
        }
    }
    Step::Done(parse_expr(first, rem), at)
}

/// An expression between white space.
fn p_item(s: &[char], pos: usize) -> (step: Step<Expr>)
    requires
        pos <= s@.len(),
    ensures
        same_expr(step, g_item(s@, pos as int)),
        bounded(step, pos, s@.len()),
    decreases s@.len() - pos, 21nat,
{
    let first = skip_spaces(s, pos);
    match p_expr(s, first) {
        Step::Done(value, next) => Step::Done(value, skip_spaces(s, next)),
        other => other,
    }
}

/// A list of expressions between commas.
fn p_list(s: &[char], pos: usize, needed: bool) -> (step: Step<Vec<Expr>>)
    requires
        pos <= s@.len(),
    ensures
        same_exprs(step, g_list(s@, pos as int, needed)),
        bounded(step, pos, s@.len()),
    decreases s@.len() - pos, 23nat,
{
    let mut items: Vec<Expr> = Vec::new();
    let mut at: usize = match p_item(s, pos) {
        Step::Done(value, next) => {
            items.push(value);
            assert(expr_views(items@) =~= seq![value@]);
            next
        },
        Step::Fatal(x) => {
            return Step::Fatal(x);
        },
        Step::Miss(x) => {
            if needed {
                return Step::Miss(x);
            } else {
                assert(expr_views(items@) =~= Seq::<ExprView>::empty());
                return Step::Done(items, pos);
            }
        },
    };
    let ghost first = expr_views(items@);
    let ghost start = at;
    loop
        invariant
            pos <= start <= at <= s@.len(),
            g_list(s@, pos as int, needed) == g_items(s@, start as int, first),
            g_items(s@, start as int, first) == g_items(s@, at as int, expr_views(items@)),
        ensures
            pos <= at <= s@.len(),
            g_items(s@, start as int, first) == (Parsed::Done {
                value: expr_views(items@),
                next: at as int,
            }),
        decreases s@.len() - at,
    {
        if !at_char(s, at, ',') {
            break;
        }
        match p_item(s, at + 1) {
            Step::Done(value, next) => {
                let ghost before = expr_views(items@);
                items.push(value);
                assert(expr_views(items@) =~= before.push(value@));
                at = next;
            },
            Step::Fatal(x) => {
                return Step::Fatal(x);
            },
            Step::Miss(_) => {
                break;
            },
        }
    }
    Step::Done(items, at)
}

fn p_parens(s: &[char], pos: usize) -> (step: Step<Expr>)
    requires
        pos <= s@.len(),
    ensures
        same_expr(step, g_parens(s@, pos as int)),
        bounded(step, pos, s@.len()),
    decreases s@.len() - pos, 1nat,
{
    if !at_char(s, pos, '(') {
        return Step::Miss(pos);
    }
    let first = skip_spaces(s, pos + 1);
    match p_expr(s, first) {
        Step::Done(value, next) => {
            let close = skip_spaces(s, next);
            if at_char(s, close, ')') {
                Step::Done(value, close + 1)
            } else {
                Step::Miss(close)
            }
        },
        other => other,
    }
}

fn p_unary(s: &[char], pos: usize) -> (step: Step<Expr>)
    requires
        pos <= s@.len(),
    ensures
        same_expr(step, g_unary(s@, pos as int)),
        bounded(step, pos, s@.len()),
    decreases s@.len() - pos, 1nat,
{
    match p_unary_operator(s, pos) {
        Some((op, len)) => {
            let first = skip_spaces(s, pos + len);
            match p_primitive(s, first) {
                Step::Done(value, next) => Step::Done(
                    Expr::Unary { op, expr: Box::new(value) },
                    next,
                ),
                other => other,
            }
        },
        None => Step::Miss(pos),
    }
}

/// The name of a called function, with its namespace.
fn p_function(s: &[char], pos: usize) -> (step: Step<(Option<String>, String)>)
    requires
        pos <= s@.len(),
    ensures
        match (step, g_function(s@, pos as int)) {
            (Step::Done((namespace, name), next), Parsed::Done { value, next: n }) => {
                &&& crate::expr::text_view(namespace) == value.0
                &&& name@ == value.1
                &&& next == n
            },
            (Step::Miss(at), Parsed::Miss { at: a }) => at == a,
            (Step::Fatal(at), Parsed::Fatal { at: a }) => at == a,
            _ => false,
        },
        bounded(step, pos, s@.len()),
{
    match p_ident(s, pos) {
        Step::Done(first, next) => {
            let second = if at_char(s, next, '.') {
                p_ident(s, next + 1)
            } else {
                Step::Miss(next)
            };
            match second {
                Step::Done(name, end) => Step::Done((Some(first), name), end),
                _ => Step::Done((None, first), next),
            }
        },
        Step::Fatal(at) => Step::Fatal(at),
        Step::Miss(at) => Step::Miss(at),
    }
}

fn p_call(s: &[char], pos: usize) -> (step: Step<Expr>)
    requires
        pos <= s@.len(),
    ensures
        same_expr(step, g_call(s@, pos as int)),
        bounded(step, pos, s@.len()),
    decreases s@.len() - pos, 1nat,
{
    match p_function(s, pos) {
        Step::Done((namespace, name), next) => {
            let open = skip_spaces(s, next);
            if !at_char(s, open, '(') {
                return Step::Miss(open);
            }
            let first = skip_spaces(s, open + 1);
            match p_list(s, first, false) {
                Step::Done(args, end) => {
                    let close = skip_spaces(s, end);
                    if at_char(s, close, ')') {
                        let ghost views = expr_views(args@);
                        let call = Expr::Call { namespace, name, args };
                        assert(call@->Call_args =~= views);
                        Step::Done(call, close + 1)
                    } else {
                        Step::Miss(close)
                    }
                },
                Step::Fatal(at) => Step::Fatal(at),
                Step::Miss(at) => Step::Miss(at),
            }
        },
        Step::Fatal(at) => Step::Fatal(at),
        Step::Miss(at) => Step::Miss(at),
    }
}

fn p_literal_expr(s: &[char], pos: usize) -> (step: Step<Expr>)
    requires
        pos <= s@.len(),
    ensures
        same_expr(step, g_literal_expr(s@, pos as int)),
        bounded(step, pos, s@.len()),
{
    match p_literal(s, pos) {
        Step::Done(value, next) => Step::Done(Expr::Literal(value), next),
        Step::Fatal(at) => Step::Fatal(at),
        Step::Miss(at) => Step::Miss(at),
    }
}

fn p_primitive(s: &[char], pos: usize) -> (step: Step<Expr>)
    requires
        pos <= s@.len(),
    ensures
        same_expr(step, g_primitive(s@, pos as int)),
        bounded(step, pos, s@.len()),
    decreases s@.len() - pos, 2nat,
{
    let first = skip_spaces(s, pos);
    let a = match p_parens(s, first) {
        Step::Miss(a) => a,
        Step::Done(value, next) => {
            return Step::Done(value, skip_spaces(s, next));
        },
        Step::Fatal(at) => {
            return Step::Fatal(at);
        },
    };
    let b = match p_unary(s, first) {
        Step::Miss(b) => b,
        Step::Done(value, next) => {
            return Step::Done(value, skip_spaces(s, next));
        },
        Step::Fatal(at) => {
            return Step::Fatal(at);
        },
    };
    let c = match p_call(s, first) {
        Step::Miss(c) => c,
        Step::Done(value, next) => {
            return Step::Done(value, skip_spaces(s, next));
        },
        Step::Fatal(at) => {
            return Step::Fatal(at);
        },
    };
    let d = match p_literal_expr(s, first) {
        Step::Miss(d) => d,
        Step::Done(value, next) => {
            return Step::Done(value, skip_spaces(s, next));
        },
        Step::Fatal(at) => {
            return Step::Fatal(at);
        },
    };
    match p_column(s, first) {
        Step::Miss(e) => Step::Miss(later(a, later(b, later(c, later(d, e))))),
        Step::Done(value, next) => Step::Done(value, skip_spaces(s, next)),
        Step::Fatal(at) => Step::Fatal(at),
    }
}

/// The name behind `as`, where the input goes on with it behind `pos`.
fn p_alias(s: &[char], pos: usize) -> (alias: Option<(String, usize)>)
    requires
        pos <= s@.len(),
    ensures
        match alias {
            Some((name, end)) => {
                &&& has_word(s@, spaces_end(s@, pos as int), seq!['a', 's'])
                &&& g_name(s@, spaces_end(s@, spaces_end(s@, pos as int) + 2)) == (Parsed::Done {
                    value: name@,
                    next: end as int,
                })
                &&& pos <= end <= s@.len()
            },
            None => !has_word(s@, spaces_end(s@, pos as int), seq!['a', 's']) || !(g_name(
                s@,
                spaces_end(s@, spaces_end(s@, pos as int) + 2),
            ) is Done),
        },
{
    proof {
        reveal_strlit("as");
        assert("as"@ =~= seq!['a', 's']);
    }
    let word = skip_spaces(s, pos);
    if !at_word(s, word, "as") {
        return None;
    }
    match p_name(s, skip_spaces(s, word + 2)) {
        Step::Done(name, end) => Some((name, end)),
        _ => None,
    }
}

fn p_projection_field(s: &[char], pos: usize) -> (step: Step<Expr>)
    requires
        pos <= s@.len(),
    ensures
        same_expr(step, g_projection_field(s@, pos as int)),
        bounded(step, pos, s@.len()),
{
    match p_expr(s, pos) {
        Step::Done(value, next) => match p_alias(s, next) {
            Some((alias, end)) => Step::Done(value.alias(alias), end),
            None => Step::Done(value, next),
        },
        other => other,
    }
}

fn p_projection_item(s: &[char], pos: usize) -> (step: Step<Expr>)
    requires
        pos <= s@.len(),
    ensures
        same_expr(step, g_projection_item(s@, pos as int)),
        bounded(step, pos, s@.len()),
{
    match p_projection_field(s, skip_spaces(s, pos)) {
        Step::Done(value, next) => Step::Done(value, skip_spaces(s, next)),
        other => other,
    }
}

fn projection(s: &[char], pos: usize) -> (step: Step<Vec<Expr>>)
    requires
        pos <= s@.len(),
    ensures
        same_exprs(step, g_projection(s@, pos as int)),
        bounded(step, pos, s@.len()),
{
    let mut fields: Vec<Expr> = Vec::new();
    let mut at: usize = match p_projection_item(s, pos) {
        Step::Done(value, next) => {
            fields.push(value);
            assert(expr_views(fields@) =~= seq![value@]);
            next
        },
        Step::Fatal(x) => {
            return Step::Fatal(x);
        },
        Step::Miss(x) => {
            return Step::Miss(x);
        },
    };
    let ghost first = expr_views(fields@);
    let ghost start = at;
    loop
        invariant
            pos <= start <= at <= s@.len(),
            g_projection(s@, pos as int) == g_projection_items(s@, start as int, first),
            g_projection_items(s@, start as int, first) == g_projection_items(
                s@,
                at as int,
                expr_views(fields@),
            ),
        ensures
            pos <= at <= s@.len(),
            g_projection_items(s@, start as int, first) == (Parsed::Done {
                value: expr_views(fields@),
                next: at as int,
            }),
        decreases s@.len() - at,
    {
        if !at_char(s, at, ',') {
            break;
        }
        match p_projection_item(s, at + 1) {
            Step::Done(value, next) => {
                let ghost before = expr_views(fields@);
                fields.push(value);
                assert(expr_views(fields@) =~= before.push(value@));
                at = next;
            },
            Step::Fatal(x) => {
                return Step::Fatal(x);
            },
            Step::Miss(_) => {
                break;
            },
        }
    }
    Step::Done(fields, at)
}

fn p_group_by(s: &[char], pos: usize) -> (step: Step<Vec<Expr>>)
    requires
        pos <= s@.len(),
    ensures
        same_exprs(step, g_group_by(s@, pos as int)),
        bounded(step, pos, s@.len()),
{
    proof {
        reveal_strlit("group");
        reveal_strlit("by");
        assert("group"@ =~= seq!['g', 'r', 'o', 'u', 'p']);
        assert("by"@ =~= seq!['b', 'y']);
    }
    if !at_word(s, pos, "group") {
        return Step::Miss(pos);
    }
    let by = skip_spaces(s, pos + 5);
    if !at_word(s, by, "by") {
        return Step::Miss(by);
    }
    p_list(s, skip_spaces(s, by + 2), true)
}

fn p_unit(s: &[char], pos: usize) -> (unit: Option<(i64, usize)>)
    ensures
        match unit {
            Some((scale, len)) => unit_at(s@, pos as int) == Some((scale as int, len as int)) && pos
                + len <= s@.len() && s@.len() <= usize::MAX && (scale == 1 || scale == 1000 || scale
                == 60000),
            None => unit_at(s@, pos as int) is None,
        },
{
    proof {
        reveal_strlit("s");
        reveal_strlit("ms");
        reveal_strlit("m");
        assert("s"@ =~= seq!['s']);
        assert("ms"@ =~= seq!['m', 's']);
        assert("m"@ =~= seq!['m']);
    }
    if at_word(s, pos, "s") {
        Some((1000, 1))
    } else if at_word(s, pos, "ms") {
        Some((1, 2))
    } else if at_word(s, pos, "m") {
        Some((60000, 1))
    } else {
        None
    }
}

fn p_duration(s: &[char], pos: usize) -> (step: Step<i64>)
    requires
        pos <= s@.len(),
    ensures
        same(step, g_duration(s@, pos as int)),
        bounded(step, pos, s@.len()),
{
    match p_integer(s, pos) {
        Step::Done(value, next) => match p_unit(s, next) {
            Some((scale, len)) => match value.checked_mul(scale) {
                Some(scaled) => Step::Done(scaled, next + len),
                None => Step::Miss(pos),
            },
            None => Step::Miss(next),
        },
        Step::Fatal(at) => Step::Fatal(at),
        Step::Miss(at) => Step::Miss(at),
    }
}

fn p_mark(s: &[char], pos: usize, c: char) -> (end: Option<usize>)
    requires
        pos <= s@.len(),
    ensures
        match end {
            Some(e) => mark_end(s@, pos as int, c) == Some(e as int) && pos <= e <= s@.len(),
            None => mark_end(s@, pos as int, c) is None,
        },
{
    let at = skip_spaces(s, pos);
    if at_char(s, at, c) {
        Some(skip_spaces(s, at + 1))
    } else {
        None
    }
}

fn p_fixed(s: &[char], pos: usize) -> (step: Step<Window>)
    requires
        pos <= s@.len(),
    ensures
        same(step, g_fixed(s@, pos as int)),
        bounded(step, pos, s@.len()),
{
    proof {
        reveal_strlit("fixed");
        assert("fixed"@ =~= seq!['f', 'i', 'x', 'e', 'd']);
    }
    if !at_word(s, pos, "fixed") {
        return Step::Miss(pos);
    }
    let first = match p_mark(s, pos + 5, '(') {
        Some(first) => first,
        None => {
            return Step::Miss(skip_spaces(s, pos + 5));
        },
    };
    match p_duration(s, first) {
        Step::Done(length, next) => {
            let close = skip_spaces(s, next);
            if at_char(s, close, ')') {
                Step::Done(Window::Fixed { length }, close + 1)
            } else {
                Step::Miss(close)
            }
        },
        Step::Fatal(at) => Step::Fatal(at),
        Step::Miss(at) => Step::Miss(at),
    }
}

fn p_sliding(s: &[char], pos: usize) -> (step: Step<Window>)
    requires
        pos <= s@.len(),
    ensures
        same(step, g_sliding(s@, pos as int)),
        bounded(step, pos, s@.len()),
{
    proof {
        reveal_strlit("sliding");
        assert("sliding"@ =~= seq!['s', 'l', 'i', 'd', 'i', 'n', 'g']);
    }
    if !at_word(s, pos, "sliding") {
        return Step::Miss(pos);
    }
    let first = match p_mark(s, pos + 7, '(') {
        Some(first) => first,
        None => {
            return Step::Miss(skip_spaces(s, pos + 7));
        },
    };
    let (length, next) = match p_duration(s, first) {
        Step::Done(length, next) => (length, next),
        Step::Fatal(at) => {
            return Step::Fatal(at);
        },
        Step::Miss(at) => {
            return Step::Miss(at);
        },
    };
    let second = match p_mark(s, next, ',') {
        Some(second) => second,
        None => {
            return Step::Miss(skip_spaces(s, next));
        },
    };
    match p_duration(s, second) {
        Step::Done(interval, end) => {
            let close = skip_spaces(s, end);
            if at_char(s, close, ')') {
                Step::Done(Window::Sliding { length, interval }, close + 1)
            } else {
                Step::Miss(close)
            }
        },
        Step::Fatal(at) => Step::Fatal(at),
        Step::Miss(at) => Step::Miss(at),
    }
}

fn p_period(s: &[char], pos: usize) -> (step: Step<Window>)
    requires
        pos <= s@.len(),
    ensures
        same(step, g_period(s@, pos as int)),
        bounded(step, pos, s@.len()),
{
    proof {
        reveal_strlit("day");
        reveal_strlit("week");
        reveal_strlit("month");
        reveal_strlit("year");
        assert("day"@ =~= seq!['d', 'a', 'y']);
        assert("week"@ =~= seq!['w', 'e', 'e', 'k']);
        assert("month"@ =~= seq!['m', 'o', 'n', 't', 'h']);
        assert("year"@ =~= seq!['y', 'e', 'a', 'r']);
    }
    if at_word(s, pos, "day") {
        Step::Done(Window::Period { period: Period::Day }, pos + 3)
    } else if at_word(s, pos, "week") {
        Step::Done(Window::Period { period: Period::Week }, pos + 4)
    } else if at_word(s, pos, "month") {
        Step::Done(Window::Period { period: Period::Month }, pos + 5)
    } else if at_word(s, pos, "year") {
        Step::Done(Window::Period { period: Period::Year }, pos + 4)
    } else {
        Step::Miss(pos)
    }
}

fn p_window(s: &[char], pos: usize) -> (step: Step<Window>)
    requires
        pos <= s@.len(),
    ensures
        same(step, g_window(s@, pos as int)),
        bounded(step, pos, s@.len()),
{
    proof {
        reveal_strlit("window");
        assert("window"@ =~= seq!['w', 'i', 'n', 'd', 'o', 'w']);
    }
    if !at_word(s, pos, "window") {
        return Step::Miss(pos);
    }
    let first = skip_spaces(s, pos + 6);
    let a = match p_fixed(s, first) {
        Step::Miss(a) => a,
        other => {
            return other;
        },
    };
    let b = match p_sliding(s, first) {
        Step::Miss(b) => b,
        other => {
            return other;
        },
    };
    match p_period(s, first) {
        Step::Miss(c) => Step::Miss(later(a, later(b, c))),
        other => other,
    }
}

/// The expression behind the word `word`.
fn clause(s: &[char], pos: usize, word: &str) -> (step: Step<Expr>)
    requires
        pos <= s@.len(),
    ensures
        same_expr(step, g_clause(s@, pos as int, word@)),
        bounded(step, pos, s@.len()),
{
    if !at_word(s, pos, word) {
        return Step::Miss(pos);
    }
    let len = word.unicode_len();
    p_expr(s, skip_spaces(s, pos + len))
}

/// Whether a step of the parser is what the grammar reads, for sources.
pub open spec fn same_source_from(step: Step<SourceFrom>, parsed: Parsed<SourceFromView>) -> bool {
    match (step, parsed) {
        (Step::Done(value, next), Parsed::Done { value: v, next: n }) => value@ == v && next == n,
        (Step::Miss(at), Parsed::Miss { at: a }) => at == a,
        (Step::Fatal(at), Parsed::Fatal { at: a }) => at == a,
        _ => false,
    }
}

pub open spec fn same_source(step: Step<Source>, parsed: Parsed<SourceView>) -> bool {
    match (step, parsed) {
        (Step::Done(value, next), Parsed::Done { value: v, next: n }) => value@ == v && next == n,
        (Step::Miss(at), Parsed::Miss { at: a }) => at == a,
        (Step::Fatal(at), Parsed::Fatal { at: a }) => at == a,
        _ => false,
    }
}

/// Whether a step of the parser is what the grammar reads, for queries.
pub open spec fn same_select(step: Step<Select>, parsed: Parsed<SelectView>) -> bool {
    match (step, parsed) {
        (Step::Done(value, next), Parsed::Done { value: v, next: n }) => value@ == v && next == n,
        (Step::Miss(at), Parsed::Miss { at: a }) => at == a,
        (Step::Fatal(at), Parsed::Fatal { at: a }) => at == a,
        _ => false,
    }
}

fn p_source_from(s: &[char], pos: usize) -> (step: Step<SourceFrom>)
    requires
        pos <= s@.len(),
    ensures
        same_source_from(step, spec_source_from(s@, pos as int)),
        bounded(step, pos, s@.len()),
    decreases s@.len() - pos, 1nat,
{
    let a = if at_char(s, pos, '(') {
        let first = skip_spaces(s, pos + 1);
        match p_select(s, first) {
            Step::Done(value, next) => {
                let close = skip_spaces(s, next);
                if at_char(s, close, ')') {
                    return Step::Done(SourceFrom::SubQuery(Box::new(value)), close + 1);
                } else {
                    close
                }
            },
            Step::Fatal(at) => {
                return Step::Fatal(at);
            },
            Step::Miss(at) => at,
        }
    } else {
        pos
    };
    match p_name(s, pos) {
        Step::Done(value, next) => Step::Done(SourceFrom::Named(value), next),
        Step::Fatal(at) => Step::Fatal(at),
        Step::Miss(b) => Step::Miss(later(a, b)),
    }
}

fn p_source(s: &[char], pos: usize) -> (step: Step<Source>)
    requires
        pos <= s@.len(),
    ensures
        same_source(step, g_source(s@, pos as int)),
        bounded(step, pos, s@.len()),
    decreases s@.len() - pos, 2nat,
{
    match p_source_from(s, pos) {
        Step::Done(from, next) => match p_alias(s, next) {
            Some((alias, end)) => Step::Done(Source { from, alias: Some(alias) }, end),
            None => Step::Done(Source { from, alias: None }, next),
        },
        Step::Fatal(at) => Step::Fatal(at),
        Step::Miss(at) => Step::Miss(at),
    }
}

fn p_select(s: &[char], pos: usize) -> (step: Step<Select>)
    requires
        pos <= s@.len(),
    ensures
        same_select(step, g_select(s@, pos as int)),
        bounded(step, pos, s@.len()),
    decreases s@.len() - pos, 3nat,
{
    proof {
        reveal_strlit("select");
        reveal_strlit("from");
        assert("select"@ =~= seq!['s', 'e', 'l', 'e', 'c', 't']);
        assert("from"@ =~= seq!['f', 'r', 'o', 'm']);
    }
    if !at_word(s, pos, "select") {
        return Step::Miss(pos);
    }
    let (fields, next) = match projection(s, pos + 6) {
        Step::Done(fields, next) => (fields, next),
        Step::Fatal(at) => {
            return Step::Fatal(at);
        },
        Step::Miss(at) => {
            return Step::Miss(at);
        },
    };
    if !at_word(s, next, "from") {
        return Step::Miss(next);
    }
    let first = skip_spaces(s, next + 4);
    let (from, after_source) = match p_source(s, first) {
        Step::Done(from, end) => (from, end),
        Step::Fatal(at) => {
            return Step::Fatal(at);
        },
        Step::Miss(at) => {
            return Step::Miss(at);
        },
    };
    clauses(s, skip_spaces(s, after_source), fields, from)
}

/// The optional clauses of a query, behind its projection and its source.
fn clauses(s: &[char], pos: usize, projection: Vec<Expr>, source: Source) -> (step: Step<Select>)
    requires
        pos <= s@.len(),
    ensures
        same_select(step, g_clauses(s@, pos as int, expr_views(projection@), source@)),
        bounded(step, pos, s@.len()),
{
    proof {
        reveal(g_clauses);
        reveal_strlit("where");
        reveal_strlit("having");
        assert("where"@ =~= seq!['w', 'h', 'e', 'r', 'e']);
        assert("having"@ =~= seq!['h', 'a', 'v', 'i', 'n', 'g']);
    }
    let (where_clause, a) = match clause(s, skip_spaces(s, pos), "where") {
        Step::Done(value, end) => (Some(value), skip_spaces(s, end)),
        Step::Fatal(at) => {
            return Step::Fatal(at);
        },
        Step::Miss(_) => (None, pos),
    };
    let (group_clause, b) = match p_group_by(s, skip_spaces(s, a)) {
        Step::Done(exprs, end) => (Some(GroupBy { exprs }), skip_spaces(s, end)),
        Step::Fatal(at) => {
            return Step::Fatal(at);
        },
        Step::Miss(_) => (None, a),
    };
    let (having_clause, c) = match clause(s, skip_spaces(s, b), "having") {
        Step::Done(value, end) => (Some(value), skip_spaces(s, end)),
        Step::Fatal(at) => {
            return Step::Fatal(at);
        },
        Step::Miss(_) => (None, b),
    };
    let (window, d) = match p_window(s, skip_spaces(s, c)) {
        Step::Done(value, end) => (Some(value), skip_spaces(s, end)),
        Step::Fatal(at) => {
            return Step::Fatal(at);
        },
        Step::Miss(_) => (None, c),
    };
    Step::Done(Select { projection, source, where_clause, having_clause, group_clause, window }, d)
}

/// What a production that was asked to read a whole input hands back: what
/// is left of the input and the value, where the grammar is done; the
/// furthest place reached and the production's name, where it is not.
spec fn outcome<T>(
    result: Result<(&str, T), ParseError>,
    input: Seq<char>,
    step: Step<T>,
    context: Production,
) -> bool {
    match step {
        Step::Done(value, next) => result matches Ok((rest, v)) && v == value && rest@ == input.skip(
            next as int,
        ),
        Step::Miss(at) => result matches Err(e) && e == (ParseError { offset: at, context }),
        Step::Fatal(at) => result matches Err(e) && e == (ParseError { offset: at, context }),
    }
}

/// What is left of an input behind what a production read, or the error
/// that names the production.
fn finish<'a, T>(input: &'a str, length: usize, step: Step<T>, context: Production) -> (result:
    Result<(&'a str, T), ParseError>)
    requires
        length == input@.len(),
        bounded(step, 0, input@.len()),
    ensures
        outcome(result, input@, step, context),
{
    match step {
        Step::Done(value, next) => {
            let rest = input.substring_char(next, length);
            assert(rest@ =~= input@.skip(next as int));
            Ok((rest, value))
        },
        Step::Miss(at) => Err(ParseError { offset: at, context }),
        Step::Fatal(at) => Err(ParseError { offset: at, context }),
    }
}

/// What a production that is asked for at the front of an input hands
/// back: the value that the grammar reads there, and what is left of the
/// input behind it; or, where the grammar reads nothing, the furthest place
/// reached and the name of the production.
pub open spec fn reads<T>(
    result: Result<(&str, T), ParseError>,
    input: Seq<char>,
    parsed: Parsed<T>,
    context: Production,
) -> bool {
    match parsed {
        Parsed::Done { value, next } => result matches Ok((rest, v)) && v == value && rest@
            == input.skip(next),
        Parsed::Miss { at } => result matches Err(e) && e.offset == at && e.context == context,
        Parsed::Fatal { at } => result matches Err(e) && e.offset == at && e.context == context,
    }
}

/// [`reads`], for a production whose value is a text.
pub open spec fn reads_text(
    result: Result<(&str, String), ParseError>,
    input: Seq<char>,
    parsed: Parsed<Seq<char>>,
    context: Production,
) -> bool {
    match parsed {
        Parsed::Done { value, next } => result matches Ok((rest, v)) && v@ == value && rest@
            == input.skip(next),
        Parsed::Miss { at } => result matches Err(e) && e.offset == at && e.context == context,
        Parsed::Fatal { at } => result matches Err(e) && e.offset == at && e.context == context,
    }
}

/// [`reads`], for a production whose value is a literal.
pub open spec fn reads_literal(
    result: Result<(&str, Literal), ParseError>,
    input: Seq<char>,
    parsed: Parsed<LiteralView>,
    context: Production,
) -> bool {
    match parsed {
        Parsed::Done { value, next } => result matches Ok((rest, v)) && v@ == value && rest@
            == input.skip(next),
        Parsed::Miss { at } => result matches Err(e) && e.offset == at && e.context == context,
        Parsed::Fatal { at } => result matches Err(e) && e.offset == at && e.context == context,
    }
}

/// [`reads`], for a production whose value is an expression.
pub open spec fn reads_expr(
    result: Result<(&str, Expr), ParseError>,
    input: Seq<char>,
    parsed: Parsed<ExprView>,
    context: Production,
) -> bool {
    match parsed {
        Parsed::Done { value, next } => result matches Ok((rest, v)) && v@ == value && rest@
            == input.skip(next),
        Parsed::Miss { at } => result matches Err(e) && e.offset == at && e.context == context,
        Parsed::Fatal { at } => result matches Err(e) && e.offset == at && e.context == context,
    }
}

/// [`reads`], for a production whose value is a source.
pub open spec fn reads_source(
    result: Result<(&str, Source), ParseError>,
    input: Seq<char>,
    parsed: Parsed<SourceView>,
    context: Production,
) -> bool {
    match parsed {
        Parsed::Done { value, next } => result matches Ok((rest, v)) && v@ == value && rest@
            == input.skip(next),
        Parsed::Miss { at } => result matches Err(e) && e.offset == at && e.context == context,
        Parsed::Fatal { at } => result matches Err(e) && e.offset == at && e.context == context,
    }
}

/// [`reads`], for a production whose value is a query.
pub open spec fn reads_select(
    result: Result<(&str, Select), ParseError>,
    input: Seq<char>,
    parsed: Parsed<SelectView>,
    context: Production,
) -> bool {
    match parsed {
        Parsed::Done { value, next } => result matches Ok((rest, v)) && v@ == value && rest@
            == input.skip(next),
        Parsed::Miss { at } => result matches Err(e) && e.offset == at && e.context == context,
        Parsed::Fatal { at } => result matches Err(e) && e.offset == at && e.context == context,
    }
}

/// White space: blanks, tabs and line ends. It may be empty.
pub fn sp(input: &str) -> (result: Result<(&str, ()), ParseError>)
    ensures
        result matches Ok((rest, _)) && rest@ == input@.skip(spaces_end(input@, 0)),
{
    let s = chars_of(input);
    let end = skip_spaces(s.as_slice(), 0);
    let rest = input.substring_char(end, s.len());
    assert(rest@ =~= input@.skip(end as int));
    Ok((rest, ()))
}

/// An identifier at the front of the input.
pub fn ident(input: &str) -> (result: Result<(&str, &str), ParseError>)
    ensures
        match g_ident(input@, 0) {
            Parsed::Done { value, next } => result matches Ok((rest, name)) && name@ == value
                && rest@ == input@.skip(next),
            Parsed::Miss { at } => result matches Err(e) && e == (ParseError {
                offset: at as usize,
                context: Production::Ident,
            }),
            Parsed::Fatal { at } => false,
        },
{
    let s = chars_of(input);
    match p_ident(s.as_slice(), 0) {
        Step::Done(_, next) => {
            let name = input.substring_char(0, next);
            let rest = input.substring_char(next, s.len());
            assert(rest@ =~= input@.skip(next as int));
            Ok((rest, name))
        },
        Step::Miss(at) => Err(ParseError { offset: at, context: Production::Ident }),
        Step::Fatal(at) => Err(ParseError { offset: at, context: Production::Ident }),
    }
}

/// `true` or `false`, in any letter case, at the front of the input.
pub fn boolean(input: &str) -> (result: Result<(&str, bool), ParseError>)
    ensures
        reads(result, input@, g_boolean(input@, 0), Production::Boolean),
{
    let s = chars_of(input);
    finish(input, s.len(), p_boolean(s.as_slice(), 0), Production::Boolean)
}

/// An integer at the front of the input.
pub fn integer(input: &str) -> (result: Result<(&str, i64), ParseError>)
    ensures
        reads(result, input@, g_integer(input@, 0), Production::Integer),
{
    let s = chars_of(input);
    finish(input, s.len(), p_integer(s.as_slice(), 0), Production::Integer)
}

/// A floating-point literal at the front of the input, as it is written.
pub fn float(input: &str) -> (result: Result<(&str, String), ParseError>)
    ensures
        reads_text(result, input@, g_float(input@, 0), Production::Float),
{
    let s = chars_of(input);
    finish(input, s.len(), p_float(s.as_slice(), 0), Production::Float)
}

/// A quoted string at the front of the input; its text without the quotes
/// and with the escapes resolved.
pub fn string(input: &str) -> (result: Result<(&str, String), ParseError>)
    ensures
        reads_text(result, input@, g_string(input@, 0), Production::String),
{
    let s = chars_of(input);
    finish(input, s.len(), p_string(s.as_slice(), 0), Production::String)
}

/// A literal at the front of the input.
pub fn literal(input: &str) -> (result: Result<(&str, Literal), ParseError>)
    ensures
        reads_literal(result, input@, g_literal(input@, 0), Production::Literal),
{
    let s = chars_of(input);
    finish(input, s.len(), p_literal(s.as_slice(), 0), Production::Literal)
}

/// A name at the front of the input: a quoted string or an identifier.
pub fn name(input: &str) -> (result: Result<(&str, String), ParseError>)
    ensures
        reads_text(result, input@, g_name(input@, 0), Production::Name),
{
    let s = chars_of(input);
    finish(input, s.len(), p_name(s.as_slice(), 0), Production::Name)
}

/// A column at the front of the input.
pub fn column(input: &str) -> (result: Result<(&str, Expr), ParseError>)
    ensures
        reads_expr(result, input@, g_column(input@, 0), Production::Input),
{
    let s = chars_of(input);
    finish(input, s.len(), p_column(s.as_slice(), 0), Production::Input)
}

/// An expression at the front of the input.
pub fn expr(input: &str) -> (result: Result<(&str, Expr), ParseError>)
    ensures
        reads_expr(result, input@, g_expr(input@, 0), Production::Expr),
{
    let s = chars_of(input);
    finish(input, s.len(), p_expr(s.as_slice(), 0), Production::Expr)
}

/// A function call at the front of the input.
pub fn expr_call(input: &str) -> (result: Result<(&str, Expr), ParseError>)
    ensures
        reads_expr(result, input@, g_call(input@, 0), Production::ExprCall),
{
    let s = chars_of(input);
    finish(input, s.len(), p_call(s.as_slice(), 0), Production::ExprCall)
}

/// A source at the front of the input.
pub fn source(input: &str) -> (result: Result<(&str, Source), ParseError>)
    ensures
        reads_source(result, input@, g_source(input@, 0), Production::Source),
{
    let s = chars_of(input);
    finish(input, s.len(), p_source(s.as_slice(), 0), Production::Source)
}

/// A window clause at the front of the input.
pub fn window(input: &str) -> (result: Result<(&str, Window), ParseError>)
    ensures
        reads(result, input@, g_window(input@, 0), Production::Window),
{
    let s = chars_of(input);
    finish(input, s.len(), p_window(s.as_slice(), 0), Production::Window)
}

/// A query at the front of the input.
pub fn select(input: &str) -> (result: Result<(&str, Select), ParseError>)
    ensures
        reads_select(result, input@, g_select(input@, 0), Production::Select),
{
    let s = chars_of(input);
    finish(input, s.len(), p_select(s.as_slice(), 0), Production::Select)
}

impl Production {
    /// The name of the production.
    pub open spec fn spec_label(self) -> Seq<char> {
        match self {
            Production::Ident => "ident"@,
            Production::Boolean => "boolean"@,
            Production::Integer => "integer"@,
            Production::Float => "float"@,
            Production::String => "string"@,
            Production::Literal => "literal"@,
            Production::Name => "name"@,
            Production::Input => "input"@,
            Production::Expr => "expr"@,
            Production::ExprCall => "expr_call"@,
            Production::Source => "source"@,
            Production::Window => "window"@,
            Production::Select => "select"@,
        }
    }

    /// The name of the production.
    pub fn label(&self) -> (label: &'static str)
        ensures
            label@ == self.spec_label(),
    {
        match self {
            Production::Ident => "ident",
            Production::Boolean => "boolean",
            Production::Integer => "integer",
            Production::Float => "float",
            Production::String => "string",
            Production::Literal => "literal",
            Production::Name => "name",
            Production::Input => "input",
            Production::Expr => "expr",
            Production::ExprCall => "expr_call",
            Production::Source => "source",
            Production::Window => "window",
            Production::Select => "select",
        }
    }
}

/// What the parser makes of a whole query text: the query, where the
/// grammar reads one and nothing but white space stands before or behind
/// it; otherwise the furthest place reached.
pub open spec fn parsed_query(input: Seq<char>) -> Result<SelectView, int> {
    match g_select(input, spaces_end(input, 0)) {
        Parsed::Done { value, next } => if next == input.len() {
            Ok(value)
        } else {
            Err(next)
        },
        Parsed::Miss { at } => Err(at),
        Parsed::Fatal { at } => Err(at),
    }
}

/// Parses a query text as a whole.
pub fn parse(input: &str) -> (result: Result<Select, ParseError>)
    ensures
        match parsed_query(input@) {
            Ok(query) => result matches Ok(q) && q@ == query,
            Err(at) => result matches Err(e) && e.offset == at && e.context == Production::Select,
        },
{
    let s = chars_of(input);
    let first = skip_spaces(s.as_slice(), 0);
    match p_select(s.as_slice(), first) {
        Step::Done(query, next) => {
            if next == s.len() {
                Ok(query)
            } else {
                Err(ParseError { offset: next, context: Production::Select })
            }
        },
        Step::Miss(at) => Err(ParseError { offset: at, context: Production::Select }),
        Step::Fatal(at) => Err(ParseError { offset: at, context: Production::Select }),
    }
}

} // verus!
