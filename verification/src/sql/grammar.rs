//! The grammar of the query language, as functions from a text and a place
//! in it to what is read there.
//!
//! A production reads from its place on and is done with a value and the
//! place behind what it read, or misses. Alternatives are tried in order,
//! and the first that is done wins. A miss names the furthest place at
//! which what was tried could not go on. A production that has read a
//! floating-point exponent mark without digits behind it fails for good:
//! no alternative is tried after that.

use vstd::prelude::*;
use crate::expr::BinaryOperator;
use crate::expr::ExprView;
use crate::expr::LiteralView;
use crate::expr::UnaryOperator;
use crate::text::decimal;
use crate::text::digits_end;
use crate::text::is_digit;
use crate::sql::ast::SelectView;
use crate::sql::ast::SourceFromView;
use crate::sql::ast::SourceView;
use crate::window::Period;
use crate::window::Window;

verus! {

/// What a production reads at a place.
pub enum Parsed<V> {
    /// The value, and the place behind what was read.
    Done { value: V, next: int },
    /// Nothing; `at` is the furthest place that an attempt reached.
    Miss { at: int },
    /// Nothing, and no alternative may be tried.
    Fatal { at: int },
}

pub open spec fn later_of(a: int, b: int) -> int {
    if a >= b {
        a
    } else {
        b
    }
}

pub open spec fn is_space(c: char) -> bool {
    c == ' ' || c == '\t' || c == '\n' || c == '\r'
}

pub open spec fn is_alpha(c: char) -> bool {
    ('a' <= c && c <= 'z') || ('A' <= c && c <= 'Z')
}

/// Whether a character can continue an identifier.
pub open spec fn is_ident_part(c: char) -> bool {
    is_alpha(c) || is_digit(c) || c == '_'
}

/// The lower-case form of an ASCII letter; any other character itself.
pub open spec fn lower(c: char) -> char {
    if 'A' <= c && c <= 'Z' {
        ((c as u8) + 32) as char
    } else {
        c
    }
}

/// The place behind the white space at `pos`.
pub open spec fn spaces_end(s: Seq<char>, pos: int) -> int
    decreases s.len() - pos,
{
    if 0 <= pos < s.len() && is_space(s[pos]) {
        spaces_end(s, pos + 1)
    } else {
        pos
    }
}

/// The place behind the letters, digits and underscores at `pos`.
pub open spec fn ident_end(s: Seq<char>, pos: int) -> int
    decreases s.len() - pos,
{
    if 0 <= pos < s.len() && is_ident_part(s[pos]) {
        ident_end(s, pos + 1)
    } else {
        pos
    }
}

/// Whether the text holds the character `c` at `pos`.
pub open spec fn has_char(s: Seq<char>, pos: int, c: char) -> bool {
    0 <= pos < s.len() && s[pos] == c
}

/// Whether the text holds `word` at `pos`, letter case aside. `word` is
/// written in lower case.
pub open spec fn has_word(s: Seq<char>, pos: int, word: Seq<char>) -> bool {
    &&& 0 <= pos
    &&& pos + word.len() <= s.len()
    &&& forall|i: int| 0 <= i < word.len() ==> lower(#[trigger] s[pos + i]) == word[i]
}

/// White space: always done.
pub open spec fn g_sp(s: Seq<char>, pos: int) -> Parsed<()> {
    Parsed::Done { value: (), next: spaces_end(s, pos) }
}

/// An identifier: a letter, `_` or `@`, then letters, digits and `_`.
pub open spec fn g_ident(s: Seq<char>, pos: int) -> Parsed<Seq<char>> {
    if 0 <= pos < s.len() && (is_alpha(s[pos]) || s[pos] == '_' || s[pos] == '@') {
        let end = ident_end(s, pos + 1);
        Parsed::Done { value: s.subrange(pos, end), next: end }
    } else {
        Parsed::Miss { at: pos }
    }
}

/// `true` or `false`, in any letter case.
pub open spec fn g_boolean(s: Seq<char>, pos: int) -> Parsed<bool> {
    if has_word(s, pos, seq!['t', 'r', 'u', 'e']) {
        Parsed::Done { value: true, next: pos + 4 }
    } else if has_word(s, pos, seq!['f', 'a', 'l', 's', 'e']) {
        Parsed::Done { value: false, next: pos + 5 }
    } else {
        Parsed::Miss { at: pos }
    }
}

/// An integer: an optional `-`, then digits. A number that does not fit in
/// 64 bits is no integer.
pub open spec fn g_integer(s: Seq<char>, pos: int) -> Parsed<i64> {
    let negative = has_char(s, pos, '-');
    let first = if negative {
        pos + 1
    } else {
        pos
    };
    let end = digits_end(s, first);
    if end == first {
        Parsed::Miss { at: first }
    } else {
        let value = if negative {
            -decimal(s, first, end)
        } else {
            decimal(s, first, end)
        };
        if i64::MIN <= value <= i64::MAX {
            Parsed::Done { value: value as i64, next: end }
        } else {
            Parsed::Miss { at: pos }
        }
    }
}

/// The place behind the mantissa of a floating-point literal whose first
/// digit or point stands at `first`: digits, a point and maybe digits; or a
/// point and digits.
pub open spec fn mantissa_end(s: Seq<char>, first: int) -> Option<int> {
    let whole = digits_end(s, first);
    if whole > first {
        if has_char(s, whole, '.') {
            Some(digits_end(s, whole + 1))
        } else {
            None
        }
    } else if has_char(s, first, '.') && digits_end(s, first + 1) > first + 1 {
        Some(digits_end(s, first + 1))
    } else {
        None
    }
}

/// A floating-point literal, as it is written: an optional `-`, a mantissa
/// with a decimal point, and an optional exponent. An exponent mark
/// without digits behind it fails for good.
pub open spec fn g_float(s: Seq<char>, pos: int) -> Parsed<Seq<char>> {
    let first = if has_char(s, pos, '-') {
        pos + 1
    } else {
        pos
    };
    match mantissa_end(s, first) {
        None => Parsed::Miss { at: first },
        Some(mantissa) => {
            if has_char(s, mantissa, 'e') || has_char(s, mantissa, 'E') {
                let digits = if has_char(s, mantissa + 1, '+') || has_char(s, mantissa + 1, '-') {
                    mantissa + 2
                } else {
                    mantissa + 1
                };
                let end = digits_end(s, digits);
                if end == digits {
                    Parsed::Fatal { at: digits }
                } else {
                    Parsed::Done { value: s.subrange(pos, end), next: end }
                }
            } else {
                Parsed::Done { value: s.subrange(pos, mantissa), next: mantissa }
            }
        },
    }
}

/// The character that an escape stands for: the one behind the backslash,
/// but for `b`, `r`, `n`, `t`, `0` and `Z`.
pub open spec fn unescaped(c: char) -> char {
    if c == 'b' {
        '\x7f'
    } else if c == 'r' {
        '\r'
    } else if c == 'n' {
        '\n'
    } else if c == 't' {
        '\t'
    } else if c == '0' {
        '\0'
    } else if c == 'Z' {
        '\x1a'
    } else {
        c
    }
}

/// The text of a quoted string from `pos` on, behind what `read` holds of
/// it, and the place of its closing quote: plain characters stand for
/// themselves, a doubled quote for one quote, an escape for its character.
pub open spec fn string_body(s: Seq<char>, pos: int, quote: char, read: Seq<char>) -> (
    Seq<char>,
    int,
)
    decreases s.len() - pos,
{
    if !(0 <= pos < s.len()) {
        (read, pos)
    } else if s[pos] != '\\' && s[pos] != quote {
        string_body(s, pos + 1, quote, read.push(s[pos]))
    } else if s[pos] == quote {
        if has_char(s, pos + 1, quote) {
            string_body(s, pos + 2, quote, read.push(quote))
        } else {
            (read, pos)
        }
    } else if pos + 1 < s.len() {
        string_body(s, pos + 2, quote, read.push(unescaped(s[pos + 1])))
    } else {
        (read, pos)
    }
}

/// A string in quotes of the kind `quote`.
pub open spec fn g_quoted(s: Seq<char>, pos: int, quote: char) -> Parsed<Seq<char>> {
    if has_char(s, pos, quote) {
        let (text, end) = string_body(s, pos + 1, quote, Seq::empty());
        if has_char(s, end, quote) {
            Parsed::Done { value: text, next: end + 1 }
        } else {
            Parsed::Miss { at: end }
        }
    } else {
        Parsed::Miss { at: pos }
    }
}

/// A string in single or in double quotes.
pub open spec fn g_string(s: Seq<char>, pos: int) -> Parsed<Seq<char>> {
    match g_quoted(s, pos, '\'') {
        Parsed::Miss { at: single } => match g_quoted(s, pos, '"') {
            Parsed::Miss { at: double } => Parsed::Miss { at: later_of(single, double) },
            other => other,
        },
        other => other,
    }
}

/// A literal: a boolean, a floating-point number, an integer or a string,
/// tried in that order.
pub open spec fn g_literal(s: Seq<char>, pos: int) -> Parsed<LiteralView> {
    match g_boolean(s, pos) {
        Parsed::Done { value, next } => Parsed::Done { value: LiteralView::Boolean(value), next },
        Parsed::Fatal { at } => Parsed::Fatal { at },
        Parsed::Miss { at: a } => match g_float(s, pos) {
            Parsed::Done { value, next } => Parsed::Done { value: LiteralView::Float(value), next },
            Parsed::Fatal { at } => Parsed::Fatal { at },
            Parsed::Miss { at: b } => match g_integer(s, pos) {
                Parsed::Done { value, next } => Parsed::Done {
                    value: LiteralView::Int(value),
                    next,
                },
                Parsed::Fatal { at } => Parsed::Fatal { at },
                Parsed::Miss { at: c } => match g_string(s, pos) {
                    Parsed::Done { value, next } => Parsed::Done {
                        value: LiteralView::String(value),
                        next,
                    },
                    Parsed::Fatal { at } => Parsed::Fatal { at },
                    Parsed::Miss { at: d } => Parsed::Miss {
                        at: later_of(later_of(a, b), later_of(c, d)),
                    },
                },
            },
        },
    }
}

/// A name: a string or an identifier.
pub open spec fn g_name(s: Seq<char>, pos: int) -> Parsed<Seq<char>> {
    match g_string(s, pos) {
        Parsed::Miss { at: a } => match g_ident(s, pos) {
            Parsed::Miss { at: b } => Parsed::Miss { at: later_of(a, b) },
            other => other,
        },
        other => other,
    }
}

/// A column: a qualified name, a name, or `*`.
pub open spec fn g_column(s: Seq<char>, pos: int) -> Parsed<ExprView> {
    match g_name(s, pos) {
        Parsed::Done { value: first, next } => {
            let qualified = if has_char(s, next, '.') {
                g_name(s, next + 1)
            } else {
                Parsed::Miss { at: next }
            };
            match qualified {
                Parsed::Done { value: name, next: end } => Parsed::Done {
                    value: ExprView::Column { qualifier: Some(first), name },
                    next: end,
                },
                Parsed::Fatal { at } => Parsed::Fatal { at },
                Parsed::Miss { at } => Parsed::Done {
                    value: ExprView::Column { qualifier: None, name: first },
                    next,
                },
            }
        },
        Parsed::Fatal { at } => Parsed::Fatal { at },
        Parsed::Miss { at } => if has_char(s, pos, '*') {
            Parsed::Done { value: ExprView::Wildcard { qualifier: None }, next: pos + 1 }
        } else {
            Parsed::Miss { at }
        },
    }
}

/// Whether a production that started at `pos` may go on at `next`.
pub open spec fn onward(s: Seq<char>, pos: int, next: int) -> bool {
    pos <= next <= s.len()
}

/// The comparison operator at `pos` and its length; the longest is taken.
pub open spec fn comparison_at(s: Seq<char>, pos: int) -> Option<(BinaryOperator, int)> {
    if has_char(s, pos, '<') && has_char(s, pos + 1, '=') {
        Some((BinaryOperator::LtEq, 2))
    } else if has_char(s, pos, '<') && has_char(s, pos + 1, '>') {
        Some((BinaryOperator::NotEq, 2))
    } else if has_char(s, pos, '<') {
        Some((BinaryOperator::Lt, 1))
    } else if has_char(s, pos, '>') && has_char(s, pos + 1, '=') {
        Some((BinaryOperator::GtEq, 2))
    } else if has_char(s, pos, '>') {
        Some((BinaryOperator::Gt, 1))
    } else if has_char(s, pos, '=') {
        Some((BinaryOperator::Eq, 1))
    } else if has_char(s, pos, '!') && has_char(s, pos + 1, '=') {
        Some((BinaryOperator::NotEq, 2))
    } else {
        None
    }
}

/// The operator of the tier `tier` at `pos` and its length. The tiers,
/// loosest first: `or`; `and`; comparisons; `+` and `-`; `*` and `/`.
pub open spec fn operator_at(s: Seq<char>, pos: int, tier: int) -> Option<(BinaryOperator, int)> {
    if tier == 0 {
        if has_word(s, pos, seq!['o', 'r']) {
            Some((BinaryOperator::Or, 2))
        } else {
            None
        }
    } else if tier == 1 {
        if has_word(s, pos, seq!['a', 'n', 'd']) {
            Some((BinaryOperator::And, 3))
        } else {
            None
        }
    } else if tier == 2 {
        comparison_at(s, pos)
    } else if tier == 3 {
        if has_char(s, pos, '+') {
            Some((BinaryOperator::Plus, 1))
        } else if has_char(s, pos, '-') {
            Some((BinaryOperator::Minus, 1))
        } else {
            None
        }
    } else {
        if has_char(s, pos, '*') {
            Some((BinaryOperator::Multiply, 1))
        } else if has_char(s, pos, '/') {
            Some((BinaryOperator::Divide, 1))
        } else {
            None
        }
    }
}

/// The unary operator at `pos` and its length.
pub open spec fn unary_at(s: Seq<char>, pos: int) -> Option<(UnaryOperator, int)> {
    if has_word(s, pos, seq!['n', 'o', 't']) {
        Some((UnaryOperator::Not, 3))
    } else if has_char(s, pos, '-') {
        Some((UnaryOperator::Neg, 1))
    } else {
        None
    }
}

/// An expression.
pub open spec fn g_expr(s: Seq<char>, pos: int) -> Parsed<ExprView>
    decreases s.len() - pos, 20nat,
{
    g_tier(s, pos, 0)
}

/// An expression of the tier `tier` or of a tighter one: operands of the
/// next tier, joined from the left by operators of this tier. Behind the
/// tightest tier stand the primitives.
pub open spec fn g_tier(s: Seq<char>, pos: int, tier: int) -> Parsed<ExprView>
    decreases s.len() - pos, 15 - 2 * later_of(0, if tier > 5 { 5 } else { tier }),
{
    if tier < 0 || tier > 4 {
        g_primitive(s, pos)
    } else {
        match g_tier(s, pos, tier + 1) {
            Parsed::Done { value, next } => if onward(s, pos, next) {
                g_chain(s, next, tier, value)
            } else {
                Parsed::Miss { at: pos }
            },
            other => other,
        }
    }
}

/// What follows the operand `lhs` of the tier `tier`: operators of the
/// tier, each with the operand behind it. It ends before the first
/// operator that has no operand behind it.
pub open spec fn g_chain(s: Seq<char>, pos: int, tier: int, lhs: ExprView) -> Parsed<ExprView>
    decreases s.len() - pos, 14 - 2 * later_of(0, if tier > 5 { 5 } else { tier }),
{
    if tier < 0 || tier > 4 {
        Parsed::Done { value: lhs, next: pos }
    } else {
        match operator_at(s, pos, tier) {
            Some((op, len)) => if len > 0 && onward(s, pos, pos + len) {
                match g_tier(s, pos + len, tier + 1) {
                    Parsed::Done { value: rhs, next } => if onward(s, pos + len, next) {
                        g_chain(
                            s,
                            next,
                            tier,
                            ExprView::Binary { op, lhs: Box::new(lhs), rhs: Box::new(rhs) },
                        )
                    } else {
                        Parsed::Done { value: lhs, next: pos }
                    },
                    Parsed::Fatal { at } => Parsed::Fatal { at },
                    Parsed::Miss { at } => Parsed::Done { value: lhs, next: pos },
                }
            } else {
                Parsed::Done { value: lhs, next: pos }
            },
            None => Parsed::Done { value: lhs, next: pos },
        }
    }
}

/// An expression between white space.
pub open spec fn g_item(s: Seq<char>, pos: int) -> Parsed<ExprView>
    decreases s.len() - pos, 21nat,
{
    let first = spaces_end(s, pos);
    if onward(s, pos, first) {
        match g_expr(s, first) {
            Parsed::Done { value, next } => Parsed::Done { value, next: spaces_end(s, next) },
            other => other,
        }
    } else {
        Parsed::Miss { at: pos }
    }
}

/// What follows the items `items` of a list: commas, each with the item
/// behind it. It ends before the first comma that has no item behind it.
pub open spec fn g_items(s: Seq<char>, pos: int, items: Seq<ExprView>) -> Parsed<Seq<ExprView>>
    decreases s.len() - pos, 22nat,
{
    if has_char(s, pos, ',') {
        match g_item(s, pos + 1) {
            Parsed::Done { value, next } => if onward(s, pos + 1, next) {
                g_items(s, next, items.push(value))
            } else {
                Parsed::Done { value: items, next: pos }
            },
            Parsed::Fatal { at } => Parsed::Fatal { at },
            Parsed::Miss { at } => Parsed::Done { value: items, next: pos },
        }
    } else {
        Parsed::Done { value: items, next: pos }
    }
}

/// A list of expressions between commas; `needed` says whether it must
/// have one at least.
pub open spec fn g_list(s: Seq<char>, pos: int, needed: bool) -> Parsed<Seq<ExprView>>
    decreases s.len() - pos, 23nat,
{
    match g_item(s, pos) {
        Parsed::Done { value, next } => if onward(s, pos, next) {
            g_items(s, next, seq![value])
        } else {
            Parsed::Miss { at: pos }
        },
        Parsed::Fatal { at } => Parsed::Fatal { at },
        Parsed::Miss { at } => if needed {
            Parsed::Miss { at }
        } else {
            Parsed::Done { value: Seq::empty(), next: pos }
        },
    }
}

/// An expression in parentheses.
pub open spec fn g_parens(s: Seq<char>, pos: int) -> Parsed<ExprView>
    decreases s.len() - pos, 1nat,
{
    if has_char(s, pos, '(') {
        let first = spaces_end(s, pos + 1);
        if onward(s, pos + 1, first) {
            match g_expr(s, first) {
                Parsed::Done { value, next } => {
                    let close = spaces_end(s, next);
                    if has_char(s, close, ')') {
                        Parsed::Done { value, next: close + 1 }
                    } else {
                        Parsed::Miss { at: close }
                    }
                },
                other => other,
            }
        } else {
            Parsed::Miss { at: pos }
        }
    } else {
        Parsed::Miss { at: pos }
    }
}

/// A unary operator and its operand, which is one primitive: the operator
/// binds more tightly than every binary operator, so `-a + b` adds `b` to
/// the negation of `a`.
pub open spec fn g_unary(s: Seq<char>, pos: int) -> Parsed<ExprView>
    decreases s.len() - pos, 1nat,
{
    match unary_at(s, pos) {
        Some((op, len)) => {
            let first = spaces_end(s, pos + len);
            if len > 0 && onward(s, pos + len, first) {
                match g_primitive(s, first) {
                    Parsed::Done { value, next } => Parsed::Done {
                        value: ExprView::Unary { op, expr: Box::new(value) },
                        next,
                    },
                    other => other,
                }
            } else {
                Parsed::Miss { at: pos }
            }
        },
        None => Parsed::Miss { at: pos },
    }
}

/// The name of a called function: an identifier, maybe behind a namespace
/// and a point.
pub open spec fn g_function(s: Seq<char>, pos: int) -> Parsed<(Option<Seq<char>>, Seq<char>)> {
    match g_ident(s, pos) {
        Parsed::Done { value: first, next } => {
            let second = if has_char(s, next, '.') {
                g_ident(s, next + 1)
            } else {
                Parsed::Miss { at: next }
            };
            match second {
                Parsed::Done { value: name, next: end } => Parsed::Done {
                    value: (Some(first), name),
                    next: end,
                },
                _ => Parsed::Done { value: (None, first), next },
            }
        },
        Parsed::Fatal { at } => Parsed::Fatal { at },
        Parsed::Miss { at } => Parsed::Miss { at },
    }
}

/// A function call: the function's name, and its arguments in parentheses.
pub open spec fn g_call(s: Seq<char>, pos: int) -> Parsed<ExprView>
    decreases s.len() - pos, 1nat,
{
    match g_function(s, pos) {
        Parsed::Done { value: (namespace, name), next } => {
            let open = spaces_end(s, next);
            if has_char(s, open, '(') && pos < open + 1 {
                let first = spaces_end(s, open + 1);
                if onward(s, open + 1, first) {
                    match g_list(s, first, false) {
                        Parsed::Done { value: args, next: end } => {
                            let close = spaces_end(s, end);
                            if has_char(s, close, ')') {
                                Parsed::Done {
                                    value: ExprView::Call { namespace, name, args },
                                    next: close + 1,
                                }
                            } else {
                                Parsed::Miss { at: close }
                            }
                        },
                        Parsed::Fatal { at } => Parsed::Fatal { at },
                        Parsed::Miss { at } => Parsed::Miss { at },
                    }
                } else {
                    Parsed::Miss { at: pos }
                }
            } else {
                Parsed::Miss { at: open }
            }
        },
        Parsed::Fatal { at } => Parsed::Fatal { at },
        Parsed::Miss { at } => Parsed::Miss { at },
    }
}

/// A literal as an expression.
pub open spec fn g_literal_expr(s: Seq<char>, pos: int) -> Parsed<ExprView> {
    match g_literal(s, pos) {
        Parsed::Done { value, next } => Parsed::Done { value: ExprView::Literal(value), next },
        Parsed::Fatal { at } => Parsed::Fatal { at },
        Parsed::Miss { at } => Parsed::Miss { at },
    }
}

/// The first of two readings that is done or fails for good; where both
/// miss, a miss at the later of their places.
pub open spec fn either<V>(first: Parsed<V>, second: Parsed<V>) -> Parsed<V> {
    match first {
        Parsed::Miss { at: a } => match second {
            Parsed::Miss { at: b } => Parsed::Miss { at: later_of(a, b) },
            other => other,
        },
        other => other,
    }
}

/// A primitive between white space: an expression in parentheses, a unary
/// operation, a function call, a literal or a column, tried in that order.
pub open spec fn g_primitive(s: Seq<char>, pos: int) -> Parsed<ExprView>
    decreases s.len() - pos, 2nat,
{
    let first = spaces_end(s, pos);
    if onward(s, pos, first) {
        let found = either(
            g_parens(s, first),
            either(
                g_unary(s, first),
                either(g_call(s, first), either(g_literal_expr(s, first), g_column(s, first))),
            ),
        );
        match found {
            Parsed::Done { value, next } => Parsed::Done { value, next: spaces_end(s, next) },
            other => other,
        }
    } else {
        Parsed::Miss { at: pos }
    }
}

/// The expression that operators and operands make, joined from the left.
pub open spec fn folded(lhs: ExprView, rest: Seq<(BinaryOperator, ExprView)>) -> ExprView
    decreases rest.len(),
{
    if rest.len() == 0 {
        lhs
    } else {
        ExprView::Binary {
            op: rest.last().0,
            lhs: Box::new(folded(lhs, rest.drop_last())),
            rhs: Box::new(rest.last().1),
        }
    }
}

/// A field of a projection: an expression, maybe with `as` and a name
/// behind it.
pub open spec fn g_projection_field(s: Seq<char>, pos: int) -> Parsed<ExprView> {
    match g_expr(s, pos) {
        Parsed::Done { value, next } => {
            let word = spaces_end(s, next);
            let aliased = if has_word(s, word, seq!['a', 's']) {
                g_name(s, spaces_end(s, word + 2))
            } else {
                Parsed::Miss { at: word }
            };
            match aliased {
                Parsed::Done { value: alias, next: end } => Parsed::Done {
                    value: ExprView::Alias { expr: Box::new(value), alias },
                    next: end,
                },
                _ => Parsed::Done { value, next },
            }
        },
        other => other,
    }
}

/// A field of a projection between white space.
pub open spec fn g_projection_item(s: Seq<char>, pos: int) -> Parsed<ExprView> {
    match g_projection_field(s, spaces_end(s, pos)) {
        Parsed::Done { value, next } => Parsed::Done { value, next: spaces_end(s, next) },
        other => other,
    }
}

/// What follows the fields `fields` of a projection: commas, each with the
/// field behind it.
pub open spec fn g_projection_items(s: Seq<char>, pos: int, fields: Seq<ExprView>) -> Parsed<
    Seq<ExprView>,
>
    decreases s.len() - pos,
{
    if has_char(s, pos, ',') {
        match g_projection_item(s, pos + 1) {
            Parsed::Done { value, next } => if onward(s, pos + 1, next) {
                g_projection_items(s, next, fields.push(value))
            } else {
                Parsed::Done { value: fields, next: pos }
            },
            Parsed::Fatal { at } => Parsed::Fatal { at },
            Parsed::Miss { at } => Parsed::Done { value: fields, next: pos },
        }
    } else {
        Parsed::Done { value: fields, next: pos }
    }
}

/// A projection: one field at least, between commas.
pub open spec fn g_projection(s: Seq<char>, pos: int) -> Parsed<Seq<ExprView>> {
    match g_projection_item(s, pos) {
        Parsed::Done { value, next } => g_projection_items(s, next, seq![value]),
        Parsed::Fatal { at } => Parsed::Fatal { at },
        Parsed::Miss { at } => Parsed::Miss { at },
    }
}

/// `group by` and a list of expressions.
pub open spec fn g_group_by(s: Seq<char>, pos: int) -> Parsed<Seq<ExprView>> {
    if has_word(s, pos, seq!['g', 'r', 'o', 'u', 'p']) {
        let by = spaces_end(s, pos + 5);
        if has_word(s, by, seq!['b', 'y']) {
            g_list(s, spaces_end(s, by + 2), true)
        } else {
            Parsed::Miss { at: by }
        }
    } else {
        Parsed::Miss { at: pos }
    }
}

/// The number of milliseconds in the unit at `pos`, and the unit's
/// length: `s`, `ms` or `m`.
pub open spec fn unit_at(s: Seq<char>, pos: int) -> Option<(int, int)> {
    if has_word(s, pos, seq!['s']) {
        Some((1000, 1))
    } else if has_word(s, pos, seq!['m', 's']) {
        Some((1, 2))
    } else if has_word(s, pos, seq!['m']) {
        Some((60000, 1))
    } else {
        None
    }
}

/// A duration in milliseconds: an integer and a unit. A duration that does
/// not fit in 64 bits is none.
pub open spec fn g_duration(s: Seq<char>, pos: int) -> Parsed<i64> {
    match g_integer(s, pos) {
        Parsed::Done { value, next } => match unit_at(s, next) {
            Some((scale, len)) => if i64::MIN <= value * scale <= i64::MAX {
                Parsed::Done { value: (value * scale) as i64, next: next + len }
            } else {
                Parsed::Miss { at: pos }
            },
            None => Parsed::Miss { at: next },
        },
        Parsed::Fatal { at } => Parsed::Fatal { at },
        Parsed::Miss { at } => Parsed::Miss { at },
    }
}

/// The place behind white space, the character `c` and white space, where
/// `c` stands there.
pub open spec fn mark_end(s: Seq<char>, pos: int, c: char) -> Option<int> {
    let at = spaces_end(s, pos);
    if has_char(s, at, c) {
        Some(spaces_end(s, at + 1))
    } else {
        None
    }
}

pub open spec fn g_fixed(s: Seq<char>, pos: int) -> Parsed<Window> {
    if has_word(s, pos, seq!['f', 'i', 'x', 'e', 'd']) {
        match mark_end(s, pos + 5, '(') {
            Some(first) => match g_duration(s, first) {
                Parsed::Done { value: length, next } => {
                    let close = spaces_end(s, next);
                    if has_char(s, close, ')') {
                        Parsed::Done { value: Window::Fixed { length }, next: close + 1 }
                    } else {
                        Parsed::Miss { at: close }
                    }
                },
                Parsed::Fatal { at } => Parsed::Fatal { at },
                Parsed::Miss { at } => Parsed::Miss { at },
            },
            None => Parsed::Miss { at: spaces_end(s, pos + 5) },
        }
    } else {
        Parsed::Miss { at: pos }
    }
}

pub open spec fn g_sliding(s: Seq<char>, pos: int) -> Parsed<Window> {
    if has_word(s, pos, seq!['s', 'l', 'i', 'd', 'i', 'n', 'g']) {
        match mark_end(s, pos + 7, '(') {
            Some(first) => match g_duration(s, first) {
                Parsed::Done { value: length, next } => match mark_end(s, next, ',') {
                    Some(second) => match g_duration(s, second) {
                        Parsed::Done { value: interval, next: end } => {
                            let close = spaces_end(s, end);
                            if has_char(s, close, ')') {
                                Parsed::Done {
                                    value: Window::Sliding { length, interval },
                                    next: close + 1,
                                }
                            } else {
                                Parsed::Miss { at: close }
                            }
                        },
                        Parsed::Fatal { at } => Parsed::Fatal { at },
                        Parsed::Miss { at } => Parsed::Miss { at },
                    },
                    None => Parsed::Miss { at: spaces_end(s, next) },
                },
                Parsed::Fatal { at } => Parsed::Fatal { at },
                Parsed::Miss { at } => Parsed::Miss { at },
            },
            None => Parsed::Miss { at: spaces_end(s, pos + 7) },
        }
    } else {
        Parsed::Miss { at: pos }
    }
}

pub open spec fn g_period(s: Seq<char>, pos: int) -> Parsed<Window> {
    if has_word(s, pos, seq!['d', 'a', 'y']) {
        Parsed::Done { value: Window::Period { period: Period::Day }, next: pos + 3 }
    } else if has_word(s, pos, seq!['w', 'e', 'e', 'k']) {
        Parsed::Done { value: Window::Period { period: Period::Week }, next: pos + 4 }
    } else if has_word(s, pos, seq!['m', 'o', 'n', 't', 'h']) {
        Parsed::Done { value: Window::Period { period: Period::Month }, next: pos + 5 }
    } else if has_word(s, pos, seq!['y', 'e', 'a', 'r']) {
        Parsed::Done { value: Window::Period { period: Period::Year }, next: pos + 4 }
    } else {
        Parsed::Miss { at: pos }
    }
}

/// `window` and a fixed, a sliding or a calendar window.
pub open spec fn g_window(s: Seq<char>, pos: int) -> Parsed<Window> {
    if has_word(s, pos, seq!['w', 'i', 'n', 'd', 'o', 'w']) {
        let first = spaces_end(s, pos + 6);
        either(g_fixed(s, first), either(g_sliding(s, first), g_period(s, first)))
    } else {
        Parsed::Miss { at: pos }
    }
}

/// The word `word` of `len` letters and the expression behind it.
pub open spec fn g_clause(s: Seq<char>, pos: int, word: Seq<char>) -> Parsed<ExprView> {
    if has_word(s, pos, word) {
        g_expr(s, spaces_end(s, pos + word.len()))
    } else {
        Parsed::Miss { at: pos }
    }
}

/// An optional part between white space: what `part` reads behind the
/// white space at `pos`, and the place behind the white space that follows
/// it; or nothing, and `pos`, where `part` misses.
pub open spec fn optional<V>(s: Seq<char>, pos: int, part: Parsed<V>) -> Parsed<Option<V>> {
    match part {
        Parsed::Done { value, next } => Parsed::Done {
            value: Some(value),
            next: spaces_end(s, next),
        },
        Parsed::Fatal { at } => Parsed::Fatal { at },
        Parsed::Miss { at } => Parsed::Done { value: None, next: pos },
    }
}

/// A source: a query in parentheses or a name, maybe with `as` and a name
/// behind it.
pub open spec fn g_source(s: Seq<char>, pos: int) -> Parsed<SourceView>
    decreases s.len() - pos, 2nat,
{
    match g_source_from(s, pos) {
        Parsed::Done { value: from, next } => {
            let word = spaces_end(s, next);
            let aliased = if has_word(s, word, seq!['a', 's']) {
                g_name(s, spaces_end(s, word + 2))
            } else {
                Parsed::Miss { at: word }
            };
            match aliased {
                Parsed::Done { value: alias, next: end } => Parsed::Done {
                    value: SourceView { from, alias: Some(alias) },
                    next: end,
                },
                _ => Parsed::Done { value: SourceView { from, alias: None }, next },
            }
        },
        Parsed::Fatal { at } => Parsed::Fatal { at },
        Parsed::Miss { at } => Parsed::Miss { at },
    }
}

/// What a source reads from: a query in parentheses, or a name.
pub open spec fn g_source_from(s: Seq<char>, pos: int) -> Parsed<SourceFromView>
    decreases s.len() - pos, 1nat,
{
    let query = if has_char(s, pos, '(') {
        let first = spaces_end(s, pos + 1);
        if onward(s, pos + 1, first) {
            match g_select(s, first) {
                Parsed::Done { value, next } => {
                    let close = spaces_end(s, next);
                    if has_char(s, close, ')') {
                        Parsed::Done {
                            value: SourceFromView::SubQuery(Box::new(value)),
                            next: close + 1,
                        }
                    } else {
                        Parsed::Miss { at: close }
                    }
                },
                Parsed::Fatal { at } => Parsed::Fatal { at },
                Parsed::Miss { at } => Parsed::Miss { at },
            }
        } else {
            Parsed::Miss { at: pos }
        }
    } else {
        Parsed::Miss { at: pos }
    };
    let named = match g_name(s, pos) {
        Parsed::Done { value, next } => Parsed::Done { value: SourceFromView::Named(value), next },
        Parsed::Fatal { at } => Parsed::Fatal { at },
        Parsed::Miss { at } => Parsed::Miss { at },
    };
    either(query, named)
}

/// A query: `select`, a projection, `from`, a source, and then, each
/// optional and in this order, a `where` clause, a `group by` clause, a
/// `having` clause and a `window` clause.
pub open spec fn g_select(s: Seq<char>, pos: int) -> Parsed<SelectView>
    decreases s.len() - pos, 3nat,
{
    if has_word(s, pos, seq!['s', 'e', 'l', 'e', 'c', 't']) {
        match g_projection(s, pos + 6) {
            Parsed::Done { value: projection, next } => if has_word(
                s,
                next,
                seq!['f', 'r', 'o', 'm'],
            ) {
                let first = spaces_end(s, next + 4);
                if pos < first && onward(s, pos, first) {
                    match g_source(s, first) {
                        Parsed::Done { value: source, next: after_source } => g_clauses(
                            s,
                            spaces_end(s, after_source),
                            projection,
                            source,
                        ),
                        Parsed::Fatal { at } => Parsed::Fatal { at },
                        Parsed::Miss { at } => Parsed::Miss { at },
                    }
                } else {
                    Parsed::Miss { at: pos }
                }
            } else {
                Parsed::Miss { at: next }
            },
            Parsed::Fatal { at } => Parsed::Fatal { at },
            Parsed::Miss { at } => Parsed::Miss { at },
        }
    } else {
        Parsed::Miss { at: pos }
    }
}

/// The optional clauses of a query, behind its projection and its source.
#[verifier::opaque]
pub open spec fn g_clauses(
    s: Seq<char>,
    pos: int,
    projection: Seq<ExprView>,
    source: SourceView,
) -> Parsed<SelectView> {
    match optional(s, pos, g_clause(s, spaces_end(s, pos), seq!['w', 'h', 'e', 'r', 'e'])) {
        Parsed::Done { value: where_clause, next: a } => match optional(
            s,
            a,
            g_group_by(s, spaces_end(s, a)),
        ) {
            Parsed::Done { value: group_clause, next: b } => match optional(
                s,
                b,
                g_clause(s, spaces_end(s, b), seq!['h', 'a', 'v', 'i', 'n', 'g']),
            ) {
                Parsed::Done { value: having_clause, next: c } => match optional(
                    s,
                    c,
                    g_window(s, spaces_end(s, c)),
                ) {
                    Parsed::Done { value: window, next: d } => Parsed::Done {
                        value: SelectView {
                            projection,
                            source,
                            where_clause,
                            having_clause,
                            group_clause,
                            window,
                        },
                        next: d,
                    },
                    Parsed::Fatal { at } => Parsed::Fatal { at },
                    Parsed::Miss { at } => Parsed::Miss { at },
                },
                Parsed::Fatal { at } => Parsed::Fatal { at },
                Parsed::Miss { at } => Parsed::Miss { at },
            },
            Parsed::Fatal { at } => Parsed::Fatal { at },
            Parsed::Miss { at } => Parsed::Miss { at },
        },
        Parsed::Fatal { at } => Parsed::Fatal { at },
        Parsed::Miss { at } => Parsed::Miss { at },
    }
}

/// The white space at a place ends at or behind the place; behind its end
/// no white space follows; and from every place in it, it ends at the
/// same place.
pub proof fn lemma_spaces_end(s: Seq<char>, pos: int)
    ensures
        pos <= spaces_end(s, pos),
        0 <= pos <= s.len() ==> spaces_end(s, pos) <= s.len(),
        spaces_end(s, spaces_end(s, pos)) == spaces_end(s, pos),
        forall|p: int|
            pos <= p <= spaces_end(s, pos) ==> #[trigger] spaces_end(s, p) == spaces_end(s, pos),
    decreases s.len() - pos,
{
    if 0 <= pos < s.len() && is_space(s[pos]) {
        lemma_spaces_end(s, pos + 1);
    }
}

/// The amount of white space around an operand changes nothing.
///
/// Let `p` be a place in the white space at `pos`. Then a primitive, and
/// an item of a list, is read from `p` as it is from `pos`: with the same
/// result, to the same end. Where it is done, it ends behind the white
/// space that follows it, so that what comes next is read from there
/// however much white space there was.
pub proof fn lemma_space_around_operands_is_skipped(s: Seq<char>, pos: int, p: int)
    requires
        0 <= pos <= p <= spaces_end(s, pos),
    ensures
        g_primitive(s, p) == g_primitive(s, pos),
        g_item(s, p) == g_item(s, pos),
        g_primitive(s, pos) matches Parsed::Done { next, .. } ==> spaces_end(s, next) == next,
        g_item(s, pos) matches Parsed::Done { next, .. } ==> spaces_end(s, next) == next,
{
    lemma_spaces_end(s, pos);
    let first = spaces_end(s, pos);
    assert(spaces_end(s, p) == first);
    let found = either(
        g_parens(s, first),
        either(
            g_unary(s, first),
            either(g_call(s, first), either(g_literal_expr(s, first), g_column(s, first))),
        ),
    );
    match found {
        Parsed::Done { value, next } => lemma_spaces_end(s, next),
        _ => {},
    }
    match g_expr(s, first) {
        Parsed::Done { value, next } => lemma_spaces_end(s, next),
        _ => {},
    }
}

} // verus!
