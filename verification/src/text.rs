//! Characters and strings: what the parsers need of them.

use vstd::prelude::*;

verus! {

/// Whether a character is a decimal digit.
pub open spec fn is_digit(c: char) -> bool {
    '0' <= c && c <= '9'
}

/// The place behind the digits at `pos`.
pub open spec fn digits_end(s: Seq<char>, pos: int) -> int
    decreases s.len() - pos,
{
    if 0 <= pos < s.len() && is_digit(s[pos]) {
        digits_end(s, pos + 1)
    } else {
        pos
    }
}

/// The number that the decimal digits from `from` up to `to` write.
pub open spec fn decimal(s: Seq<char>, from: int, to: int) -> int
    decreases to - from,
{
    if from >= to {
        0
    } else {
        decimal(s, from, to - 1) * 10 + (s[to - 1] as int - '0' as int)
    }
}

/// std's `String::push`: the string with `c` behind its characters.
#[verifier::external_body]
pub(crate) fn push_char(text: &mut String, c: char)
    ensures
        final(text)@ == old(text)@.push(c),
{
    text.push(c)
}

/// The characters of a string.
pub fn chars_of(text: &str) -> (chars: Vec<char>)
    ensures
        chars@ == text@,
{
    let mut chars: Vec<char> = Vec::new();
    for c in it: text.chars()
        invariant
            chars@ == it.seq().take(it.index() as int),
    {
        chars.push(c);
    }
    chars
}

/// The string of the characters from `from` up to `to`.
pub fn string_of(chars: &[char], from: usize, to: usize) -> (text: String)
    requires
        from <= to <= chars@.len(),
    ensures
        text@ == chars@.subrange(from as int, to as int),
{
    let mut text = String::new();
    let mut i: usize = from;
    while i < to
        invariant
            from <= i <= to <= chars@.len(),
            text@ == chars@.subrange(from as int, i as int),
        decreases to - i,
    {
        push_char(&mut text, chars[i]);
        assert(chars@.subrange(from as int, i + 1) =~= chars@.subrange(from as int, i as int).push(
            chars@[i as int],
        ));
        i += 1;
    }
    text
}

/// The integer that a text writes: digits, maybe behind a sign, and
/// nothing else.
pub open spec fn integer_text(text: Seq<char>) -> Option<int> {
    let signed = text.len() > 0 && (text[0] == '-' || text[0] == '+');
    let first: int = if signed {
        1
    } else {
        0
    };
    if text.len() > first && digits_end(text, first) == text.len() {
        if signed && text[0] == '-' {
            Some(-decimal(text, first, text.len() as int))
        } else {
            Some(decimal(text, first, text.len() as int))
        }
    } else {
        None
    }
}

/// The integer that a text writes, where it writes one that fits in 64
/// bits.
pub fn parse_integer(text: &str) -> (value: Option<i64>)
    ensures
        match value {
            Some(v) => integer_text(text@) == Some(v as int),
            None => match integer_text(text@) {
                Some(x) => !(i64::MIN <= x <= i64::MAX),
                None => true,
            },
        },
{
    let chars = chars_of(text);
    let s = chars.as_slice();
    let negative = s.len() > 0 && s[0] == '-';
    let signed = negative || (s.len() > 0 && s[0] == '+');
    let first: usize = if signed {
        1
    } else {
        0
    };
    if s.len() <= first {
        return None;
    }
    let limit: i128 = 0x8000_0000_0000_0000;
    let mut total: i128 = 0;
    let mut big = false;
    let mut i: usize = first;
    while i < s.len()
        invariant
            first <= i <= s@.len(),
            s@ == text@,
            first == (if text@.len() > 0 && (text@[0] == '-' || text@[0] == '+') {
                1int
            } else {
                0int
            }),
            limit == 0x8000_0000_0000_0000,
            digits_end(s@, first as int) == digits_end(s@, i as int),
            0 <= decimal(s@, first as int, i as int),
            !big ==> total == decimal(s@, first as int, i as int) && total <= limit,
            big ==> decimal(s@, first as int, i as int) > limit,
        decreases s@.len() - i,
    {
        let c = s[i];
        if !('0' <= c && c <= '9') {
            assert(digits_end(s@, i as int) == i);
            return None;
        }
        let d = (c as u32 - '0' as u32) as i128;
        assert(decimal(s@, first as int, i + 1) == decimal(s@, first as int, i as int) * 10 + d);
        if !big {
            total = total * 10 + d;
            if total > limit {
                big = true;
            }
        }
        i += 1;
    }
    if big {
        None
    } else if negative {
        Some((-total) as i64)
    } else if total < limit {
        Some(total as i64)
    } else {
        None
    }
}

/// Whether two texts are the same.
pub fn same_text(a: &str, b: &str) -> (same: bool)
    ensures
        same == (a@ == b@),
{
    let len = a.unicode_len();
    if len != b.unicode_len() {
        return false;
    }
    let mut i: usize = 0;
    while i < len
        invariant
            i <= len,
            len == a@.len(),
            len == b@.len(),
            forall|j: int| 0 <= j < i ==> a@[j] == b@[j],
        decreases len - i,
    {
        if a.get_char(i) != b.get_char(i) {
            return false;
        }
        i += 1;
    }
    assert(a@ =~= b@);
    true
}

} // verus!
