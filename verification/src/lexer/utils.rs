//! What the text of a token stands for: the value of an integer literal, the
//! content of a string literal, the text of a comment.

use crate::lexer::scan::is_digit;
use crate::text::push_char;
use crate::text::string_of;
use vstd::prelude::*;

verus! {

/// The value of a decimal digit.
pub open spec fn digit_value(c: char) -> nat {
    (c as u32 - '0' as u32) as nat
}

/// The number that the decimal digits `src[from..to]` denote.
pub open spec fn digits_value(src: Seq<char>, from: int, to: int) -> nat
    decreases to - from,
{
    if to <= from {
        0
    } else {
        digits_value(src, from, to - 1) * 10 + digit_value(src[to - 1])
    }
}

/// The text `s` with every `\"` replaced by `"`, read from left to right.
pub open spec fn unescape(s: Seq<char>) -> Seq<char>
    decreases s.len(),
{
    if s.len() == 0 {
        s
    } else if s.len() >= 2 && s[0] == '\\' && s[1] == '"' {
        seq!['"'] + unescape(s.skip(2))
    } else {
        seq![s[0]] + unescape(s.skip(1))
    }
}

/// The value of the integer literal `chars[from..to]`, or `None` where it is
/// larger than `i64::MAX`.
pub fn parse_int(chars: &Vec<char>, from: usize, to: usize) -> (r: Option<i64>)
    requires
        from <= to <= chars.len(),
        forall|k: int| from <= k < to ==> is_digit(chars@[k]),
    ensures
        r == if digits_value(chars@, from as int, to as int) <= i64::MAX {
            Some(digits_value(chars@, from as int, to as int) as i64)
        } else {
            None
        },
{
    let mut value: i64 = 0;
    let mut fits = true;
    let mut at: usize = from;
    while at < to
        invariant
            from <= at <= to <= chars.len(),
            forall|k: int| from <= k < to ==> is_digit(chars@[k]),
            0 <= value,
            fits ==> value == digits_value(chars@, from as int, at as int),
            !fits ==> digits_value(chars@, from as int, at as int) > i64::MAX,
        decreases to - at,
    {
        let digit: i64 = (chars[at] as u32 - '0' as u32) as i64;
        assert(digit == digit_value(chars@[at as int]));
        assert(0 <= digit <= 9);
        if fits {
            if value > (i64::MAX - digit) / 10 {
                fits = false;
            } else {
                value = value * 10 + digit;
            }
        }
        at += 1;
    }
    if fits {
        Some(value)
    } else {
        None
    }
}

/// The floating-point literal `chars[from..to]` as written.
pub fn parse_float(chars: &Vec<char>, from: usize, to: usize) -> (r: String)
    requires
        from <= to <= chars.len(),
    ensures
        r@ == chars@.subrange(from as int, to as int),
{
    string_of(chars, from, to)
}

/// The content of the string literal `chars[from..to]`: what stands between
/// its quotes, with `\"` replaced by `"`.
pub fn parse_string(chars: &Vec<char>, from: usize, to: usize) -> (r: String)
    requires
        from + 2 <= to <= chars.len(),
    ensures
        r@ == unescape(chars@.subrange(from + 1, to - 1)),
{
    let stop = to - 1;
    let mut out = String::new();
    let mut at: usize = from + 1;
    while at < stop
        invariant
            from + 1 <= at <= stop,
            stop == to - 1,
            to <= chars.len(),
            out@ + unescape(chars@.subrange(at as int, stop as int)) == unescape(
                chars@.subrange(from + 1, stop as int),
            ),
        decreases stop - at,
    {
        let ghost rest = chars@.subrange(at as int, stop as int);
        if chars[at] == '\\' && stop - at >= 2 && chars[at + 1] == '"' {
            proof {
                assert(rest.skip(2) =~= chars@.subrange(at + 2, stop as int));
                assert(out@.push('"') + unescape(rest.skip(2)) =~= out@ + (seq!['"'] + unescape(
                    rest.skip(2),
                )));
            }
            push_char(&mut out, '"');
            at += 2;
        } else {
            proof {
                assert(rest.skip(1) =~= chars@.subrange(at + 1, stop as int));
                assert(out@.push(rest[0]) + unescape(rest.skip(1)) =~= out@ + (seq![rest[0]]
                    + unescape(rest.skip(1))));
            }
            push_char(&mut out, chars[at]);
            at += 1;
        }
    }
    proof {
        assert(chars@.subrange(stop as int, stop as int) =~= Seq::<char>::empty());
        assert(out@ + Seq::<char>::empty() =~= out@);
    }
    out
}

/// The identifier `chars[from..to]`.
pub fn parse_identifier(chars: &Vec<char>, from: usize, to: usize) -> (r: String)
    requires
        from <= to <= chars.len(),
    ensures
        r@ == chars@.subrange(from as int, to as int),
{
    string_of(chars, from, to)
}

/// The text of the line comment `chars[from..to]`: what follows `//`.
pub fn parse_line_comment(chars: &Vec<char>, from: usize, to: usize) -> (r: String)
    requires
        from + 2 <= to <= chars.len(),
    ensures
        r@ == chars@.subrange(from + 2, to as int),
{
    string_of(chars, from + 2, to)
}

/// The text of the block comment `chars[from..to]`: what stands between
/// `/*` and `*/`.
pub fn parse_block_comment(chars: &Vec<char>, from: usize, to: usize) -> (r: String)
    requires
        from + 4 <= to <= chars.len(),
    ensures
        r@ == chars@.subrange(from + 2, to - 2),
{
    string_of(chars, from + 2, to - 2)
}

} // verus!
