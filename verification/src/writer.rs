//! Writing Rust source text: literal pieces, decimal numbers and quoted
//! string and character literals.

use vstd::prelude::*;

use crate::geometry::str_chars;

verus! {

/// The character of a decimal digit.
pub open spec fn digit_char(d: int) -> char {
    (('0' as int) + d) as char
}

/// The decimal digits of `n`, without leading zeros (`0` for zero).
pub open spec fn decimal_nat(n: nat) -> Seq<char>
    decreases n,
{
    if n < 10 {
        seq![digit_char(n as int)]
    } else {
        decimal_nat(n / 10).push(digit_char((n % 10) as int))
    }
}

/// The decimal text of `n`: a minus sign before the digits of a negative
/// number.
pub open spec fn decimal(n: int) -> Seq<char> {
    if n < 0 {
        seq!['-'] + decimal_nat((-n) as nat)
    } else {
        decimal_nat(n as nat)
    }
}

/// Appends the characters of `s`.
pub fn push_str(out: &mut Vec<char>, s: &str)
    ensures
        final(out)@ == old(out)@ + s@,
{
    let chars = str_chars(s);
    let mut i: usize = 0;
    while i < chars.len()
        invariant
            chars@ == s@,
            i <= chars@.len(),
            out@ == old(out)@ + s@.take(i as int),
        decreases chars@.len() - i,
    {
        out.push(chars[i]);
        i = i + 1;
        assert(out@ =~= old(out)@ + s@.take(i as int));
    }
    assert(s@.take(i as int) =~= s@);
}

/// Appends the characters of `s`.
pub fn push_chars(out: &mut Vec<char>, s: &Vec<char>)
    ensures
        final(out)@ == old(out)@ + s@,
{
    let mut i: usize = 0;
    while i < s.len()
        invariant
            i <= s@.len(),
            out@ == old(out)@ + s@.take(i as int),
        decreases s@.len() - i,
    {
        out.push(s[i]);
        i = i + 1;
        assert(out@ =~= old(out)@ + s@.take(i as int));
    }
    assert(s@.take(i as int) =~= s@);
}

/// Appends the decimal digits of `n`.
pub fn push_decimal_u64(out: &mut Vec<char>, n: u64)
    ensures
        final(out)@ == old(out)@ + decimal_nat(n as nat),
    decreases n,
{
    if n >= 10 {
        push_decimal_u64(out, n / 10);
    }
    let d: u8 = (n % 10) as u8;
    let c = (d + 48) as char;
    assert(c == digit_char((n % 10) as int));
    out.push(c);
    proof {
        if n >= 10 {
            assert(decimal_nat(n as nat) == decimal_nat((n / 10) as nat).push(digit_char((n % 10) as int)));
        }
    }
}

/// Appends the decimal text of `n`.
pub fn push_decimal(out: &mut Vec<char>, n: i64)
    ensures
        final(out)@ == old(out)@ + decimal(n as int),
{
    if n < 0 {
        out.push('-');
        let magnitude: u64 = (-(n as i128)) as u64;
        push_decimal_u64(out, magnitude);
        assert(final(out)@ =~= old(out)@ + decimal(n as int)) by {
            assert(old(out)@.push('-') + decimal_nat(magnitude as nat) =~= old(out)@ + (seq!['-']
                + decimal_nat(magnitude as nat)));
        }
    } else {
        push_decimal_u64(out, n as u64);
    }
}

/// The Rust debug rendering of a string: a double-quoted string literal
/// with escapes.
pub uninterp spec fn debug_str_literal(s: Seq<char>) -> Seq<char>;

/// The Rust debug rendering of a character: a single-quoted character
/// literal with escapes.
pub uninterp spec fn debug_char_literal(c: char) -> Seq<char>;

/// `format!("{:?}", text)` of std: the string as a Rust string literal. Its
/// text is named, not stated: which characters std escapes follows Unicode
/// tables.
#[verifier::external_body]
fn rust_string_literal(text: &str) -> (r: String)
    ensures
        r@ == debug_str_literal(text@),
{
    format!("{text:?}")
}

/// `format!("{:?}", ch)` of std: the character as a Rust character
/// literal. Its text is named, not stated, as for strings.
#[verifier::external_body]
fn rust_char_literal(ch: char) -> (r: String)
    ensures
        r@ == debug_char_literal(ch),
{
    format!("{ch:?}")
}

/// Appends `text` as a Rust string literal.
pub fn push_string_literal(out: &mut Vec<char>, text: &str)
    ensures
        final(out)@ == old(out)@ + debug_str_literal(text@),
{
    let quoted = rust_string_literal(text);
    push_str(out, quoted.as_str());
}

/// Appends `ch` as a Rust character literal.
pub fn push_char_literal(out: &mut Vec<char>, ch: char)
    ensures
        final(out)@ == old(out)@ + debug_char_literal(ch),
{
    let quoted = rust_char_literal(ch);
    push_str(out, quoted.as_str());
}

/// `format!("{:?}", text)` of std on the string of `chars`: the string as a
/// Rust string literal, named as for [`debug_str_literal`].
#[verifier::external_body]
fn rust_chars_literal(chars: &Vec<char>) -> (r: String)
    ensures
        r@ == debug_str_literal(chars@),
{
    let text: String = chars.iter().collect();
    format!("{text:?}")
}

/// Appends the string of `chars` as a Rust string literal.
pub fn push_chars_literal(out: &mut Vec<char>, chars: &Vec<char>)
    ensures
        final(out)@ == old(out)@ + debug_str_literal(chars@),
{
    let quoted = rust_chars_literal(chars);
    push_str(out, quoted.as_str());
}

} // verus!
