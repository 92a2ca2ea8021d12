//! The diagnostic summary of a substrate, as text.
use crate::substrate::Stats;
use vstd::prelude::*;

verus! {

/// `String::push` of the standard library appends one character. Trusted:
/// the string afterwards holds what it held, then that character.
pub assume_specification[ String::push ](s: &mut String, ch: char)
    ensures
        final(s)@ == old(s)@.push(ch),
;

/// `String::push_str` of the standard library appends a string slice.
/// Trusted: the string afterwards holds what it held, then the slice.
pub assume_specification[ String::push_str ](s: &mut String, string: &str)
    ensures
        final(s)@ == old(s)@ + string@,
;

/// The character of a decimal digit.
pub open spec fn digit(d: nat) -> char {
    if d == 0 {
        '0'
    } else if d == 1 {
        '1'
    } else if d == 2 {
        '2'
    } else if d == 3 {
        '3'
    } else if d == 4 {
        '4'
    } else if d == 5 {
        '5'
    } else if d == 6 {
        '6'
    } else if d == 7 {
        '7'
    } else if d == 8 {
        '8'
    } else {
        '9'
    }
}

/// A number in decimal, without leading zeros.
pub open spec fn decimal(n: nat) -> Seq<char>
    decreases n,
{
    if n < 10 {
        seq![digit(n)]
    } else {
        decimal(n / 10).push(digit(n % 10))
    }
}

/// The summary of `s`: each count in decimal behind its label.
pub open spec fn stats_text(s: Stats) -> Seq<char> {
    "particles: "@ + decimal(s.particles as nat) + ", forming: "@ + decimal(s.forming as nat)
        + ", floating: "@ + decimal(s.floating as nat) + ", text_coords: "@ + decimal(
        s.text_coords as nat,
    )
}

fn digit_char(d: usize) -> (c: char)
    requires
        d < 10,
    ensures
        c == digit(d as nat),
{
    if d == 0 {
        '0'
    } else if d == 1 {
        '1'
    } else if d == 2 {
        '2'
    } else if d == 3 {
        '3'
    } else if d == 4 {
        '4'
    } else if d == 5 {
        '5'
    } else if d == 6 {
        '6'
    } else if d == 7 {
        '7'
    } else if d == 8 {
        '8'
    } else {
        '9'
    }
}

/// Appends `n` in decimal to `text`.
pub fn push_decimal(text: &mut String, n: usize)
    ensures
        final(text)@ == old(text)@ + decimal(n as nat),
    decreases n,
{
    if n >= 10 {
        push_decimal(text, n / 10);
    }
    text.push(digit_char(n % 10));
    assert(text@ =~= old(text)@ + decimal(n as nat));
}

/// Writes the summary of `s`.
pub fn render_stats(s: Stats) -> (text: String)
    ensures
        text@ == stats_text(s),
{
    let mut text = String::new();
    text.push_str("particles: ");
    push_decimal(&mut text, s.particles);
    text.push_str(", forming: ");
    push_decimal(&mut text, s.forming);
    text.push_str(", floating: ");
    push_decimal(&mut text, s.floating);
    text.push_str(", text_coords: ");
    push_decimal(&mut text, s.text_coords);
    assert(text@ =~= stats_text(s));
    text
}

} // verus!
