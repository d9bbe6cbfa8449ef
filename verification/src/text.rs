//! Helpers for building text.

use vstd::prelude::*;
use unicode_segmentation::UnicodeSegmentation;

verus! {

/// `String::push` appends one character to the end of the string.
pub assume_specification[ std::string::String::push ](s: &mut std::string::String, c: char)
    ensures
        final(s)@ == old(s)@.push(c),
;

/// The extended grapheme clusters of a text, in order, each as its sequence
/// of characters.
pub uninterp spec fn graphemes(text: Seq<char>) -> Seq<Seq<char>>;

/// The character sequences held by a vector of clusters.
pub open spec fn clusters_view(v: Seq<Vec<char>>) -> Seq<Seq<char>> {
    v.map_values(|g: Vec<char>| g@)
}

/// Splits a text into its extended grapheme clusters with
/// `UnicodeSegmentation::graphemes`. The contract only names the result: the
/// clusters are a function of the text.
#[verifier::external_body]
pub(crate) fn grapheme_clusters(text: &str) -> (r: Vec<Vec<char>>)
    ensures
        clusters_view(r@) == graphemes(text@),
{
    let mut out: Vec<Vec<char>> = Vec::new();
    for g in text.graphemes(true) {
        out.push(g.chars().collect());
    }
    out
}

/// The string made of the characters of `chars`, in order.
pub fn string_from_chars(chars: &Vec<char>) -> (s: String)
    ensures
        s@ == chars@,
{
    let mut s = String::new();
    let mut i: usize = 0;
    while i < chars.len()
        invariant
            i <= chars.len(),
            s@ == chars@.take(i as int),
        decreases chars.len() - i,
    {
        s.push(chars[i]);
        i += 1;
    }
    assert(chars@.take(chars.len() as int) == chars@);
    s
}

/// The characters of `s`, in order.
pub fn chars_of(s: &str) -> (v: Vec<char>)
    ensures
        v@ == s@,
{
    let mut v: Vec<char> = Vec::new();
    for c in it: s.chars()
        invariant
            v@ =~= it.seq().take(it.index() as int),
            it.seq() == s@,
    {
        v.push(c);
    }
    assert(v@ =~= s@);
    v
}

/// Appends every character of `chars` to `out`.
pub fn push_all(out: &mut Vec<char>, chars: &Vec<char>)
    ensures
        final(out)@ == old(out)@ + chars@,
{
    let mut i: usize = 0;
    while i < chars.len()
        invariant
            i <= chars.len(),
            out@ == old(out)@ + chars@.take(i as int),
        decreases chars.len() - i,
    {
        out.push(chars[i]);
        i += 1;
        assert(chars@.take(i as int) == chars@.take(i - 1).push(chars@[i - 1]));
    }
    assert(chars@.take(chars.len() as int) == chars@);
}

/// The superscript form of a decimal digit.
pub open spec fn superscript_digit(d: int) -> char {
    if d == 0 {
        '⁰'
    } else if d == 1 {
        '¹'
    } else if d == 2 {
        '²'
    } else if d == 3 {
        '³'
    } else if d == 4 {
        '⁴'
    } else if d == 5 {
        '⁵'
    } else if d == 6 {
        '⁶'
    } else if d == 7 {
        '⁷'
    } else if d == 8 {
        '⁸'
    } else {
        '⁹'
    }
}

/// The decimal digits of a natural number, most significant first, written
/// in superscript.
pub open spec fn superscript_digits(n: nat) -> Seq<char>
    decreases n,
{
    if n < 10 {
        seq![superscript_digit(n as int)]
    } else {
        superscript_digits(n / 10).push(superscript_digit((n % 10) as int))
    }
}

/// An integer written in superscript, with a superscript minus sign when
/// negative.
pub open spec fn superscript(n: int) -> Seq<char> {
    if n < 0 {
        seq!['⁻'] + superscript_digits((-n) as nat)
    } else {
        superscript_digits(n as nat)
    }
}

fn digit_char(d: u8) -> (c: char)
    requires
        d < 10,
    ensures
        c == superscript_digit(d as int),
{
    if d == 0 {
        '⁰'
    } else if d == 1 {
        '¹'
    } else if d == 2 {
        '²'
    } else if d == 3 {
        '³'
    } else if d == 4 {
        '⁴'
    } else if d == 5 {
        '⁵'
    } else if d == 6 {
        '⁶'
    } else if d == 7 {
        '⁷'
    } else if d == 8 {
        '⁸'
    } else {
        '⁹'
    }
}

/// Appends an exponent in superscript to `out`.
pub fn push_superscript(out: &mut Vec<char>, n: i8)
    ensures
        final(out)@ == old(out)@ + superscript(n as int),
{
    let wide: i16 = n as i16;
    let magnitude: u8 = if wide < 0 {
        out.push('⁻');
        (-wide) as u8
    } else {
        wide as u8
    };
    proof {
        reveal_with_fuel(superscript_digits, 3);
    }
    if magnitude >= 100 {
        out.push(digit_char(magnitude / 100));
        out.push(digit_char((magnitude / 10) % 10));
        out.push(digit_char(magnitude % 10));
    } else if magnitude >= 10 {
        out.push(digit_char(magnitude / 10));
        out.push(digit_char(magnitude % 10));
    } else {
        out.push(digit_char(magnitude));
    }
    assert(out@ =~= old(out)@ + superscript(n as int));
}

} // verus!
