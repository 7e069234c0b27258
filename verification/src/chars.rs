use vstd::prelude::*;

verus! {

// The lexer classifies characters the way std does. On ASCII the std
// predicates are fully documented, so the spec functions below spell that
// range out; beyond ASCII the outcome is named and left uninterpreted.
pub uninterp spec fn unicode_alphabetic(c: char) -> bool;

pub uninterp spec fn unicode_numeric(c: char) -> bool;

pub uninterp spec fn unicode_whitespace(c: char) -> bool;

pub open spec fn is_alpha_char(c: char) -> bool {
    if (c as u32) < 128 {
        let u = c as u32;
        (97 <= u && u <= 122) || (65 <= u && u <= 90)
    } else {
        unicode_alphabetic(c)
    }
}

pub open spec fn is_digit_char(c: char) -> bool {
    if (c as u32) < 128 {
        let u = c as u32;
        48 <= u && u <= 57
    } else {
        unicode_numeric(c)
    }
}

pub open spec fn is_space_char(c: char) -> bool {
    if (c as u32) < 128 {
        let u = c as u32;
        u == 32 || u == 9 || u == 10 || u == 11 || u == 12 || u == 13
    } else {
        unicode_whitespace(c)
    }
}

/// An identifier is made of alphabetic characters and underscores.
pub open spec fn is_ident_char(c: char) -> bool {
    is_alpha_char(c) || c == '_'
}

/// Relies on char::is_alphabetic; on ASCII it holds exactly of the letters.
#[verifier::external_body]
pub fn char_alphabetic(c: char) -> (r: bool)
    ensures
        r == is_alpha_char(c),
        (c as u32) >= 128 ==> r == unicode_alphabetic(c),
{
    c.is_alphabetic()
}

/// Relies on char::is_numeric; on ASCII it holds exactly of the digits.
#[verifier::external_body]
pub fn char_numeric(c: char) -> (r: bool)
    ensures
        r == is_digit_char(c),
        (c as u32) >= 128 ==> r == unicode_numeric(c),
{
    c.is_numeric()
}

/// Relies on char::is_whitespace; on ASCII it holds exactly of space, tab,
/// line feed, vertical tab, form feed and carriage return.
#[verifier::external_body]
pub fn char_whitespace(c: char) -> (r: bool)
    ensures
        r == is_space_char(c),
        (c as u32) >= 128 ==> r == unicode_whitespace(c),
{
    c.is_whitespace()
}

/// The scalar values that are valid Unicode code points.
pub open spec fn valid_code_point(u: u32) -> bool {
    u < 0xD800 || (0xE000 <= u && u < 0x110000)
}

/// Relies on char::from_u32: `Some` exactly outside the surrogate range and
/// below the code-point maximum, returning the character of that value.
#[verifier::external_body]
pub fn char_from_u32(u: u32) -> (r: Option<char>)
    ensures
        match r {
            Some(c) => valid_code_point(u) && c as u32 == u,
            None => !valid_code_point(u),
        },
{
    char::from_u32(u)
}

/// The uppercase mapping's leading character, which depends on the
/// character alone.
pub uninterp spec fn upper_of(c: char) -> char;

/// Relies on char::to_uppercase: it yields at least one character (the
/// character itself when it has no uppercase form), determined by the
/// character alone.
#[verifier::external_body]
pub fn char_upper(c: char) -> (r: char)
    ensures
        r == upper_of(c),
{
    c.to_uppercase().next().unwrap()
}

/// Relies on str's `PartialEq`: equality of the character sequences.
#[verifier::external_body]
pub fn str_eq(a: &str, b: &str) -> (r: bool)
    ensures
        r == (a@ == b@),
{
    a == b
}

/// The number of bytes the UTF-8 encoding of a character occupies.
pub open spec fn utf8_len(c: char) -> int {
    let u = c as u32;
    if u < 0x80 {
        1
    } else if u < 0x800 {
        2
    } else if u < 0x10000 {
        3
    } else {
        4
    }
}

pub fn char_utf8_len(c: char) -> (r: usize)
    ensures
        r as int == utf8_len(c),
        1 <= r <= 4,
{
    let u = c as u32;
    if u < 0x80 {
        1
    } else if u < 0x800 {
        2
    } else if u < 0x10000 {
        3
    } else {
        4
    }
}

/// The byte length of the UTF-8 encoding of a character sequence.
pub open spec fn bytes_len(s: Seq<char>) -> int
    decreases s,
{
    if s.len() == 0 {
        0
    } else {
        bytes_len(s.drop_last()) + utf8_len(s.last())
    }
}

/// The byte offset at which character position `p` of `s` begins.
pub open spec fn bpos(s: Seq<char>, p: int) -> int {
    bytes_len(s.take(p))
}

/// Relies on str::len: the byte length of a string is the sum of the UTF-8
/// encoded lengths of its characters.
#[verifier::external_body]
pub fn str_byte_len(s: &str) -> (r: usize)
    ensures
        r as int == bytes_len(s@),
{
    s.len()
}

pub proof fn lemma_bpos_le_total(s: Seq<char>, p: int)
    requires
        0 <= p <= s.len(),
    ensures
        bpos(s, p) <= bytes_len(s),
        bpos(s, p) >= 0,
    decreases s.len() - p,
{
    if p == s.len() {
        assert(s.take(p) =~= s);
        lemma_bytes_len_ge_zero(s.take(p));
    } else {
        lemma_bpos_step(s, p);
        lemma_bpos_le_total(s, p + 1);
        lemma_bytes_len_ge_zero(s.take(p));
    }
}

pub proof fn lemma_bytes_len_ge_zero(s: Seq<char>)
    ensures
        bytes_len(s) >= 0,
    decreases s,
{
    if s.len() > 0 {
        lemma_bytes_len_ge_zero(s.drop_last());
    }
}

pub proof fn lemma_bpos_step(s: Seq<char>, p: int)
    requires
        0 <= p < s.len(),
    ensures
        bpos(s, p + 1) == bpos(s, p) + utf8_len(s[p]),
{
    assert(s.take(p + 1).drop_last() =~= s.take(p));
    assert(s.take(p + 1).last() == s[p]);
}

} // verus!
