//! Character classification and whitespace scanning shared by the tokeniser
//! and the parser.

use vstd::prelude::*;
use vstd::string::StrSliceExecFns;

verus! {

/// The Unicode `White_Space` code points, the set that `char::is_whitespace`
/// recognises.
pub open spec fn is_ws(c: char) -> bool {
    let u = c as u32;
    ||| u == 0x20
    ||| (0x09 <= u && u <= 0x0D)
    ||| u == 0x85
    ||| u == 0xA0
    ||| u == 0x1680
    ||| (0x2000 <= u && u <= 0x200A)
    ||| u == 0x2028
    ||| u == 0x2029
    ||| u == 0x202F
    ||| u == 0x205F
    ||| u == 0x3000
}

pub fn is_ws_char(c: char) -> (r: bool)
    ensures
        r == is_ws(c),
{
    let u = c as u32;
    u == 0x20 || (0x09 <= u && u <= 0x0D) || u == 0x85 || u == 0xA0 || u == 0x1680 || (0x2000 <= u
        && u <= 0x200A) || u == 0x2028 || u == 0x2029 || u == 0x202F || u == 0x205F || u == 0x3000
}

/// A decimal digit.
pub open spec fn is_digit(c: char) -> bool {
    let u = c as u32;
    0x30 <= u && u <= 0x39
}

pub fn is_digit_char(c: char) -> (r: bool)
    ensures
        r == is_digit(c),
{
    let u = c as u32;
    0x30 <= u && u <= 0x39
}

/// An ASCII letter.
pub open spec fn is_ascii_alpha(c: char) -> bool {
    let u = c as u32;
    (0x41 <= u && u <= 0x5A) || (0x61 <= u && u <= 0x7A)
}

pub fn is_ascii_alpha_char(c: char) -> (r: bool)
    ensures
        r == is_ascii_alpha(c),
{
    let u = c as u32;
    (0x41 <= u && u <= 0x5A) || (0x61 <= u && u <= 0x7A)
}

/// What `char::is_alphabetic` returns: whether the character has the Unicode
/// `Alphabetic` property, a function of the character alone.
pub uninterp spec fn char_is_alphabetic(c: char) -> bool;

/// What `char::is_alphanumeric` returns: whether the character is Unicode
/// `Alphabetic` or a Unicode number, a function of the character alone.
pub uninterp spec fn char_is_alphanumeric(c: char) -> bool;

/// Relies on `char::is_alphabetic`: the Unicode `Alphabetic` property of the
/// character, the same on every call.
#[verifier::external_body]
pub fn is_alphabetic_char(c: char) -> (r: bool)
    ensures
        r == char_is_alphabetic(c),
{
    c.is_alphabetic()
}

/// Relies on `char::is_alphanumeric`: whether the character is Unicode
/// `Alphabetic` or a Unicode number, the same on every call.
#[verifier::external_body]
pub fn is_alphanumeric_char(c: char) -> (r: bool)
    ensures
        r == char_is_alphanumeric(c),
{
    c.is_alphanumeric()
}

/// How many consecutive whitespace characters stand at `pos`.
pub open spec fn ws_count(s: Seq<char>, pos: int) -> nat
    decreases s.len() - pos,
{
    if 0 <= pos && pos < s.len() && is_ws(s[pos]) {
        1 + ws_count(s, pos + 1)
    } else {
        0
    }
}

/// Advance `pos` past any run of whitespace.
pub fn skip_ws(s: &str, pos: usize) -> (r: usize)
    requires
        pos <= s@.len(),
    ensures
        r == pos + ws_count(s@, pos as int),
        r <= s@.len(),
{
    let n = s.unicode_len();
    let mut i = pos;
    while i < n && is_ws_char(s.get_char(i))
        invariant
            pos <= i <= n,
            n == s@.len(),
            pos + ws_count(s@, pos as int) == i + ws_count(s@, i as int),
        decreases n - i,
    {
        i = i + 1;
    }
    i
}

/// How many consecutive identifier-continuation characters (`_` or
/// alphanumeric) stand at `pos`.
pub open spec fn ident_count(s: Seq<char>, pos: int) -> nat
    decreases s.len() - pos,
{
    if 0 <= pos && pos < s.len() && (s[pos] == '_' || char_is_alphanumeric(s[pos])) {
        1 + ident_count(s, pos + 1)
    } else {
        0
    }
}

/// Advance past identifier-continuation characters.
pub fn scan_ident_end(s: &str, pos: usize) -> (r: usize)
    requires
        pos <= s@.len(),
    ensures
        r == pos + ident_count(s@, pos as int),
        r <= s@.len(),
{
    let n = s.unicode_len();
    let mut i = pos;
    while i < n && (s.get_char(i) == '_' || is_alphanumeric_char(s.get_char(i)))
        invariant
            pos <= i <= n,
            n == s@.len(),
            pos + ident_count(s@, pos as int) == i + ident_count(s@, i as int),
        decreases n - i,
    {
        i = i + 1;
    }
    i
}

/// Relies on `String::push`: appends the given character to the end of the
/// string.
#[verifier::external_body]
pub(crate) fn push_char(s: &mut String, c: char)
    ensures
        final(s)@ == old(s)@ + seq![c],
{
    s.push(c);
}

/// Whether a string spells exactly the given text.
pub(crate) fn string_eq_literal(s: &String, lit: &str) -> (r: bool)
    ensures
        r == (s@ == lit@),
{
    let a = s.as_str();
    let na = a.unicode_len();
    let nb = lit.unicode_len();
    if na != nb {
        return false;
    }
    let mut i: usize = 0;
    while i < na
        invariant
            0 <= i <= na,
            a@ == s@,
            na == s@.len(),
            na == lit@.len(),
            forall|k: int| 0 <= k < i ==> s@[k] == lit@[k],
        decreases na - i,
    {
        if a.get_char(i) != lit.get_char(i) {
            return false;
        }
        i = i + 1;
    }
    proof {
        assert(s@ =~= lit@);
    }
    true
}

} // verus!
