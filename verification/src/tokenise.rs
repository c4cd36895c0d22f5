//! The FeO tokeniser: a lazy, forward-only producer of lexical tokens from a
//! text buffer, advancing one Unicode scalar value at a time.

use vstd::prelude::*;
use vstd::string::{StrSliceExecFns, StringExecFns};
use crate::chars::{
    char_is_alphabetic, ident_count, is_alphabetic_char, is_digit, is_digit_char, push_char,
    scan_ident_end, skip_ws, string_eq_literal, ws_count,
};

verus! {

/// One lexical unit. Multi-character symbols are always preferred over their
/// prefixes (maximal munch): `>>=` lexes as one token, never as `>>` `=` or
/// `>` `>` `=`. A number literal carries its integer-part and fraction-part
/// digit strings; the fraction part is empty when the source wrote no `.`.
///
/// `LitStrRaw`, `LitByteStr` and `LitByteStrRaw` are declared for raw and
/// byte string literals, which no scanning rule produces yet. `Eof` is an
/// in-band end marker for consumers that want one; the tokeniser itself
/// signals exhaustion by returning no token.
#[allow(non_camel_case_types)]
#[derive(Debug, PartialEq, Eq)]
pub enum Token {
    LitNum(String, String),
    LitStr(String),
    LitStrRaw(String),
    LitByteStr(Vec<u8>),
    LitByteStrRaw(Vec<u8>),
    LitChar(char),
    LitBool(bool),
    Ident(String),
    LParen,
    RParen,
    LSqbr,
    RSqbr,
    LBrace,
    RBrace,
    Eq,
    Lt,
    Le,
    EqEq,
    Gt,
    Ge,
    AndAnd,
    OrOr,
    XorXor,
    Not,
    Tilde,
    BinOp(BinOp),
    BinOpEq(BinOp),
    At,
    Dot,
    DotDot,
    DotDotDot,
    Comma,
    Semicolon,
    Colon,
    T_PAAMAYIM_NEKUDOTAYIM,
    LArrow,
    RArrow,
    FatArrow,
    Octothorpe,
    Dollar,
    Eof,
}

/// The operator carried by a binary-operator or compound-assignment token.
#[derive(Debug, PartialEq, Eq, Clone, Copy)]
pub enum BinOp {
    Plus,
    Minus,
    Times,
    Divide,
    Modulo,
    Xor,
    And,
    Or,
    ShiftLeft,
    ShiftRight,
}

/// A fatal tokenising failure: the pass stops and produces no further tokens.
#[derive(Debug, PartialEq, Eq, Clone, Copy)]
pub enum LexError {
    /// A `'` literal reached the end of the text before closing.
    UnterminatedChar,
    /// A `'` literal held its one character but was closed by something else.
    WrongCharClose(char),
    /// A `"` literal reached the end of the text before closing.
    UnterminatedString,
    /// A character that no scanning rule covers.
    UnexpectedChar(char),
}

/// The mathematical model of a `Token`: the same shape over `Seq`.
#[allow(non_camel_case_types)]
pub enum TokenView {
    LitNum(Seq<char>, Seq<char>),
    LitStr(Seq<char>),
    LitStrRaw(Seq<char>),
    LitByteStr(Seq<u8>),
    LitByteStrRaw(Seq<u8>),
    LitChar(char),
    LitBool(bool),
    Ident(Seq<char>),
    LParen,
    RParen,
    LSqbr,
    RSqbr,
    LBrace,
    RBrace,
    Eq,
    Lt,
    Le,
    EqEq,
    Gt,
    Ge,
    AndAnd,
    OrOr,
    XorXor,
    Not,
    Tilde,
    BinOp(BinOp),
    BinOpEq(BinOp),
    At,
    Dot,
    DotDot,
    DotDotDot,
    Comma,
    Semicolon,
    Colon,
    T_PAAMAYIM_NEKUDOTAYIM,
    LArrow,
    RArrow,
    FatArrow,
    Octothorpe,
    Dollar,
    Eof,
}

impl View for Token {
    type V = TokenView;

    open spec fn view(&self) -> TokenView {
        match self {
            Token::LitNum(i, f) => TokenView::LitNum(i@, f@),
            Token::LitStr(s) => TokenView::LitStr(s@),
            Token::LitStrRaw(s) => TokenView::LitStrRaw(s@),
            Token::LitByteStr(b) => TokenView::LitByteStr(b@),
            Token::LitByteStrRaw(b) => TokenView::LitByteStrRaw(b@),
            Token::LitChar(c) => TokenView::LitChar(*c),
            Token::LitBool(b) => TokenView::LitBool(*b),
            Token::Ident(s) => TokenView::Ident(s@),
            Token::LParen => TokenView::LParen,
            Token::RParen => TokenView::RParen,
            Token::LSqbr => TokenView::LSqbr,
            Token::RSqbr => TokenView::RSqbr,
            Token::LBrace => TokenView::LBrace,
            Token::RBrace => TokenView::RBrace,
            Token::Eq => TokenView::Eq,
            Token::Lt => TokenView::Lt,
            Token::Le => TokenView::Le,
            Token::EqEq => TokenView::EqEq,
            Token::Gt => TokenView::Gt,
            Token::Ge => TokenView::Ge,
            Token::AndAnd => TokenView::AndAnd,
            Token::OrOr => TokenView::OrOr,
            Token::XorXor => TokenView::XorXor,
            Token::Not => TokenView::Not,
            Token::Tilde => TokenView::Tilde,
            Token::BinOp(op) => TokenView::BinOp(*op),
            Token::BinOpEq(op) => TokenView::BinOpEq(*op),
            Token::At => TokenView::At,
            Token::Dot => TokenView::Dot,
            Token::DotDot => TokenView::DotDot,
            Token::DotDotDot => TokenView::DotDotDot,
            Token::Comma => TokenView::Comma,
            Token::Semicolon => TokenView::Semicolon,
            Token::Colon => TokenView::Colon,
            Token::T_PAAMAYIM_NEKUDOTAYIM => TokenView::T_PAAMAYIM_NEKUDOTAYIM,
            Token::LArrow => TokenView::LArrow,
            Token::RArrow => TokenView::RArrow,
            Token::FatArrow => TokenView::FatArrow,
            Token::Octothorpe => TokenView::Octothorpe,
            Token::Dollar => TokenView::Dollar,
            Token::Eof => TokenView::Eof,
        }
    }
}

/// How many consecutive integer-part characters (digit or `_`) stand at `pos`.
pub open spec fn num_int_count(s: Seq<char>, pos: int) -> nat
    decreases s.len() - pos,
{
    if 0 <= pos && pos < s.len() && (is_digit(s[pos]) || s[pos] == '_') {
        1 + num_int_count(s, pos + 1)
    } else {
        0
    }
}

/// How many consecutive fraction-part characters (digit, `_` or a further
/// `.`) stand at `pos`. Extra embedded dots are accepted at this layer.
pub open spec fn num_frac_count(s: Seq<char>, pos: int) -> nat
    decreases s.len() - pos,
{
    if 0 <= pos && pos < s.len() && (is_digit(s[pos]) || s[pos] == '_' || s[pos] == '.') {
        1 + num_frac_count(s, pos + 1)
    } else {
        0
    }
}

/// How many characters stand at `pos` before the next `"`.
pub open spec fn str_body_count(s: Seq<char>, pos: int) -> nat
    decreases s.len() - pos,
{
    if 0 <= pos && pos < s.len() && s[pos] != '"' {
        1 + str_body_count(s, pos + 1)
    } else {
        0
    }
}

/// Whether a `"` stands anywhere at or after `pos`.
pub open spec fn has_close_quote(s: Seq<char>, pos: int) -> bool
    decreases s.len() - pos,
{
    if 0 <= pos && pos < s.len() {
        s[pos] == '"' || has_close_quote(s, pos + 1)
    } else {
        false
    }
}

/// The wording of a tokenising failure.
pub open spec fn lex_error_message(e: LexError) -> Seq<char> {
    match e {
        LexError::UnterminatedChar => "unterminated char literal"@,
        LexError::WrongCharClose(c) => "expected `'`, found `"@ + seq![c] + "`"@,
        LexError::UnterminatedString => "unterminated string literal"@,
        LexError::UnexpectedChar(c) => "unexpected char `"@ + seq![c] + "`"@,
    }
}

impl LexError {
    /// The failure, worded for a caller's report.
    pub fn message(&self) -> (r: String)
        ensures
            r@ == lex_error_message(*self),
    {
        match self {
            LexError::UnterminatedChar => "unterminated char literal".to_owned(),
            LexError::WrongCharClose(c) => {
                let mut s = "expected `'`, found `".to_owned();
                push_char(&mut s, *c);
                s.append("`");
                proof {
                    assert(s@ =~= lex_error_message(*self));
                }
                s
            },
            LexError::UnterminatedString => "unterminated string literal".to_owned(),
            LexError::UnexpectedChar(c) => {
                let mut s = "unexpected char `".to_owned();
                push_char(&mut s, *c);
                s.append("`");
                proof {
                    assert(s@ =~= lex_error_message(*self));
                }
                s
            },
        }
    }
}

/// What one tokenising step yields: a token and the cursor after it, the end
/// of the stream, or a fatal failure.
pub enum LexStep {
    Tok(TokenView, int),
    End,
    Fail(LexError),
}

/// The token scanned at `q`, a non-whitespace position inside the text.
/// Rules are ordered as the tokeniser tries them: punctuation (longest symbol
/// first), then identifiers and the reserved `true`/`false` spellings, then
/// character, string and number literals.
pub open spec fn scan_token(s: Seq<char>, q: int) -> LexStep {
    let c = s[q];
    let c2 = if q + 1 < s.len() {
        s[q + 1]
    } else {
        '\0'
    };
    let c3 = if q + 2 < s.len() {
        s[q + 2]
    } else {
        '\0'
    };
    if c == '(' {
        LexStep::Tok(TokenView::LParen, q + 1)
    } else if c == ')' {
        LexStep::Tok(TokenView::RParen, q + 1)
    } else if c == '[' {
        LexStep::Tok(TokenView::LSqbr, q + 1)
    } else if c == ']' {
        LexStep::Tok(TokenView::RSqbr, q + 1)
    } else if c == '{' {
        LexStep::Tok(TokenView::LBrace, q + 1)
    } else if c == '}' {
        LexStep::Tok(TokenView::RBrace, q + 1)
    } else if c == '=' {
        if c2 == '=' {
            LexStep::Tok(TokenView::EqEq, q + 2)
        } else if c2 == '>' {
            LexStep::Tok(TokenView::FatArrow, q + 2)
        } else {
            LexStep::Tok(TokenView::Eq, q + 1)
        }
    } else if c == '>' {
        if c2 == '=' {
            LexStep::Tok(TokenView::Ge, q + 2)
        } else if c2 == '>' {
            if c3 == '=' {
                LexStep::Tok(TokenView::BinOpEq(BinOp::ShiftRight), q + 3)
            } else {
                LexStep::Tok(TokenView::BinOp(BinOp::ShiftRight), q + 2)
            }
        } else {
            LexStep::Tok(TokenView::Gt, q + 1)
        }
    } else if c == '<' {
        if c2 == '=' {
            LexStep::Tok(TokenView::Le, q + 2)
        } else if c2 == '<' {
            if c3 == '=' {
                LexStep::Tok(TokenView::BinOpEq(BinOp::ShiftLeft), q + 3)
            } else {
                LexStep::Tok(TokenView::BinOp(BinOp::ShiftLeft), q + 2)
            }
        } else if c2 == '-' {
            LexStep::Tok(TokenView::LArrow, q + 2)
        } else {
            LexStep::Tok(TokenView::Lt, q + 1)
        }
    } else if c == '&' {
        if c2 == '&' {
            LexStep::Tok(TokenView::AndAnd, q + 2)
        } else if c2 == '=' {
            LexStep::Tok(TokenView::BinOpEq(BinOp::And), q + 2)
        } else {
            LexStep::Tok(TokenView::BinOp(BinOp::And), q + 1)
        }
    } else if c == '|' {
        if c2 == '|' {
            LexStep::Tok(TokenView::OrOr, q + 2)
        } else if c2 == '=' {
            LexStep::Tok(TokenView::BinOpEq(BinOp::Or), q + 2)
        } else {
            LexStep::Tok(TokenView::BinOp(BinOp::Or), q + 1)
        }
    } else if c == '^' {
        if c2 == '^' {
            LexStep::Tok(TokenView::XorXor, q + 2)
        } else if c2 == '=' {
            LexStep::Tok(TokenView::BinOpEq(BinOp::Xor), q + 2)
        } else {
            LexStep::Tok(TokenView::BinOp(BinOp::Xor), q + 1)
        }
    } else if c == '!' {
        LexStep::Tok(TokenView::Not, q + 1)
    } else if c == '~' {
        LexStep::Tok(TokenView::Tilde, q + 1)
    } else if c == '+' {
        if c2 == '=' {
            LexStep::Tok(TokenView::BinOpEq(BinOp::Plus), q + 2)
        } else {
            LexStep::Tok(TokenView::BinOp(BinOp::Plus), q + 1)
        }
    } else if c == '-' {
        if c2 == '=' {
            LexStep::Tok(TokenView::BinOpEq(BinOp::Minus), q + 2)
        } else if c2 == '>' {
            LexStep::Tok(TokenView::RArrow, q + 2)
        } else {
            LexStep::Tok(TokenView::BinOp(BinOp::Minus), q + 1)
        }
    } else if c == '*' {
        if c2 == '=' {
            LexStep::Tok(TokenView::BinOpEq(BinOp::Times), q + 2)
        } else {
            LexStep::Tok(TokenView::BinOp(BinOp::Times), q + 1)
        }
    } else if c == '/' {
        if c2 == '=' {
            LexStep::Tok(TokenView::BinOpEq(BinOp::Divide), q + 2)
        } else {
            LexStep::Tok(TokenView::BinOp(BinOp::Divide), q + 1)
        }
    } else if c == '%' {
        if c2 == '=' {
            LexStep::Tok(TokenView::BinOpEq(BinOp::Modulo), q + 2)
        } else {
            LexStep::Tok(TokenView::BinOp(BinOp::Modulo), q + 1)
        }
    } else if c == '@' {
        LexStep::Tok(TokenView::At, q + 1)
    } else if c == '.' {
        if c2 == '.' {
            if c3 == '.' {
                LexStep::Tok(TokenView::DotDotDot, q + 3)
            } else {
                LexStep::Tok(TokenView::DotDot, q + 2)
            }
        } else {
            LexStep::Tok(TokenView::Dot, q + 1)
        }
    } else if c == ',' {
        LexStep::Tok(TokenView::Comma, q + 1)
    } else if c == ';' {
        LexStep::Tok(TokenView::Semicolon, q + 1)
    } else if c == ':' {
        if c2 == ':' {
            LexStep::Tok(TokenView::T_PAAMAYIM_NEKUDOTAYIM, q + 2)
        } else {
            LexStep::Tok(TokenView::Colon, q + 1)
        }
    } else if c == '#' {
        LexStep::Tok(TokenView::Octothorpe, q + 1)
    } else if c == '$' {
        LexStep::Tok(TokenView::Dollar, q + 1)
    } else if c == '_' || char_is_alphabetic(c) {
        let e = q + 1 + ident_count(s, q + 1);
        let text = s.subrange(q, e);
        if text == "true"@ {
            LexStep::Tok(TokenView::LitBool(true), e)
        } else if text == "false"@ {
            LexStep::Tok(TokenView::LitBool(false), e)
        } else {
            LexStep::Tok(TokenView::Ident(text), e)
        }
    } else if c == '\'' {
        if q + 1 >= s.len() {
            LexStep::Fail(LexError::UnterminatedChar)
        } else if q + 2 >= s.len() {
            LexStep::Fail(LexError::UnterminatedChar)
        } else if s[q + 2] == '\'' {
            LexStep::Tok(TokenView::LitChar(s[q + 1]), q + 3)
        } else {
            LexStep::Fail(LexError::WrongCharClose(s[q + 2]))
        }
    } else if c == '"' {
        if has_close_quote(s, q + 1) {
            let e = q + 1 + str_body_count(s, q + 1);
            LexStep::Tok(TokenView::LitStr(s.subrange(q + 1, e)), e + 1)
        } else {
            LexStep::Fail(LexError::UnterminatedString)
        }
    } else if is_digit(c) {
        let e1 = q + 1 + num_int_count(s, q + 1);
        let ipart = s.subrange(q, e1);
        if e1 < s.len() && s[e1] == '.' {
            let e2 = e1 + 1 + num_frac_count(s, e1 + 1);
            LexStep::Tok(TokenView::LitNum(ipart, s.subrange(e1 + 1, e2)), e2)
        } else {
            LexStep::Tok(TokenView::LitNum(ipart, Seq::empty()), e1)
        }
    } else {
        LexStep::Fail(LexError::UnexpectedChar(c))
    }
}

/// What one call of `Tokens::next` yields from cursor `pos`: skip whitespace,
/// then scan one token.
pub open spec fn spec_next(s: Seq<char>, pos: int) -> LexStep {
    let q = pos + ws_count(s, pos);
    if q >= s.len() {
        LexStep::End
    } else {
        scan_token(s, q)
    }
}

/// Advance past integer-part characters (digit or `_`).
fn scan_int_end(s: &str, pos: usize) -> (r: usize)
    requires
        pos <= s@.len(),
    ensures
        r == pos + num_int_count(s@, pos as int),
        r <= s@.len(),
{
    let n = s.unicode_len();
    let mut i = pos;
    while i < n && (is_digit_char(s.get_char(i)) || s.get_char(i) == '_')
        invariant
            pos <= i <= n,
            n == s@.len(),
            pos + num_int_count(s@, pos as int) == i + num_int_count(s@, i as int),
        decreases n - i,
    {
        i = i + 1;
    }
    i
}

/// Advance past fraction-part characters (digit, `_` or `.`).
fn scan_frac_end(s: &str, pos: usize) -> (r: usize)
    requires
        pos <= s@.len(),
    ensures
        r == pos + num_frac_count(s@, pos as int),
        r <= s@.len(),
{
    let n = s.unicode_len();
    let mut i = pos;
    while i < n && (is_digit_char(s.get_char(i)) || s.get_char(i) == '_' || s.get_char(i) == '.')
        invariant
            pos <= i <= n,
            n == s@.len(),
            pos + num_frac_count(s@, pos as int) == i + num_frac_count(s@, i as int),
        decreases n - i,
    {
        i = i + 1;
    }
    i
}

/// A lazy token stream over a borrowed text buffer. The cursor only ever
/// moves forward; the starting offset is fixed at construction.
pub struct Tokens<'a> {
    text: &'a str,
    pos: usize,
}

impl<'a> Tokens<'a> {
    /// The text being tokenised.
    pub closed spec fn stream(&self) -> Seq<char> {
        self.text@
    }

    /// The index of the next character to scan.
    pub closed spec fn cursor(&self) -> int {
        self.pos as int
    }

    /// The cursor never leaves the text.
    pub closed spec fn inv(&self) -> bool {
        self.pos <= self.text@.len()
    }

    /// A token stream over `text`, starting at its beginning.
    pub fn from_str(text: &'a str) -> (r: Tokens<'a>)
        ensures
            r.stream() == text@,
            r.cursor() == 0,
            r.inv(),
    {
        Tokens { text, pos: 0 }
    }

    /// The character at `pos`, or nothing past the end of the text.
    pub fn char_at(&self, pos: usize) -> (r: Option<char>)
        ensures
            r == if pos < self.stream().len() {
                Some(self.stream()[pos as int])
            } else {
                None::<char>
            },
    {
        if pos >= self.text.unicode_len() {
            None
        } else {
            Some(self.text.get_char(pos))
        }
    }

    /// The character at `pos` together with the position after it, or nothing
    /// past the end of the text.
    pub fn char_range_at(&self, pos: usize) -> (r: Option<(char, usize)>)
        ensures
            r == if pos < self.stream().len() {
                Some((self.stream()[pos as int], (pos + 1) as usize))
            } else {
                None::<(char, usize)>
            },
    {
        if pos >= self.text.unicode_len() {
            None
        } else {
            Some((self.text.get_char(pos), pos + 1))
        }
    }

    /// Scan the next token. Returns `Ok(Some(_))` and advances the cursor
    /// past the token, `Ok(None)` once the rest of the text is whitespace,
    /// and `Err(_)` for a malformed literal or an uncovered character, after
    /// which the stream is exhausted for good. The cursor never rewinds.
    pub fn next(&mut self) -> (r: Result<Option<Token>, LexError>)
        requires
            old(self).inv(),
        ensures
            final(self).inv(),
            final(self).stream() == old(self).stream(),
            old(self).cursor() <= final(self).cursor(),
            match spec_next(old(self).stream(), old(self).cursor()) {
                LexStep::Tok(tv, p) => r matches Ok(Some(t)) && t@ == tv && final(self).cursor()
                    == p,
                LexStep::End => r == Ok::<Option<Token>, LexError>(None) && final(self).cursor()
                    == final(self).stream().len(),
                LexStep::Fail(e) => r == Err::<Option<Token>, LexError>(e) && final(self).cursor()
                    == final(self).stream().len(),
            },
    {
        let text = self.text;
        let n = text.unicode_len();
        let q = skip_ws(text, self.pos);
        if q >= n {
            self.pos = n;
            return Ok(None);
        }
        let c = text.get_char(q);
        let c2 = if q + 1 < n {
            text.get_char(q + 1)
        } else {
            '\0'
        };
        if c == '(' {
            self.pos = q + 1;
            Ok(Some(Token::LParen))
        } else if c == ')' {
            self.pos = q + 1;
            Ok(Some(Token::RParen))
        } else if c == '[' {
            self.pos = q + 1;
            Ok(Some(Token::LSqbr))
        } else if c == ']' {
            self.pos = q + 1;
            Ok(Some(Token::RSqbr))
        } else if c == '{' {
            self.pos = q + 1;
            Ok(Some(Token::LBrace))
        } else if c == '}' {
            self.pos = q + 1;
            Ok(Some(Token::RBrace))
        } else if c == '=' {
            if c2 == '=' {
                self.pos = q + 2;
                Ok(Some(Token::EqEq))
            } else if c2 == '>' {
                self.pos = q + 2;
                Ok(Some(Token::FatArrow))
            } else {
                self.pos = q + 1;
                Ok(Some(Token::Eq))
            }
        } else if c == '>' {
            if c2 == '=' {
                self.pos = q + 2;
                Ok(Some(Token::Ge))
            } else if c2 == '>' {
                let c3 = if q + 2 < n {
                    text.get_char(q + 2)
                } else {
                    '\0'
                };
                if c3 == '=' {
                    self.pos = q + 3;
                    Ok(Some(Token::BinOpEq(BinOp::ShiftRight)))
                } else {
                    self.pos = q + 2;
                    Ok(Some(Token::BinOp(BinOp::ShiftRight)))
                }
            } else {
                self.pos = q + 1;
                Ok(Some(Token::Gt))
            }
        } else if c == '<' {
            if c2 == '=' {
                self.pos = q + 2;
                Ok(Some(Token::Le))
            } else if c2 == '<' {
                let c3 = if q + 2 < n {
                    text.get_char(q + 2)
                } else {
                    '\0'
                };
                if c3 == '=' {
                    self.pos = q + 3;
                    Ok(Some(Token::BinOpEq(BinOp::ShiftLeft)))
                } else {
                    self.pos = q + 2;
                    Ok(Some(Token::BinOp(BinOp::ShiftLeft)))
                }
            } else if c2 == '-' {
                self.pos = q + 2;
                Ok(Some(Token::LArrow))
            } else {
                self.pos = q + 1;
                Ok(Some(Token::Lt))
            }
        } else if c == '&' {
            if c2 == '&' {
                self.pos = q + 2;
                Ok(Some(Token::AndAnd))
            } else if c2 == '=' {
                self.pos = q + 2;
                Ok(Some(Token::BinOpEq(BinOp::And)))
            } else {
                self.pos = q + 1;
                Ok(Some(Token::BinOp(BinOp::And)))
            }
        } else if c == '|' {
            if c2 == '|' {
                self.pos = q + 2;
                Ok(Some(Token::OrOr))
            } else if c2 == '=' {
                self.pos = q + 2;
                Ok(Some(Token::BinOpEq(BinOp::Or)))
            } else {
                self.pos = q + 1;
                Ok(Some(Token::BinOp(BinOp::Or)))
            }
        } else if c == '^' {
            if c2 == '^' {
                self.pos = q + 2;
                Ok(Some(Token::XorXor))
            } else if c2 == '=' {
                self.pos = q + 2;
                Ok(Some(Token::BinOpEq(BinOp::Xor)))
            } else {
                self.pos = q + 1;
                Ok(Some(Token::BinOp(BinOp::Xor)))
            }
        } else if c == '!' {
            self.pos = q + 1;
            Ok(Some(Token::Not))
        } else if c == '~' {
            self.pos = q + 1;
            Ok(Some(Token::Tilde))
        } else if c == '+' {
            if c2 == '=' {
                self.pos = q + 2;
                Ok(Some(Token::BinOpEq(BinOp::Plus)))
            } else {
                self.pos = q + 1;
                Ok(Some(Token::BinOp(BinOp::Plus)))
            }
        } else if c == '-' {
            if c2 == '=' {
                self.pos = q + 2;
                Ok(Some(Token::BinOpEq(BinOp::Minus)))
            } else if c2 == '>' {
                self.pos = q + 2;
                Ok(Some(Token::RArrow))
            } else {
                self.pos = q + 1;
                Ok(Some(Token::BinOp(BinOp::Minus)))
            }
        } else if c == '*' {
            if c2 == '=' {
                self.pos = q + 2;
                Ok(Some(Token::BinOpEq(BinOp::Times)))
            } else {
                self.pos = q + 1;
                Ok(Some(Token::BinOp(BinOp::Times)))
            }
        } else if c == '/' {
            if c2 == '=' {
                self.pos = q + 2;
                Ok(Some(Token::BinOpEq(BinOp::Divide)))
            } else {
                self.pos = q + 1;
                Ok(Some(Token::BinOp(BinOp::Divide)))
            }
        } else if c == '%' {
            if c2 == '=' {
                self.pos = q + 2;
                Ok(Some(Token::BinOpEq(BinOp::Modulo)))
            } else {
                self.pos = q + 1;
                Ok(Some(Token::BinOp(BinOp::Modulo)))
            }
        } else if c == '@' {
            self.pos = q + 1;
            Ok(Some(Token::At))
        } else if c == '.' {
            if c2 == '.' {
                let c3 = if q + 2 < n {
                    text.get_char(q + 2)
                } else {
                    '\0'
                };
                if c3 == '.' {
                    self.pos = q + 3;
                    Ok(Some(Token::DotDotDot))
                } else {
                    self.pos = q + 2;
                    Ok(Some(Token::DotDot))
                }
            } else {
                self.pos = q + 1;
                Ok(Some(Token::Dot))
            }
        } else if c == ',' {
            self.pos = q + 1;
            Ok(Some(Token::Comma))
        } else if c == ';' {
            self.pos = q + 1;
            Ok(Some(Token::Semicolon))
        } else if c == ':' {
            if c2 == ':' {
                self.pos = q + 2;
                Ok(Some(Token::T_PAAMAYIM_NEKUDOTAYIM))
            } else {
                self.pos = q + 1;
                Ok(Some(Token::Colon))
            }
        } else if c == '#' {
            self.pos = q + 1;
            Ok(Some(Token::Octothorpe))
        } else if c == '$' {
            self.pos = q + 1;
            Ok(Some(Token::Dollar))
        } else if c == '_' || is_alphabetic_char(c) {
            let e = scan_ident_end(text, q + 1);
            let word = text.substring_char(q, e).to_owned();
            self.pos = e;
            if string_eq_literal(&word, "true") {
                Ok(Some(Token::LitBool(true)))
            } else if string_eq_literal(&word, "false") {
                Ok(Some(Token::LitBool(false)))
            } else {
                Ok(Some(Token::Ident(word)))
            }
        } else if c == '\'' {
            if q + 1 >= n {
                self.pos = n;
                Err(LexError::UnterminatedChar)
            } else if q + 2 >= n {
                self.pos = n;
                Err(LexError::UnterminatedChar)
            } else {
                let close = text.get_char(q + 2);
                if close == '\'' {
                    let cc = text.get_char(q + 1);
                    self.pos = q + 3;
                    Ok(Some(Token::LitChar(cc)))
                } else {
                    self.pos = n;
                    Err(LexError::WrongCharClose(close))
                }
            }
        } else if c == '"' {
            let mut j = q + 1;
            while j < n && text.get_char(j) != '"'
                invariant
                    q + 1 <= j <= n,
                    n == text@.len(),
                    has_close_quote(text@, (q + 1) as int) == has_close_quote(text@, j as int),
                    (q + 1) + str_body_count(text@, (q + 1) as int) == j + str_body_count(
                        text@,
                        j as int,
                    ),
                decreases n - j,
            {
                j = j + 1;
            }
            if j >= n {
                self.pos = n;
                Err(LexError::UnterminatedString)
            } else {
                let body = text.substring_char(q + 1, j).to_owned();
                self.pos = j + 1;
                Ok(Some(Token::LitStr(body)))
            }
        } else if is_digit_char(c) {
            let e1 = scan_int_end(text, q + 1);
            let ipart = text.substring_char(q, e1).to_owned();
            if e1 < n && text.get_char(e1) == '.' {
                let e2 = scan_frac_end(text, e1 + 1);
                let fpart = text.substring_char(e1 + 1, e2).to_owned();
                self.pos = e2;
                Ok(Some(Token::LitNum(ipart, fpart)))
            } else {
                self.pos = e1;
                Ok(Some(Token::LitNum(ipart, String::new())))
            }
        } else {
            self.pos = n;
            Err(LexError::UnexpectedChar(c))
        }
    }
}

} // verus!

