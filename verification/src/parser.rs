//! The FeO parser: a set of mutually recursive grammar functions that scan a
//! text buffer through an explicit cursor and build an abstract syntax tree
//! bottom-up.
//!
//! Grammar, in the order the rules are tried:
//!
//! - `stmts` := zero or more `expr` separated by `;`, with an optional
//!   trailing `;`. A trailing `;` makes the statement list end in an implicit
//!   empty tuple; its absence makes the last expression the list's value.
//! - `block` := `{` `stmts` `}`.
//! - `expr`  := `base`, followed by any number of parenthesised,
//!   comma-separated argument lists, left-associated into nested calls
//!   (`f(x)(y)` calls the result of `f(x)`).
//! - `base`  := a parenthesised `expr`, a number literal, a block, an `if`
//!   conditional, or an identifier (with `true` and `false` read as boolean
//!   literals).
//!
//! Whitespace is skipped between any two grammar tokens. Every failure
//! carries the offset of the first unconsumed or unexpected character.
//!
//! Two standing design decisions. The parser scans characters itself rather
//! than consuming the tokeniser's output: the two stages are deliberately
//! independent today (their scanning rules differ in places, such as
//! identifier start characters), and rebasing this grammar onto the token
//! stream is left as a future rework. And the mutually recursive grammar
//! functions place no bound of their own on nesting depth: input nested
//! deeply enough can exhaust the host's stack, an accepted resource bound.

use vstd::prelude::*;
use vstd::string::{StrSliceExecFns, StringExecFns};
use crate::ast::{
    lemma_view_exprs_empty, lemma_view_exprs_insert_front, view_expr, view_exprs, Ast, FeOExpr,
};
use crate::chars::{
    ident_count, is_ascii_alpha, is_ascii_alpha_char, is_digit, is_digit_char, is_ws, is_ws_char,
    push_char, scan_ident_end, skip_ws, string_eq_literal, ws_count,
};

verus! {

/// Why a parse failed. Each failure is reported with the offset it concerns.
#[derive(Debug, PartialEq, Eq, Clone, Copy)]
pub enum ErrKind {
    /// No grammar rule starts with this character.
    UnexpectedChar(char),
    /// Text remained after a syntactically complete parse.
    TrailingChar(char),
    /// One specific character was expected; another was found.
    Expected(char, char),
    /// One specific character was expected; the text ended first.
    ExpectedEof(char),
    /// `else` was followed by something other than `if` or a block.
    BadElse,
    /// A number literal held a second `.`.
    MalformedNumber,
    /// The text ended where an expression had to begin.
    UnexpectedEnd,
}

/// How many consecutive decimal digits stand at `pos`.
pub open spec fn digit_count(s: Seq<char>, pos: int) -> nat
    decreases s.len() - pos,
{
    if 0 <= pos && pos < s.len() && is_digit(s[pos]) {
        1 + digit_count(s, pos + 1)
    } else {
        0
    }
}

/// Whether the four characters `else` stand at `pos`.
pub open spec fn else_at(s: Seq<char>, pos: int) -> bool {
    &&& pos + 3 < s.len()
    &&& s[pos] == 'e'
    &&& s[pos + 1] == 'l'
    &&& s[pos + 2] == 's'
    &&& s[pos + 3] == 'e'
}

/// Characters left at `pos`: the termination measure of the grammar
/// functions.
pub open spec fn pmeasure(s: Seq<char>, pos: int) -> nat {
    if pos <= s.len() {
        (s.len() - pos) as nat
    } else {
        0
    }
}

/// `stmts`: expressions separated by `;`, ending at `}`, at the end of the
/// text, or at the first failure. Returns the statements parsed from `pos`
/// and how many characters they consumed. `any` says whether a statement was
/// already parsed and closed with `;` before `pos`: a statement list that
/// ends right after a `;` ends in an implicit empty tuple.
///
/// After a statement with no `;`, only `}` or the end of the text may follow:
/// that statement is the list's tail expression.
pub open spec fn spec_stmts(s: Seq<char>, pos: int, any: bool) -> Result<
    (Seq<Ast>, nat),
    (int, ErrKind),
>
    decreases pmeasure(s, pos), 3int,
{
    let w = ws_count(s, pos);
    let q = pos + w;
    if q >= s.len() {
        Ok(
            (
                if any {
                    seq![Ast::TupleLiteral(Seq::empty())]
                } else {
                    Seq::empty()
                },
                w,
            ),
        )
    } else if s[q] == '}' {
        Ok((seq![Ast::TupleLiteral(Seq::empty())], w))
    } else {
        match spec_expr(s, q) {
            Err(e) => Err(e),
            Ok((a, n)) => {
                let r = q + n;
                let w2 = ws_count(s, r);
                let r2 = r + w2;
                if r2 < s.len() && s[r2] == ';' {
                    match spec_stmts(s, r2 + 1, true) {
                        Err(e) => Err(e),
                        Ok((rest, m)) => Ok((seq![a] + rest, (w + n + w2 + 1 + m) as nat)),
                    }
                } else if r2 >= s.len() {
                    Ok((seq![a], (w + n + w2) as nat))
                } else if s[r2] == '}' {
                    Ok((seq![a], (w + n + w2) as nat))
                } else {
                    Err((r2, ErrKind::Expected('}', s[r2])))
                }
            },
        }
    }
}

/// `expr`: a `base`, followed by any number of argument lists, each wrapping
/// what stands before it in a further call. Trailing whitespace after the
/// expression is consumed.
pub open spec fn spec_expr(s: Seq<char>, pos: int) -> Result<(Ast, nat), (int, ErrKind)>
    decreases pmeasure(s, pos), 2int,
{
    match spec_base(s, pos) {
        Err(e) => Err(e),
        Ok((b, n)) => match spec_calls(s, pos + n, b) {
            Err(e) => Err(e),
            Ok((a, m)) => Ok((a, (n + m) as nat)),
        },
    }
}

/// The argument lists that follow an already-parsed callee, left-associated:
/// while a `(` follows, one list is read and `callee` becomes a call of it.
/// The whitespace before each check is consumed, so the end of an expression
/// always lies past its trailing whitespace.
pub open spec fn spec_calls(s: Seq<char>, pos: int, callee: Ast) -> Result<
    (Ast, nat),
    (int, ErrKind),
>
    decreases pmeasure(s, pos), 1int,
{
    let w = ws_count(s, pos);
    let q = pos + w;
    if q < s.len() && s[q] == '(' {
        match spec_args(s, q) {
            Err(e) => Err(e),
            Ok((args, m)) => {
                if m == 0 {
                    // never reached: an argument list consumes at least its
                    // parentheses
                    Err((q, ErrKind::UnexpectedEnd))
                } else {
                    match spec_calls(s, q + m, Ast::Call(Box::new(callee), args)) {
                        Err(e) => Err(e),
                        Ok((a, k)) => Ok((a, (w + m + k) as nat)),
                    }
                }
            },
        }
    } else {
        Ok((callee, w))
    }
}

/// An argument list from its opening `(` (or, recursively, from a `,`):
/// expressions separated by `,`, closed by `)`. A `,` directly before the
/// `)` is permitted.
pub open spec fn spec_args(s: Seq<char>, pos: int) -> Result<(Seq<Ast>, nat), (int, ErrKind)>
    decreases pmeasure(s, pos), 0int,
{
    if pos >= s.len() {
        // never reached: the list starts at its `(` or `,`, inside the text
        Err((pos, ErrKind::UnexpectedEnd))
    } else {
        let w = ws_count(s, pos + 1);
        let q = pos + 1 + w;
        if q < s.len() && s[q] == ')' {
            Ok((Seq::empty(), (1 + w + 1) as nat))
        } else {
            match spec_expr(s, q) {
                Err(e) => Err(e),
                Ok((a, n)) => {
                    let r = q + n;
                    let w2 = ws_count(s, r);
                    let r2 = r + w2;
                    if r2 < s.len() && s[r2] == ',' {
                        match spec_args(s, r2) {
                            Err(e) => Err(e),
                            Ok((rest, m)) => Ok((seq![a] + rest, (1 + w + n + w2 + m) as nat)),
                        }
                    } else if r2 < s.len() && s[r2] == ')' {
                        Ok((seq![a], (1 + w + n + w2 + 1) as nat))
                    } else if r2 < s.len() {
                        Err((r2, ErrKind::Expected(')', s[r2])))
                    } else {
                        Err((r2, ErrKind::ExpectedEof(')')))
                    }
                },
            }
        }
    }
}

/// `block`: `{` `stmts` `}`.
pub open spec fn spec_block(s: Seq<char>, pos: int) -> Result<(Ast, nat), (int, ErrKind)>
    decreases pmeasure(s, pos), 0int,
{
    if pos >= s.len() {
        Err((pos, ErrKind::ExpectedEof('{')))
    } else if s[pos] != '{' {
        Err((pos, ErrKind::Expected('{', s[pos])))
    } else {
        let w = ws_count(s, pos + 1);
        let q = pos + 1 + w;
        match spec_stmts(s, q, false) {
            Err(e) => Err(e),
            Ok((stmts, n)) => {
                let r = q + n;
                let w2 = ws_count(s, r);
                let r2 = r + w2;
                if r2 < s.len() && s[r2] == '}' {
                    Ok((Ast::Block(stmts), (1 + w + n + w2 + 1) as nat))
                } else if r2 < s.len() {
                    Err((r2, ErrKind::Expected('}', s[r2])))
                } else {
                    Err((r2, ErrKind::ExpectedEof('}')))
                }
            },
        }
    }
}

/// An `if` conditional, from the `i` of its `if`: a condition expression,
/// then a block, then an optional `else`. A written `else` must be followed
/// by a block or another `if` (which resolves a dangling `else` by nesting it
/// as this conditional's else branch); anything else is rejected where that
/// expression ended. An unwritten `else` becomes an empty tuple.
#[verifier::opaque]
pub open spec fn spec_cond(s: Seq<char>, pos: int) -> Result<(Ast, nat), (int, ErrKind)>
    decreases pmeasure(s, pos), 0int,
{
    if pos >= s.len() {
        // never reached: the conditional starts at its `if`, inside the text
        Err((pos, ErrKind::UnexpectedEnd))
    } else {
        let w0 = ws_count(s, pos + 2);
        let q1 = pos + 2 + w0;
        match spec_expr(s, q1) {
            Err(e) => Err(e),
            Ok((cond, n1)) => {
                let w1 = ws_count(s, q1 + n1);
                let q2 = q1 + n1 + w1;
                match spec_block(s, q2) {
                    Err(e) => Err(e),
                    Ok((yes, n2)) => {
                        let w2 = ws_count(s, q2 + n2);
                        let q3 = q2 + n2 + w2;
                        if else_at(s, q3) {
                            let w3 = ws_count(s, q3 + 4);
                            let q4 = q3 + 4 + w3;
                            match spec_expr(s, q4) {
                                Err(e) => Err(e),
                                Ok((no, n3)) => {
                                    if (no matches Ast::Block(_)) || (no matches Ast::Conditional(_, _, _)) {
                                        Ok(
                                            (
                                                Ast::Conditional(
                                                    Box::new(cond),
                                                    Box::new(yes),
                                                    Box::new(no),
                                                ),
                                                (2 + w0 + n1 + w1 + n2 + w2 + 4 + w3 + n3) as nat,
                                            ),
                                        )
                                    } else {
                                        Err((q4 + n3, ErrKind::BadElse))
                                    }
                                },
                            }
                        } else {
                            Ok(
                                (
                                    Ast::Conditional(
                                        Box::new(cond),
                                        Box::new(yes),
                                        Box::new(Ast::TupleLiteral(Seq::empty())),
                                    ),
                                    (2 + w0 + n1 + w1 + n2 + w2) as nat,
                                ),
                            )
                        }
                    },
                }
            },
        }
    }
}

/// `base`, the grammar's ground forms, tried in this order: a parenthesised
/// expression; a number literal, rejected with a positioned error when a
/// second `.` follows its fraction part; a block; an `if` conditional,
/// recognised only when whitespace follows the two characters `if` (so
/// `iffoo` stays one identifier); an identifier (a greedy scan of
/// alphanumeric and `_` characters), with the reserved spellings `true` and
/// `false` read as boolean literals; anything else fails.
///
/// An `if` takes a condition expression and a block; a written `else` must be
/// followed by a block or another `if`, and an unwritten one becomes an empty
/// tuple.
pub open spec fn spec_base(s: Seq<char>, pos: int) -> Result<(Ast, nat), (int, ErrKind)>
    decreases pmeasure(s, pos), 1int,
{
    if pos >= s.len() {
        Err((pos, ErrKind::UnexpectedEnd))
    } else {
        let c = s[pos];
        if c == '(' {
            let w = ws_count(s, pos + 1);
            let q = pos + 1 + w;
            match spec_expr(s, q) {
                Err(e) => Err(e),
                Ok((inner, n)) => {
                    let r = q + n;
                    if r < s.len() && s[r] == ')' {
                        Ok((inner, (1 + w + n + 1) as nat))
                    } else if r < s.len() {
                        Err((r, ErrKind::Expected(')', s[r])))
                    } else {
                        Err((r, ErrKind::ExpectedEof(')')))
                    }
                },
            }
        } else if is_digit(c) {
            let e1 = pos + 1 + digit_count(s, pos + 1);
            if e1 < s.len() && s[e1] == '.' {
                let e2 = e1 + 1 + digit_count(s, e1 + 1);
                if e2 < s.len() && s[e2] == '.' {
                    Err((e2, ErrKind::MalformedNumber))
                } else {
                    Ok(
                        (
                            Ast::NumLiteral(s.subrange(pos, e1), s.subrange(e1 + 1, e2)),
                            (1 + digit_count(s, pos + 1) + 1 + digit_count(s, e1 + 1)) as nat,
                        ),
                    )
                }
            } else {
                Ok(
                    (
                        Ast::NumLiteral(s.subrange(pos, e1), Seq::empty()),
                        (1 + digit_count(s, pos + 1)) as nat,
                    ),
                )
            }
        } else if c == '{' {
            spec_block(s, pos)
        } else if c == 'i' && pos + 2 < s.len() && s[pos + 1] == 'f' && is_ws(s[pos + 2]) {
            spec_cond(s, pos)
        } else if c == '_' || is_ascii_alpha(c) {
            let e = pos + 1 + ident_count(s, pos + 1);
            let word = s.subrange(pos, e);
            if word == "false"@ {
                Ok((Ast::BoolLiteral(false), (1 + ident_count(s, pos + 1)) as nat))
            } else if word == "true"@ {
                Ok((Ast::BoolLiteral(true), (1 + ident_count(s, pos + 1)) as nat))
            } else {
                Ok((Ast::Identifier(word), (1 + ident_count(s, pos + 1)) as nat))
            }
        } else {
            Err((pos, ErrKind::UnexpectedChar(c)))
        }
    }
}

/// The whole parse: the statements of the full text as one block. Text left
/// unconsumed after a syntactically complete prefix is itself an error.
pub open spec fn spec_parse(s: Seq<char>) -> Result<Ast, (int, ErrKind)> {
    match spec_stmts(s, 0, false) {
        Err(e) => Err(e),
        Ok((stmts, n)) => {
            if n < s.len() {
                Err((n as int, ErrKind::TrailingChar(s[n as int])))
            } else {
                Ok(Ast::Block(stmts))
            }
        },
    }
}

/// Law: parsing is deterministic. The same source text always parses to the
/// same result: there is no hidden randomness and no environment dependence.
pub proof fn lemma_parse_deterministic(s1: Seq<char>, s2: Seq<char>)
    requires
        s1 == s2,
    ensures
        spec_parse(s1) == spec_parse(s2),
{
}

/// The digit character for one decimal digit.
pub open spec fn dec_digit(d: nat) -> char {
    if d == 0 {
        '0'
    } else if d == 1 {
        '1'
    } else if d == 2 {
        '2'
    } else if d == 3 {
        '3'
    } else if d == 4 {
        '4'
    } else if d == 5 {
        '5'
    } else if d == 6 {
        '6'
    } else if d == 7 {
        '7'
    } else if d == 8 {
        '8'
    } else {
        '9'
    }
}

/// The decimal spelling of a number.
pub open spec fn dec_str(n: nat) -> Seq<char>
    decreases n,
{
    if n < 10 {
        seq![dec_digit(n)]
    } else {
        dec_str(n / 10).push(dec_digit(n % 10))
    }
}

/// The wording of one failure.
pub open spec fn err_detail(k: ErrKind) -> Seq<char> {
    match k {
        ErrKind::UnexpectedChar(c) => "unexpected char `"@ + seq![c] + "`"@,
        ErrKind::TrailingChar(c) => "unexpected char "@ + seq![c],
        ErrKind::Expected(e, f) => "expected `"@ + seq![e] + "`, found `"@ + seq![f] + "`"@,
        ErrKind::ExpectedEof(e) => "expected `"@ + seq![e] + "`, found EOF"@,
        ErrKind::BadElse => "`else` should be followed by `if` or a block"@,
        ErrKind::MalformedNumber => "malformed number literal"@,
        ErrKind::UnexpectedEnd => "unexpected EOF"@,
    }
}

/// The full message of one failure: its offset, then its wording.
pub open spec fn error_message(pos: int, k: ErrKind) -> Seq<char> {
    "pos "@ + dec_str(
        if pos >= 0 {
            pos as nat
        } else {
            0
        },
    ) + ": "@ + err_detail(k)
}

/// One decimal digit as text.
fn digit_str(d: usize) -> (r: &'static str)
    requires
        d < 10,
    ensures
        r@ == seq![dec_digit(d as nat)],
{
    let digits = "0123456789";
    proof {
        reveal_strlit("0123456789");
    }
    let r = digits.substring_char(d, d + 1);
    proof {
        assert(r@ =~= seq![dec_digit(d as nat)]);
    }
    r
}

/// The decimal spelling of an offset.
fn render_pos(n: usize) -> (s: String)
    ensures
        s@ == dec_str(n as nat),
    decreases n,
{
    if n < 10 {
        digit_str(n).to_owned()
    } else {
        let mut s = render_pos(n / 10);
        s.append(digit_str(n % 10));
        proof {
            assert(s@ =~= dec_str(n as nat));
        }
        s
    }
}

/// The full message of one failure, as `error_message` spells it.
fn render_error(pos: usize, k: ErrKind) -> (s: String)
    ensures
        s@ == error_message(pos as int, k),
{
    let mut s = "pos ".to_owned();
    let num = render_pos(pos);
    s.append(num.as_str());
    s.append(": ");
    match k {
        ErrKind::UnexpectedChar(c) => {
            s.append("unexpected char `");
            push_char(&mut s, c);
            s.append("`");
        },
        ErrKind::TrailingChar(c) => {
            s.append("unexpected char ");
            push_char(&mut s, c);
        },
        ErrKind::Expected(e, f) => {
            s.append("expected `");
            push_char(&mut s, e);
            s.append("`, found `");
            push_char(&mut s, f);
            s.append("`");
        },
        ErrKind::ExpectedEof(e) => {
            s.append("expected `");
            push_char(&mut s, e);
            s.append("`, found EOF");
        },
        ErrKind::BadElse => {
            s.append("`else` should be followed by `if` or a block");
        },
        ErrKind::MalformedNumber => {
            s.append("malformed number literal");
        },
        ErrKind::UnexpectedEnd => {
            s.append("unexpected EOF");
        },
    }
    proof {
        assert(s@ =~= error_message(pos as int, k));
    }
    s
}

/// Advance past decimal digits.
fn scan_digits(s: &str, pos: usize) -> (r: usize)
    requires
        pos <= s@.len(),
    ensures
        r == pos + digit_count(s@, pos as int),
        r <= s@.len(),
{
    let n = s.unicode_len();
    let mut i = pos;
    while i < n && is_digit_char(s.get_char(i))
        invariant
            pos <= i <= n,
            n == s@.len(),
            pos + digit_count(s@, pos as int) == i + digit_count(s@, i as int),
        decreases n - i,
    {
        i = i + 1;
    }
    i
}

/// Whether the four characters `else` stand at `pos`.
fn else_follows(s: &str, pos: usize) -> (r: bool)
    requires
        pos <= s@.len(),
    ensures
        r == else_at(s@, pos as int),
{
    let n = s.unicode_len();
    if pos < n && n - pos > 3 {
        s.get_char(pos) == 'e' && s.get_char(pos + 1) == 'l' && s.get_char(pos + 2) == 's'
            && s.get_char(pos + 3) == 'e'
    } else {
        false
    }
}

/// `stmts`, as `spec_stmts` describes it.
fn stmts(s: &str, pos: usize, any: bool) -> (r: Result<(Vec<FeOExpr>, usize), (usize, ErrKind)>)
    requires
        pos <= s@.len(),
    ensures
        match spec_stmts(s@, pos as int, any) {
            Ok((sts, m)) => r matches Ok((v, end)) && view_exprs(v@) == sts && end == pos + m
                && end <= s@.len(),
            Err((p, k)) => r matches Err((pe, ke)) && pe == p && ke == k,
        },
    decreases pmeasure(s@, pos as int), 3int,
{
    let n = s.unicode_len();
    let q = skip_ws(s, pos);
    if q >= n {
        let mut v: Vec<FeOExpr> = Vec::new();
        if any {
            v.push(FeOExpr::TupleLiteral(Vec::new()));
            proof {
                lemma_view_exprs_empty();
                assert(view_exprs(v@) =~= seq![Ast::TupleLiteral(Seq::<Ast>::empty())]);
            }
        } else {
            proof {
                lemma_view_exprs_empty();
            }
        }
        Ok((v, q))
    } else if s.get_char(q) == '}' {
        let mut v: Vec<FeOExpr> = Vec::new();
        v.push(FeOExpr::TupleLiteral(Vec::new()));
        proof {
            lemma_view_exprs_empty();
            assert(view_exprs(v@) =~= seq![Ast::TupleLiteral(Seq::<Ast>::empty())]);
        }
        Ok((v, q))
    } else {
        match expr(s, q) {
            Err(e) => Err(e),
            Ok((a, p1)) => {
                let r2 = skip_ws(s, p1);
                if r2 < n && s.get_char(r2) == ';' {
                    match stmts(s, r2 + 1, true) {
                        Err(e) => Err(e),
                        Ok((mut v, end)) => {
                            let ghost v0 = v@;
                            let ghost a0 = a;
                            v.insert(0, a);
                            proof {
                                lemma_view_exprs_insert_front(v0, a0);
                            }
                            Ok((v, end))
                        },
                    }
                } else if r2 >= n {
                    let mut v: Vec<FeOExpr> = Vec::new();
                    let ghost a0 = a;
                    v.push(a);
                    proof {
                        assert(view_exprs(v@) =~= seq![view_expr(a0)]);
                    }
                    Ok((v, r2))
                } else if s.get_char(r2) == '}' {
                    let mut v: Vec<FeOExpr> = Vec::new();
                    let ghost a0 = a;
                    v.push(a);
                    proof {
                        assert(view_exprs(v@) =~= seq![view_expr(a0)]);
                    }
                    Ok((v, r2))
                } else {
                    Err((r2, ErrKind::Expected('}', s.get_char(r2))))
                }
            },
        }
    }
}

/// `expr`, as `spec_expr` describes it.
fn expr(s: &str, pos: usize) -> (r: Result<(FeOExpr, usize), (usize, ErrKind)>)
    requires
        pos <= s@.len(),
    ensures
        match spec_expr(s@, pos as int) {
            Ok((a, m)) => r matches Ok((e, end)) && e@ == a && end == pos + m && end <= s@.len()
                && pos < end,
            Err((p, k)) => r matches Err((pe, ke)) && pe == p && ke == k,
        },
    decreases pmeasure(s@, pos as int), 2int,
{
    match base(s, pos) {
        Err(e) => Err(e),
        Ok((b, p1)) => calls(s, p1, b),
    }
}

/// The argument lists after a callee, as `spec_calls` describes them.
fn calls(s: &str, pos: usize, callee: FeOExpr) -> (r: Result<(FeOExpr, usize), (usize, ErrKind)>)
    requires
        pos <= s@.len(),
    ensures
        match spec_calls(s@, pos as int, view_expr(callee)) {
            Ok((a, m)) => r matches Ok((e, end)) && e@ == a && end == pos + m && end <= s@.len(),
            Err((p, k)) => r matches Err((pe, ke)) && pe == p && ke == k,
        },
    decreases pmeasure(s@, pos as int), 1int,
{
    let n = s.unicode_len();
    let q = skip_ws(s, pos);
    if q < n && s.get_char(q) == '(' {
        match call_args(s, q) {
            Err(e) => Err(e),
            Ok((args, end)) => calls(s, end, FeOExpr::Call(Box::new(callee), args)),
        }
    } else {
        Ok((callee, q))
    }
}

/// An argument list, as `spec_args` describes it.
fn call_args(s: &str, pos: usize) -> (r: Result<(Vec<FeOExpr>, usize), (usize, ErrKind)>)
    requires
        pos < s@.len(),
    ensures
        match spec_args(s@, pos as int) {
            Ok((aa, m)) => r matches Ok((v, end)) && view_exprs(v@) == aa && end == pos + m && end
                <= s@.len() && pos < end,
            Err((p, k)) => r matches Err((pe, ke)) && pe == p && ke == k,
        },
    decreases pmeasure(s@, pos as int), 0int,
{
    let n = s.unicode_len();
    let q = skip_ws(s, pos + 1);
    if q < n && s.get_char(q) == ')' {
        proof {
            lemma_view_exprs_empty();
        }
        Ok((Vec::new(), q + 1))
    } else {
        match expr(s, q) {
            Err(e) => Err(e),
            Ok((a, p1)) => {
                let r2 = skip_ws(s, p1);
                if r2 < n && s.get_char(r2) == ',' {
                    match call_args(s, r2) {
                        Err(e) => Err(e),
                        Ok((mut v, end)) => {
                            let ghost v0 = v@;
                            let ghost a0 = a;
                            v.insert(0, a);
                            proof {
                                lemma_view_exprs_insert_front(v0, a0);
                            }
                            Ok((v, end))
                        },
                    }
                } else if r2 < n && s.get_char(r2) == ')' {
                    let mut v: Vec<FeOExpr> = Vec::new();
                    let ghost a0 = a;
                    v.push(a);
                    proof {
                        assert(view_exprs(v@) =~= seq![view_expr(a0)]);
                    }
                    Ok((v, r2 + 1))
                } else if r2 < n {
                    Err((r2, ErrKind::Expected(')', s.get_char(r2))))
                } else {
                    Err((r2, ErrKind::ExpectedEof(')')))
                }
            },
        }
    }
}

/// `block`, as `spec_block` describes it.
fn block(s: &str, pos: usize) -> (r: Result<(FeOExpr, usize), (usize, ErrKind)>)
    requires
        pos <= s@.len(),
    ensures
        match spec_block(s@, pos as int) {
            Ok((a, m)) => r matches Ok((e, end)) && e@ == a && end == pos + m && end <= s@.len()
                && pos < end,
            Err((p, k)) => r matches Err((pe, ke)) && pe == p && ke == k,
        },
    decreases pmeasure(s@, pos as int), 0int,
{
    let n = s.unicode_len();
    if pos >= n {
        Err((pos, ErrKind::ExpectedEof('{')))
    } else if s.get_char(pos) != '{' {
        Err((pos, ErrKind::Expected('{', s.get_char(pos))))
    } else {
        let q = skip_ws(s, pos + 1);
        match stmts(s, q, false) {
            Err(e) => Err(e),
            Ok((v, p1)) => {
                let r2 = skip_ws(s, p1);
                if r2 < n && s.get_char(r2) == '}' {
                    Ok((FeOExpr::Block(v), r2 + 1))
                } else if r2 < n {
                    Err((r2, ErrKind::Expected('}', s.get_char(r2))))
                } else {
                    Err((r2, ErrKind::ExpectedEof('}')))
                }
            },
        }
    }
}

/// `base`, as `spec_base` describes it.
#[verifier::rlimit(50)]
fn base(s: &str, pos: usize) -> (r: Result<(FeOExpr, usize), (usize, ErrKind)>)
    requires
        pos <= s@.len(),
    ensures
        match spec_base(s@, pos as int) {
            Ok((a, m)) => r matches Ok((e, end)) && e@ == a && end == pos + m && end <= s@.len()
                && pos < end,
            Err((p, k)) => r matches Err((pe, ke)) && pe == p && ke == k,
        },
    decreases pmeasure(s@, pos as int), 1int,
{
    let n = s.unicode_len();
    if pos >= n {
        return Err((pos, ErrKind::UnexpectedEnd));
    }
    let c = s.get_char(pos);
    if c == '(' {
        let q = skip_ws(s, pos + 1);
        match expr(s, q) {
            Err(e) => Err(e),
            Ok((inner, p1)) => {
                if p1 < n && s.get_char(p1) == ')' {
                    Ok((inner, p1 + 1))
                } else if p1 < n {
                    Err((p1, ErrKind::Expected(')', s.get_char(p1))))
                } else {
                    Err((p1, ErrKind::ExpectedEof(')')))
                }
            },
        }
    } else if is_digit_char(c) {
        let e1 = scan_digits(s, pos + 1);
        if e1 < n && s.get_char(e1) == '.' {
            let e2 = scan_digits(s, e1 + 1);
            if e2 < n && s.get_char(e2) == '.' {
                Err((e2, ErrKind::MalformedNumber))
            } else {
                let ipart = s.substring_char(pos, e1).to_owned();
                let fpart = s.substring_char(e1 + 1, e2).to_owned();
                Ok((FeOExpr::NumLiteral(ipart, fpart), e2))
            }
        } else {
            let ipart = s.substring_char(pos, e1).to_owned();
            Ok((FeOExpr::NumLiteral(ipart, String::new()), e1))
        }
    } else if c == '{' {
        block(s, pos)
    } else if c == 'i' && pos + 1 < n && pos + 2 < n && s.get_char(pos + 1) == 'f'
        && is_ws_char(s.get_char(pos + 2)) {
        proof {
            reveal(spec_cond);
        }
        let q1 = skip_ws(s, pos + 2);
        match expr(s, q1) {
            Err(e) => Err(e),
            Ok((cond, p1)) => {
                let q2 = skip_ws(s, p1);
                match block(s, q2) {
                    Err(e) => Err(e),
                    Ok((yes, p2)) => {
                        let q3 = skip_ws(s, p2);
                        if else_follows(s, q3) {
                            let q4 = skip_ws(s, q3 + 4);
                            match expr(s, q4) {
                                Err(e) => Err(e),
                                Ok((no, p3)) => {
                                    let good = match &no {
                                        FeOExpr::Block(_) => true,
                                        FeOExpr::Conditional(_, _, _) => true,
                                        _ => false,
                                    };
                                    proof {
                                        assert(good == ((view_expr(no) matches Ast::Block(_)) || (
                                        view_expr(no) matches Ast::Conditional(_, _, _))));
                                    }
                                    if good {
                                        let ghost gc = cond;
                                        let ghost gy = yes;
                                        let ghost gn = no;
                                        let res = FeOExpr::Conditional(
                                            Box::new(cond),
                                            Box::new(yes),
                                            Box::new(no),
                                        );
                                        proof {
                                            assert(view_expr(res) == Ast::Conditional(
                                                Box::new(view_expr(gc)),
                                                Box::new(view_expr(gy)),
                                                Box::new(view_expr(gn)),
                                            ));
                                        }
                                        Ok((res, p3))
                                    } else {
                                        Err((p3, ErrKind::BadElse))
                                    }
                                },
                            }
                        } else {
                            let ghost gc = cond;
                            let ghost gy = yes;
                            let unit = FeOExpr::TupleLiteral(Vec::new());
                            let ghost gu = unit;
                            proof {
                                lemma_view_exprs_empty();
                                assert(view_expr(gu) == Ast::TupleLiteral(Seq::<Ast>::empty()));
                            }
                            let res = FeOExpr::Conditional(
                                Box::new(cond),
                                Box::new(yes),
                                Box::new(unit),
                            );
                            proof {
                                assert(view_expr(res) == Ast::Conditional(
                                    Box::new(view_expr(gc)),
                                    Box::new(view_expr(gy)),
                                    Box::new(Ast::TupleLiteral(Seq::<Ast>::empty())),
                                ));
                            }
                            Ok((res, q3))
                        }
                    },
                }
            },
        }
    } else if c == '_' || is_ascii_alpha_char(c) {
        let e = scan_ident_end(s, pos + 1);
        let word = s.substring_char(pos, e).to_owned();
        if string_eq_literal(&word, "false") {
            Ok((FeOExpr::BoolLiteral(false), e))
        } else if string_eq_literal(&word, "true") {
            Ok((FeOExpr::BoolLiteral(true), e))
        } else {
            Ok((FeOExpr::Identifier(word), e))
        }
    } else {
        Err((pos, ErrKind::UnexpectedChar(c)))
    }
}

/// Parse one full FeO source text. On success the result is the block of the
/// text's top-level statements; on failure, a message of the shape
/// `pos {N}: {detail}`, where `N` is the offset (in characters) of the first
/// unconsumed or unexpected character, as `error_message` spells it.
pub fn parse(text: &str) -> (r: Result<FeOExpr, String>)
    ensures
        match spec_parse(text@) {
            Ok(a) => r matches Ok(e) && e@ == a,
            Err((p, k)) => r matches Err(m) && m@ == error_message(p, k),
        },
{
    let n = text.unicode_len();
    match stmts(text, 0, false) {
        Err((p, k)) => Err(render_error(p, k)),
        Ok((v, end)) => {
            if end < n {
                let c = text.get_char(end);
                Err(render_error(end, ErrKind::TrailingChar(c)))
            } else {
                Ok(FeOExpr::Block(v))
            }
        },
    }
}

} // verus!
