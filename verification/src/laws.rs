//! Laws of the parser that relate whole parses, proved from the grammar
//! functions' definitions.

use vstd::prelude::*;
use crate::ast::Ast;
use crate::chars::{char_is_alphanumeric, ident_count, is_ws, ws_count};
use crate::parser::{
    digit_count, else_at, pmeasure, spec_args, spec_base, spec_block, spec_calls, spec_cond,
    spec_expr, spec_parse, spec_stmts, ErrKind,
};

verus! {

/// A grammar function's result, with its failure offset moved by `d`.
pub open spec fn shift_res<A>(d: int, r: Result<(A, nat), (int, ErrKind)>) -> Result<
    (A, nat),
    (int, ErrKind),
> {
    match r {
        Ok(x) => Ok(x),
        Err((p, k)) => Err((p + d, k)),
    }
}

/// A parse result, with its failure offset moved by `d`.
pub open spec fn shift_parse_res(d: int, r: Result<Ast, (int, ErrKind)>) -> Result<
    Ast,
    (int, ErrKind),
> {
    match r {
        Ok(a) => Ok(a),
        Err((p, k)) => Err((p + d, k)),
    }
}

/// Whitespace counting ignores what stands before the position.
proof fn lemma_ws_count_shift(t: Seq<char>, s: Seq<char>, p: int)
    requires
        p >= 0,
    ensures
        ws_count(t + s, t.len() + p) == ws_count(s, p),
    decreases s.len() - p,
{
    if p < s.len() {
        assert((t + s)[t.len() + p] == s[p]);
        if is_ws(s[p]) {
            lemma_ws_count_shift(t, s, p + 1);
        }
    }
}

/// Digit counting ignores what stands before the position.
proof fn lemma_digit_count_shift(t: Seq<char>, s: Seq<char>, p: int)
    requires
        p >= 0,
    ensures
        digit_count(t + s, t.len() + p) == digit_count(s, p),
    decreases s.len() - p,
{
    if p < s.len() {
        assert((t + s)[t.len() + p] == s[p]);
        if crate::chars::is_digit(s[p]) {
            lemma_digit_count_shift(t, s, p + 1);
        }
    }
}

/// Identifier-continuation counting ignores what stands before the position.
proof fn lemma_ident_count_shift(t: Seq<char>, s: Seq<char>, p: int)
    requires
        p >= 0,
    ensures
        ident_count(t + s, t.len() + p) == ident_count(s, p),
    decreases s.len() - p,
{
    if p < s.len() {
        assert((t + s)[t.len() + p] == s[p]);
        if s[p] == '_' || crate::chars::char_is_alphanumeric(s[p]) {
            lemma_ident_count_shift(t, s, p + 1);
        }
    }
}

/// A digit run ends within the text.
proof fn lemma_digit_count_bound(s: Seq<char>, p: int)
    requires
        0 <= p <= s.len(),
    ensures
        p + digit_count(s, p) <= s.len(),
    decreases s.len() - p,
{
    if p < s.len() && crate::chars::is_digit(s[p]) {
        lemma_digit_count_bound(s, p + 1);
    }
}

/// An identifier-continuation run ends within the text.
proof fn lemma_ident_count_bound(s: Seq<char>, p: int)
    requires
        0 <= p <= s.len(),
    ensures
        p + ident_count(s, p) <= s.len(),
    decreases s.len() - p,
{
    if p < s.len() && (s[p] == '_' || crate::chars::char_is_alphanumeric(s[p])) {
        lemma_ident_count_bound(s, p + 1);
    }
}

/// A slice of the suffix is the same slice at shifted positions.
proof fn lemma_subrange_shift(t: Seq<char>, s: Seq<char>, a: int, b: int)
    requires
        0 <= a <= b <= s.len(),
    ensures
        (t + s).subrange(t.len() + a, t.len() + b) == s.subrange(a, b),
{
    assert((t + s).subrange(t.len() + a, t.len() + b) =~= s.subrange(a, b));
}

/// Recognising `else` ignores what stands before the position.
proof fn lemma_else_at_shift(t: Seq<char>, s: Seq<char>, p: int)
    requires
        p >= 0,
    ensures
        else_at(t + s, t.len() + p) == else_at(s, p),
{
    if p + 3 < s.len() {
        assert((t + s)[t.len() + p] == s[p]);
        assert((t + s)[t.len() + p + 1] == s[p + 1]);
        assert((t + s)[t.len() + p + 2] == s[p + 2]);
        assert((t + s)[t.len() + p + 3] == s[p + 3]);
    }
}

/// `stmts` behaves at a shifted position in a longer text exactly as in the
/// suffix alone, its failures moved with the shift. The lemmas below say the
/// same of the other grammar functions, by mutual induction.
proof fn lemma_stmts_shift(t: Seq<char>, s: Seq<char>, pos: int, any: bool)
    requires
        pos >= 0,
    ensures
        spec_stmts(t + s, t.len() + pos, any) == shift_res(
            t.len() as int,
            spec_stmts(s, pos, any),
        ),
    decreases pmeasure(s, pos), 6int,
{
    let u = t + s;
    let d = t.len() as int;
    lemma_ws_count_shift(t, s, pos);
    let q = pos + ws_count(s, pos);
    if q >= s.len() {
    } else {
        assert(u[d + q] == s[q]);
        if s[q] == '}' {
        } else {
            lemma_expr_shift(t, s, q);
            match spec_expr(s, q) {
                Err(_) => {},
                Ok((a, n)) => {
                    let r = q + n;
                    lemma_ws_count_shift(t, s, r);
                    let r2 = r + ws_count(s, r);
                    if r2 < s.len() {
                        assert(u[d + r2] == s[r2]);
                    }
                    if r2 < s.len() && s[r2] == ';' {
                        lemma_stmts_shift(t, s, r2 + 1, true);
                    }
                },
            }
        }
    }
}

/// `expr` under a prefix: as `lemma_stmts_shift`.
proof fn lemma_expr_shift(t: Seq<char>, s: Seq<char>, pos: int)
    requires
        pos >= 0,
    ensures
        spec_expr(t + s, t.len() + pos) == shift_res(t.len() as int, spec_expr(s, pos)),
    decreases pmeasure(s, pos), 4int,
{
    lemma_base_shift(t, s, pos);
    match spec_base(s, pos) {
        Err(_) => {},
        Ok((b, n)) => {
            lemma_calls_shift(t, s, pos + n, b);
        },
    }
}

/// A callee's argument lists under a prefix: as `lemma_stmts_shift`.
proof fn lemma_calls_shift(t: Seq<char>, s: Seq<char>, pos: int, callee: Ast)
    requires
        pos >= 0,
    ensures
        spec_calls(t + s, t.len() + pos, callee) == shift_res(
            t.len() as int,
            spec_calls(s, pos, callee),
        ),
    decreases pmeasure(s, pos), 3int,
{
    let u = t + s;
    let d = t.len() as int;
    lemma_ws_count_shift(t, s, pos);
    let q = pos + ws_count(s, pos);
    if q < s.len() {
        assert(u[d + q] == s[q]);
    }
    if q < s.len() && s[q] == '(' {
        lemma_args_shift(t, s, q);
        match spec_args(s, q) {
            Err(_) => {},
            Ok((args, m)) => {
                if m != 0 {
                    lemma_calls_shift(t, s, q + m, Ast::Call(Box::new(callee), args));
                }
            },
        }
    }
}

/// An argument list under a prefix: as `lemma_stmts_shift`.
proof fn lemma_args_shift(t: Seq<char>, s: Seq<char>, pos: int)
    requires
        pos >= 0,
    ensures
        spec_args(t + s, t.len() + pos) == shift_res(t.len() as int, spec_args(s, pos)),
    decreases pmeasure(s, pos), 0int,
{
    let u = t + s;
    let d = t.len() as int;
    if pos >= s.len() {
    } else {
        lemma_ws_count_shift(t, s, pos + 1);
        let q = pos + 1 + ws_count(s, pos + 1);
        if q < s.len() {
            assert(u[d + q] == s[q]);
        }
        if q < s.len() && s[q] == ')' {
        } else {
            lemma_expr_shift(t, s, q);
            match spec_expr(s, q) {
                Err(_) => {},
                Ok((a, n)) => {
                    let r = q + n;
                    lemma_ws_count_shift(t, s, r);
                    let r2 = r + ws_count(s, r);
                    if r2 < s.len() {
                        assert(u[d + r2] == s[r2]);
                    }
                    if r2 < s.len() && s[r2] == ',' {
                        lemma_args_shift(t, s, r2);
                    }
                },
            }
        }
    }
}

/// `block` under a prefix: as `lemma_stmts_shift`.
#[verifier::rlimit(80)]
proof fn lemma_block_shift(t: Seq<char>, s: Seq<char>, pos: int)
    requires
        pos >= 0,
    ensures
        spec_block(t + s, t.len() + pos) == shift_res(t.len() as int, spec_block(s, pos)),
    decreases pmeasure(s, pos), 0int,
{
    let u = t + s;
    let d = t.len() as int;
    if pos >= s.len() {
    } else {
        assert(u[d + pos] == s[pos]);
        if s[pos] != '{' {
        } else {
            lemma_ws_count_shift(t, s, pos + 1);
            let q = pos + 1 + ws_count(s, pos + 1);
            lemma_stmts_shift(t, s, q, false);
            match spec_stmts(s, q, false) {
                Err(_) => {},
                Ok((sts, n)) => {
                    let r = q + n;
                    lemma_ws_count_shift(t, s, r);
                    let r2 = r + ws_count(s, r);
                    if r2 < s.len() {
                        assert(u[d + r2] == s[r2]);
                    }
                },
            }
        }
    }
}

/// The number-literal case of `base` under a prefix.
proof fn lemma_base_num_shift(t: Seq<char>, s: Seq<char>, pos: int)
    requires
        0 <= pos < s.len(),
        s[pos] != '(',
        crate::chars::is_digit(s[pos]),
    ensures
        spec_base(t + s, t.len() + pos) == shift_res(t.len() as int, spec_base(s, pos)),
{
    let u = t + s;
    let d = t.len() as int;
    assert(u[d + pos] == s[pos]);
    lemma_digit_count_shift(t, s, pos + 1);
    lemma_digit_count_bound(s, pos + 1);
    let e1 = pos + 1 + digit_count(s, pos + 1);
    lemma_subrange_shift(t, s, pos, e1);
    if e1 < s.len() {
        assert(u[d + e1] == s[e1]);
    }
    if e1 < s.len() && s[e1] == '.' {
        lemma_digit_count_shift(t, s, e1 + 1);
        lemma_digit_count_bound(s, e1 + 1);
        let e2 = e1 + 1 + digit_count(s, e1 + 1);
        lemma_subrange_shift(t, s, e1 + 1, e2);
        if e2 < s.len() {
            assert(u[d + e2] == s[e2]);
        }
    }
}

/// The identifier case of `base` under a prefix.
#[verifier::rlimit(50)]
proof fn lemma_base_word_shift(t: Seq<char>, s: Seq<char>, pos: int)
    requires
        0 <= pos < s.len(),
        s[pos] != '(',
        !crate::chars::is_digit(s[pos]),
        s[pos] != '{',
        !(s[pos] == 'i' && pos + 2 < s.len() && s[pos + 1] == 'f' && is_ws(s[pos + 2])),
        s[pos] == '_' || crate::chars::is_ascii_alpha(s[pos]),
    ensures
        spec_base(t + s, t.len() + pos) == shift_res(t.len() as int, spec_base(s, pos)),
{
    let u = t + s;
    let d = t.len() as int;
    assert(u[d + pos] == s[pos]);
    if pos + 1 < s.len() {
        assert(u[d + pos + 1] == s[pos + 1]);
    }
    if pos + 2 < s.len() {
        assert(u[d + pos + 2] == s[pos + 2]);
    }
    lemma_ident_count_shift(t, s, pos + 1);
    lemma_ident_count_bound(s, pos + 1);
    let e = pos + 1 + ident_count(s, pos + 1);
    lemma_subrange_shift(t, s, pos, e);
}

/// A conditional under a prefix: as `lemma_stmts_shift`.
#[verifier::rlimit(100)]
#[verifier::spinoff_prover]
proof fn lemma_cond_shift(t: Seq<char>, s: Seq<char>, pos: int)
    requires
        pos >= 0,
    ensures
        spec_cond(t + s, t.len() + pos) == shift_res(t.len() as int, spec_cond(s, pos)),
    decreases pmeasure(s, pos), 1int,
{
    reveal(spec_cond);
    if pos < s.len() {
        lemma_cond_shift_in_text(t, s, pos);
    }
}

/// The body of `lemma_cond_shift`, for a conditional inside the text.
#[verifier::rlimit(100)]
#[verifier::spinoff_prover]
proof fn lemma_cond_shift_in_text(t: Seq<char>, s: Seq<char>, pos: int)
    requires
        0 <= pos < s.len(),
    ensures
        spec_cond(t + s, t.len() + pos) == shift_res(t.len() as int, spec_cond(s, pos)),
    decreases pmeasure(s, pos), 0int,
{
    reveal(spec_cond);
    let u = t + s;
    let d = t.len() as int;
    let w0 = ws_count(s, pos + 2);
    lemma_ws_count_shift(t, s, pos + 2);
    assert(ws_count(u, d + pos + 2) == w0);
    let q1 = pos + 2 + w0;
    lemma_expr_shift(t, s, q1);
    match spec_expr(s, q1) {
        Err(e) => {
            assert(spec_cond(s, pos) == Err::<(Ast, nat), (int, ErrKind)>(e));
            assert(spec_cond(u, d + pos) == Err::<(Ast, nat), (int, ErrKind)>((e.0 + d, e.1)));
        },
        Ok((cond, n1)) => {
            let w1 = ws_count(s, q1 + n1);
            lemma_ws_count_shift(t, s, q1 + n1);
            assert(ws_count(u, d + q1 + n1) == w1);
            let q2 = q1 + n1 + w1;
            lemma_block_shift(t, s, q2);
            match spec_block(s, q2) {
                Err(e) => {
                    assert(spec_cond(s, pos) == Err::<(Ast, nat), (int, ErrKind)>(e));
                    assert(spec_cond(u, d + pos) == Err::<(Ast, nat), (int, ErrKind)>(
                        (e.0 + d, e.1),
                    ));
                },
                Ok((yes, n2)) => {
                    let w2 = ws_count(s, q2 + n2);
                    lemma_ws_count_shift(t, s, q2 + n2);
                    assert(ws_count(u, d + q2 + n2) == w2);
                    let q3 = q2 + n2 + w2;
                    lemma_else_at_shift(t, s, q3);
                    if else_at(s, q3) {
                        let w3 = ws_count(s, q3 + 4);
                        lemma_ws_count_shift(t, s, q3 + 4);
                        assert(ws_count(u, d + q3 + 4) == w3);
                        let q4 = q3 + 4 + w3;
                        lemma_expr_shift(t, s, q4);
                        match spec_expr(s, q4) {
                            Err(e) => {
                                assert(spec_cond(s, pos) == Err::<(Ast, nat), (int, ErrKind)>(e));
                                assert(spec_cond(u, d + pos) == Err::<(Ast, nat), (int, ErrKind)>(
                                    (e.0 + d, e.1),
                                ));
                            },
                            Ok((no, n3)) => {
                                if (no matches Ast::Block(_)) || (no matches Ast::Conditional(
                                    _,
                                    _,
                                    _,
                                )) {
                                    let res = Ast::Conditional(
                                        Box::new(cond),
                                        Box::new(yes),
                                        Box::new(no),
                                    );
                                    let k = (2 + w0 + n1 + w1 + n2 + w2 + 4 + w3 + n3) as nat;
                                    assert(spec_cond(s, pos) == Ok::<(Ast, nat), (int, ErrKind)>(
                                        (res, k),
                                    ));
                                    assert(spec_cond(u, d + pos) == Ok::<
                                        (Ast, nat),
                                        (int, ErrKind),
                                    >((res, k)));
                                } else {
                                    assert(spec_cond(s, pos) == Err::<(Ast, nat), (int, ErrKind)>(
                                        (q4 + n3, ErrKind::BadElse),
                                    ));
                                    assert(spec_cond(u, d + pos) == Err::<
                                        (Ast, nat),
                                        (int, ErrKind),
                                    >((d + q4 + n3, ErrKind::BadElse)));
                                }
                            },
                        }
                    } else {
                        let res = Ast::Conditional(
                            Box::new(cond),
                            Box::new(yes),
                            Box::new(Ast::TupleLiteral(Seq::empty())),
                        );
                        let k = (2 + w0 + n1 + w1 + n2 + w2) as nat;
                        assert(spec_cond(s, pos) == Ok::<(Ast, nat), (int, ErrKind)>((res, k)));
                        assert(spec_cond(u, d + pos) == Ok::<(Ast, nat), (int, ErrKind)>(
                            (res, k),
                        ));
                    }
                },
            }
        },
    }
}

/// `base` under a prefix: as `lemma_stmts_shift`.
#[verifier::rlimit(100)]
#[verifier::spinoff_prover]
proof fn lemma_base_shift(t: Seq<char>, s: Seq<char>, pos: int)
    requires
        pos >= 0,
    ensures
        spec_base(t + s, t.len() + pos) == shift_res(t.len() as int, spec_base(s, pos)),
    decreases pmeasure(s, pos), 2int,
{
    let u = t + s;
    let d = t.len() as int;
    if pos >= s.len() {
    } else {
        assert(u[d + pos] == s[pos]);
        if pos + 1 < s.len() {
            assert(u[d + pos + 1] == s[pos + 1]);
        }
        if pos + 2 < s.len() {
            assert(u[d + pos + 2] == s[pos + 2]);
        }
        let c = s[pos];
        if c == '(' {
            lemma_ws_count_shift(t, s, pos + 1);
            let q = pos + 1 + ws_count(s, pos + 1);
            lemma_expr_shift(t, s, q);
            match spec_expr(s, q) {
                Err(_) => {},
                Ok((inner, n)) => {
                    let r = q + n;
                    if r < s.len() {
                        assert(u[d + r] == s[r]);
                    }
                },
            }
        } else if crate::chars::is_digit(c) {
            lemma_base_num_shift(t, s, pos);
        } else if c == '{' {
            lemma_block_shift(t, s, pos);
        } else if c == 'i' && pos + 2 < s.len() && s[pos + 1] == 'f' && is_ws(s[pos + 2]) {
            lemma_cond_shift(t, s, pos);
        } else if c == '_' || crate::chars::is_ascii_alpha(c) {
            lemma_base_word_shift(t, s, pos);
        } else {
        }
    }
}

/// Counting whitespace through a run of whitespace reaches past it.
proof fn lemma_ws_count_run(u: Seq<char>, j: int, m: int)
    requires
        0 <= j <= m <= u.len(),
        forall|i: int| j <= i < m ==> is_ws(u[i]),
    ensures
        ws_count(u, j) == (m - j) + ws_count(u, m),
    decreases m - j,
{
    if j < m {
        assert(is_ws(u[j]));
        lemma_ws_count_run(u, j + 1, m);
    }
}

/// Two starting points whose whitespace skips land on the same spot give the
/// same statements; only the consumed count differs.
proof fn lemma_stmts_skip(u: Seq<char>, p: int, any: bool)
    requires
        0 <= p,
        ws_count(u, 0) == p + ws_count(u, p),
    ensures
        match (spec_stmts(u, 0, any), spec_stmts(u, p, any)) {
            (Ok((x, n)), Ok((y, m))) => x == y && n == p + m,
            (Err(e), Err(f)) => e == f,
            _ => false,
        },
{
    let q: int = ws_count(u, 0) as int;
    assert(q == p + ws_count(u, p));
    if q >= u.len() {
    } else if u[q] == '}' {
    } else {
        match spec_expr(u, q) {
            Err(_) => {},
            Ok((a, n)) => {},
        }
    }
}

/// A run of plain whitespace: every character whitespace and none of them
/// alphanumeric (true of all Unicode whitespace; stated because the model
/// leaves `char::is_alphanumeric` uninterpreted).
spec fn plain_ws(t: Seq<char>) -> bool {
    forall|i: int| 0 <= i < t.len() ==> is_ws(#[trigger] t[i]) && !char_is_alphanumeric(t[i])
}

/// The text does not end in the two characters `if`. Appended whitespace
/// after such a tail genuinely changes the parse: `if` alone is an
/// identifier, while `if ` begins a conditional.
spec fn no_if_tail(s: Seq<char>) -> bool {
    !(s.len() >= 2 && s[s.len() - 2] == 'i' && s[s.len() - 1] == 'f')
}

/// Whitespace counting from the very end of the text.
proof fn lemma_ws_count_at_end(v: Seq<char>)
    ensures
        ws_count(v, v.len() as int) == 0,
{
}

/// `stmts` at the very end of the text.
proof fn lemma_stmts_at_end(v: Seq<char>, any: bool)
    ensures
        spec_stmts(v, v.len() as int, any) == Ok::<(Seq<Ast>, nat), (int, ErrKind)>(
            (
                if any {
                    seq![Ast::TupleLiteral(Seq::empty())]
                } else {
                    Seq::<Ast>::empty()
                },
                0,
            ),
        ),
{
}

/// `base` at the very end of the text.
proof fn lemma_base_at_end(v: Seq<char>)
    ensures
        spec_base(v, v.len() as int) == Err::<(Ast, nat), (int, ErrKind)>(
            (v.len() as int, ErrKind::UnexpectedEnd),
        ),
{
}

/// `expr` at the very end of the text.
proof fn lemma_expr_at_end(v: Seq<char>)
    ensures
        spec_expr(v, v.len() as int) == Err::<(Ast, nat), (int, ErrKind)>(
            (v.len() as int, ErrKind::UnexpectedEnd),
        ),
{
    lemma_base_at_end(v);
}

/// Argument-list chaining at the very end of the text.
proof fn lemma_calls_at_end(v: Seq<char>, callee: Ast)
    ensures
        spec_calls(v, v.len() as int, callee) == Ok::<(Ast, nat), (int, ErrKind)>((callee, 0)),
{
}

/// `block` at the very end of the text.
proof fn lemma_block_at_end(v: Seq<char>)
    ensures
        spec_block(v, v.len() as int) == Err::<(Ast, nat), (int, ErrKind)>(
            (v.len() as int, ErrKind::ExpectedEof('{')),
        ),
{
}

/// A slice that lies within the text ignores what is appended after it.
proof fn lemma_subrange_prefix(s: Seq<char>, t: Seq<char>, a: int, b: int)
    requires
        0 <= a <= b <= s.len(),
    ensures
        (s + t).subrange(a, b) == s.subrange(a, b),
{
    assert((s + t).subrange(a, b) =~= s.subrange(a, b));
}

/// A whitespace run stays within the text; the run's end is sharp.
proof fn lemma_ws_count_le(s: Seq<char>, p: int)
    requires
        0 <= p <= s.len(),
    ensures
        p + ws_count(s, p) <= s.len(),
    decreases s.len() - p,
{
    if p < s.len() && is_ws(s[p]) {
        lemma_ws_count_le(s, p + 1);
    }
}

/// Appending plain whitespace: a whitespace run that stopped inside the text
/// is unchanged; one that reached the text's end runs on to the appended
/// run's end.
proof fn lemma_ws_count_ext(t: Seq<char>, s: Seq<char>, p: int)
    requires
        plain_ws(t),
        0 <= p <= s.len(),
    ensures
        p + ws_count(s, p) < s.len() ==> ws_count(s + t, p) == ws_count(s, p),
        p + ws_count(s, p) == s.len() ==> p + ws_count(s + t, p) == s.len() + t.len(),
        p + ws_count(s, p) <= s.len(),
    decreases s.len() - p,
{
    lemma_ws_count_le(s, p);
    let u = s + t;
    if p < s.len() {
        assert(u[p] == s[p]);
        if is_ws(s[p]) {
            lemma_ws_count_ext(t, s, p + 1);
        }
    } else {
        assert forall|j: int| s.len() <= j < u.len() implies is_ws(u[j]) by {
            assert(u[j] == t[j - s.len()]);
        }
        lemma_ws_count_run(u, s.len() as int, u.len() as int);
        lemma_ws_count_at_end(u);
    }
}

/// Appending plain whitespace never lengthens a digit run.
proof fn lemma_digit_count_ext(t: Seq<char>, s: Seq<char>, p: int)
    requires
        plain_ws(t),
        0 <= p <= s.len(),
    ensures
        digit_count(s + t, p) == digit_count(s, p),
        p + digit_count(s, p) <= s.len(),
    decreases s.len() - p,
{
    let u = s + t;
    if p < s.len() {
        assert(u[p] == s[p]);
        if crate::chars::is_digit(s[p]) {
            lemma_digit_count_ext(t, s, p + 1);
        }
    } else {
        if (p as int) < u.len() {
            assert(u[p] == t[p - s.len()]);
            assert(is_ws(u[p]));
            assert(!crate::chars::is_digit(u[p]));
        }
    }
}

/// Appending plain whitespace never lengthens an identifier run.
proof fn lemma_ident_count_ext(t: Seq<char>, s: Seq<char>, p: int)
    requires
        plain_ws(t),
        0 <= p <= s.len(),
    ensures
        ident_count(s + t, p) == ident_count(s, p),
        p + ident_count(s, p) <= s.len(),
    decreases s.len() - p,
{
    let u = s + t;
    if p < s.len() {
        assert(u[p] == s[p]);
        if s[p] == '_' || crate::chars::char_is_alphanumeric(s[p]) {
            lemma_ident_count_ext(t, s, p + 1);
        }
    } else {
        if (p as int) < u.len() {
            assert(u[p] == t[p - s.len()]);
            assert(is_ws(u[p]) && !char_is_alphanumeric(u[p]));
            assert(u[p] != '_');
        }
    }
}

/// Appending plain whitespace cannot complete an `else`.
proof fn lemma_else_at_ext(t: Seq<char>, s: Seq<char>, p: int)
    requires
        plain_ws(t),
        0 <= p <= s.len(),
    ensures
        else_at(s + t, p) == else_at(s, p),
{
    let u = s + t;
    if p + 3 < s.len() {
        assert(u[p] == s[p]);
        assert(u[p + 1] == s[p + 1]);
        assert(u[p + 2] == s[p + 2]);
        assert(u[p + 3] == s[p + 3]);
    } else {
        if p + 3 < u.len() {
            if p >= s.len() {
                assert(u[p] == t[p - s.len()]);
                assert(is_ws(u[p]));
                assert(u[p] != 'e');
            } else if p + 1 >= s.len() {
                assert(u[p + 1] == t[p + 1 - s.len()]);
                assert(is_ws(u[p + 1]));
                assert(u[p + 1] != 'l');
            } else if p + 2 >= s.len() {
                assert(u[p + 2] == t[p + 2 - s.len()]);
                assert(is_ws(u[p + 2]));
                assert(u[p + 2] != 's');
            } else {
                assert(u[p + 3] == t[p + 3 - s.len()]);
                assert(is_ws(u[p + 3]));
                assert(u[p + 3] != 'e');
            }
        }
    }
}

/// `stmts` after appending plain whitespace: the parsed statements are
/// unchanged; the end either stays where it was (inside the text) or, where
/// the parse ran to the text's end, runs on to the appended run's end. The
/// lemmas below say the same of the other grammar functions, by mutual
/// induction.
proof fn lemma_stmts_ext(t: Seq<char>, s: Seq<char>, pos: int, any: bool)
    requires
        plain_ws(t),
        no_if_tail(s),
        0 <= pos <= s.len(),
    ensures
        match spec_stmts(s, pos, any) {
            Ok((a, n)) => (match spec_stmts(s + t, pos, any) {
                Ok((a2, n2)) => a2 == a && pos + n <= s.len() && ((pos + n < s.len() && n2 == n)
                    || (pos + n == s.len() && pos + n2 == s.len() + t.len())),
                Err(_) => false,
            }),
            Err(_) => spec_stmts(s + t, pos, any) is Err,
        },
    decreases pmeasure(s, pos), 6int,
{
    let u = s + t;
    lemma_ws_count_ext(t, s, pos);
    let w = ws_count(s, pos);
    let q = pos + w;
    if q == s.len() {
        // the whitespace run reaches the text's end: both sides stop there
    } else {
        assert(u[q] == s[q]);
        if s[q] == '}' {
        } else {
            lemma_expr_ext(t, s, q);
            match spec_expr(s, q) {
                Err(_) => {},
                Ok((a, n)) => {
                    let r = q + n;
                    if r < s.len() {
                        lemma_ws_count_ext(t, s, r);
                        let w2 = ws_count(s, r);
                        let r2 = r + w2;
                        if r2 == s.len() {
                        } else {
                            assert(u[r2] == s[r2]);
                            if s[r2] == ';' {
                                lemma_stmts_ext(t, s, r2 + 1, true);
                            }
                        }
                    } else {
                        lemma_ws_count_at_end(s);
                        lemma_ws_count_at_end(u);
                    }
                },
            }
        }
    }
}

/// `expr` after appending plain whitespace: as `lemma_stmts_ext`.
proof fn lemma_expr_ext(t: Seq<char>, s: Seq<char>, pos: int)
    requires
        plain_ws(t),
        no_if_tail(s),
        0 <= pos <= s.len(),
    ensures
        match spec_expr(s, pos) {
            Ok((a, n)) => (match spec_expr(s + t, pos) {
                Ok((a2, n2)) => a2 == a && pos + n <= s.len() && ((pos + n < s.len() && n2 == n)
                    || (pos + n == s.len() && pos + n2 == s.len() + t.len())),
                Err(_) => false,
            }),
            Err(_) => spec_expr(s + t, pos) is Err,
        },
    decreases pmeasure(s, pos), 4int,
{
    let u = s + t;
    lemma_base_ext(t, s, pos);
    match spec_base(s, pos) {
        Err(_) => {},
        Ok((b, n)) => {
            let n2 = spec_base(u, pos)->Ok_0.1;
            if n2 == n {
                lemma_calls_ext(t, s, pos + n, b);
            } else {
                // the base itself ran to the text's end and absorbed the run
                lemma_calls_at_end(s, b);
                lemma_calls_at_end(u, b);
            }
        },
    }
}

/// Argument-list chaining after appending plain whitespace: as
/// `lemma_stmts_ext`.
proof fn lemma_calls_ext(t: Seq<char>, s: Seq<char>, pos: int, callee: Ast)
    requires
        plain_ws(t),
        no_if_tail(s),
        0 <= pos <= s.len(),
    ensures
        match spec_calls(s, pos, callee) {
            Ok((a, n)) => (match spec_calls(s + t, pos, callee) {
                Ok((a2, n2)) => a2 == a && pos + n <= s.len() && ((pos + n < s.len() && n2 == n)
                    || (pos + n == s.len() && pos + n2 == s.len() + t.len())),
                Err(_) => false,
            }),
            Err(_) => spec_calls(s + t, pos, callee) is Err,
        },
    decreases pmeasure(s, pos), 3int,
{
    let u = s + t;
    lemma_ws_count_ext(t, s, pos);
    let w = ws_count(s, pos);
    let q = pos + w;
    if q == s.len() {
    } else {
        assert(u[q] == s[q]);
        if s[q] == '(' {
            lemma_args_ext(t, s, q);
            match spec_args(s, q) {
                Err(_) => {},
                Ok((args, m)) => {
                    if m != 0 {
                        lemma_calls_ext(t, s, q + m, Ast::Call(Box::new(callee), args));
                    }
                },
            }
        }
    }
}

/// An argument list after appending plain whitespace: unchanged, since it
/// ends at its `)` inside the text.
proof fn lemma_args_ext(t: Seq<char>, s: Seq<char>, pos: int)
    requires
        plain_ws(t),
        no_if_tail(s),
        0 <= pos < s.len(),
    ensures
        match spec_args(s, pos) {
            Ok((a, m)) => spec_args(s + t, pos) == Ok::<(Seq<Ast>, nat), (int, ErrKind)>((a, m))
                && pos + m <= s.len(),
            Err(_) => spec_args(s + t, pos) is Err,
        },
    decreases pmeasure(s, pos), 0int,
{
    let u = s + t;
    lemma_ws_count_ext(t, s, pos + 1);
    let w = ws_count(s, pos + 1);
    let q = pos + 1 + w;
    if q == s.len() {
        lemma_expr_at_end(s);
        lemma_expr_at_end(u);
    } else {
        assert(u[q] == s[q]);
        if s[q] == ')' {
        } else {
            lemma_expr_ext(t, s, q);
            match spec_expr(s, q) {
                Err(_) => {},
                Ok((a, n)) => {
                    let r = q + n;
                    if r < s.len() {
                        lemma_ws_count_ext(t, s, r);
                        let w2 = ws_count(s, r);
                        let r2 = r + w2;
                        if r2 == s.len() {
                        } else {
                            assert(u[r2] == s[r2]);
                            if s[r2] == ',' {
                                lemma_args_ext(t, s, r2);
                            }
                        }
                    } else {
                        lemma_ws_count_at_end(s);
                        lemma_ws_count_at_end(u);
                    }
                },
            }
        }
    }
}

/// `block` after appending plain whitespace: unchanged, since it ends at its
/// `}` inside the text.
proof fn lemma_block_ext(t: Seq<char>, s: Seq<char>, pos: int)
    requires
        plain_ws(t),
        no_if_tail(s),
        0 <= pos <= s.len(),
    ensures
        match spec_block(s, pos) {
            Ok((a, m)) => spec_block(s + t, pos) == Ok::<(Ast, nat), (int, ErrKind)>((a, m)) && pos
                + m <= s.len(),
            Err(_) => spec_block(s + t, pos) is Err,
        },
    decreases pmeasure(s, pos), 0int,
{
    let u = s + t;
    if pos == s.len() {
        if (pos as int) < u.len() {
            assert(u[pos] == t[pos - s.len()]);
            assert(is_ws(u[pos]));
            assert(u[pos] != '{');
        }
    } else {
        assert(u[pos] == s[pos]);
        if s[pos] != '{' {
        } else {
            lemma_ws_count_ext(t, s, pos + 1);
            let w = ws_count(s, pos + 1);
            let q = pos + 1 + w;
            if q == s.len() {
                lemma_stmts_at_end(s, false);
                lemma_stmts_at_end(u, false);
                lemma_ws_count_at_end(s);
                lemma_ws_count_at_end(u);
            } else {
                lemma_stmts_ext(t, s, q, false);
                match spec_stmts(s, q, false) {
                    Err(_) => {},
                    Ok((sts, n)) => {
                        let r = q + n;
                        if r < s.len() {
                            lemma_ws_count_ext(t, s, r);
                            let w2 = ws_count(s, r);
                            let r2 = r + w2;
                            if r2 == s.len() {
                            } else {
                                assert(u[r2] == s[r2]);
                            }
                        } else {
                            lemma_ws_count_at_end(s);
                            lemma_ws_count_at_end(u);
                        }
                    },
                }
            }
        }
    }
}

/// `base` after appending plain whitespace: the value is unchanged; the end
/// stays where it was, except where an `if` conditional at the text's end
/// absorbed the run.
#[verifier::rlimit(100)]
#[verifier::spinoff_prover]
proof fn lemma_base_ext(t: Seq<char>, s: Seq<char>, pos: int)
    requires
        plain_ws(t),
        no_if_tail(s),
        0 <= pos <= s.len(),
    ensures
        match spec_base(s, pos) {
            Ok((a, n)) => (match spec_base(s + t, pos) {
                Ok((a2, n2)) => a2 == a && pos + n <= s.len() && (n2 == n || (pos + n == s.len()
                    && pos + n2 == s.len() + t.len())),
                Err(_) => false,
            }),
            Err(_) => spec_base(s + t, pos) is Err,
        },
    decreases pmeasure(s, pos), 2int,
{
    let u = s + t;
    if pos == s.len() {
        if (pos as int) < u.len() {
            assert(u[pos] == t[pos - s.len()]);
            assert(is_ws(u[pos]) && !char_is_alphanumeric(u[pos]));
            assert(u[pos] != '(');
            assert(!crate::chars::is_digit(u[pos]));
            assert(u[pos] != '{');
            assert(u[pos] != 'i');
            assert(u[pos] != '_');
            assert(!crate::chars::is_ascii_alpha(u[pos]));
        }
    } else {
        assert(u[pos] == s[pos]);
        if pos + 1 < s.len() {
            assert(u[pos + 1] == s[pos + 1]);
        }
        if pos + 2 < s.len() {
            assert(u[pos + 2] == s[pos + 2]);
        }
        let c = s[pos];
        if c == '(' {
            lemma_ws_count_ext(t, s, pos + 1);
            let w = ws_count(s, pos + 1);
            let q = pos + 1 + w;
            if q == s.len() {
                lemma_expr_at_end(s);
                lemma_expr_at_end(u);
            } else {
                lemma_expr_ext(t, s, q);
                match spec_expr(s, q) {
                    Err(_) => {},
                    Ok((inner, n)) => {
                        let r = q + n;
                        if r < s.len() {
                            assert(u[r] == s[r]);
                        }
                    },
                }
            }
        } else if crate::chars::is_digit(c) {
            lemma_digit_count_ext(t, s, pos + 1);
            let e1 = pos + 1 + digit_count(s, pos + 1);
            lemma_subrange_prefix(s, t, pos, e1);
            if e1 < s.len() {
                assert(u[e1] == s[e1]);
            } else if e1 < u.len() {
                assert(u[e1] == t[e1 - s.len()]);
                assert(is_ws(u[e1]));
                assert(u[e1] != '.');
            }
            if e1 < s.len() && s[e1] == '.' {
                lemma_digit_count_ext(t, s, e1 + 1);
                let e2 = e1 + 1 + digit_count(s, e1 + 1);
                lemma_subrange_prefix(s, t, e1 + 1, e2);
                if e2 < s.len() {
                    assert(u[e2] == s[e2]);
                } else if e2 < u.len() {
                    assert(u[e2] == t[e2 - s.len()]);
                    assert(is_ws(u[e2]));
                    assert(u[e2] != '.');
                }
            }
        } else if c == '{' {
            lemma_block_ext(t, s, pos);
        } else if c == 'i' && pos + 2 < s.len() && s[pos + 1] == 'f' && is_ws(s[pos + 2]) {
            lemma_cond_ext(t, s, pos);
        } else {
            if c == 'i' && pos + 2 >= s.len() {
                // the guard cannot come true on the longer text either
                if pos + 1 < s.len() && s[pos + 1] == 'f' {
                    // then the text would end in `if`
                    assert(false);
                }
                if pos + 1 >= s.len() && pos + 1 < u.len() {
                    assert(u[pos + 1] == t[pos + 1 - s.len()]);
                    assert(is_ws(u[pos + 1]));
                    assert(u[pos + 1] != 'f');
                }
            }
            if c == '_' || crate::chars::is_ascii_alpha(c) {
                lemma_ident_count_ext(t, s, pos + 1);
                let e = pos + 1 + ident_count(s, pos + 1);
                lemma_subrange_prefix(s, t, pos, e);
            }
        }
    }
}

/// An `if` conditional after appending plain whitespace: as
/// `lemma_stmts_ext`. A conditional at the text's end may absorb the run: its
/// unwritten-`else` form ends past the whitespace that follows its block.
#[verifier::rlimit(100)]
#[verifier::spinoff_prover]
proof fn lemma_cond_ext(t: Seq<char>, s: Seq<char>, pos: int)
    requires
        plain_ws(t),
        no_if_tail(s),
        0 <= pos,
        pos + 2 < s.len(),
    ensures
        match spec_cond(s, pos) {
            Ok((a, n)) => (match spec_cond(s + t, pos) {
                Ok((a2, n2)) => a2 == a && pos + n <= s.len() && ((pos + n < s.len() && n2 == n)
                    || (pos + n == s.len() && pos + n2 == s.len() + t.len())),
                Err(_) => false,
            }),
            Err(_) => spec_cond(s + t, pos) is Err,
        },
    decreases pmeasure(s, pos), 1int,
{
    reveal(spec_cond);
    let u = s + t;
    lemma_ws_count_ext(t, s, pos + 2);
    let w0 = ws_count(s, pos + 2);
    let q1 = pos + 2 + w0;
    if q1 == s.len() {
        lemma_expr_at_end(s);
        lemma_expr_at_end(u);
        assert(spec_cond(s, pos) is Err);
        assert(spec_cond(u, pos) is Err);
    } else {
        lemma_expr_ext(t, s, q1);
        match spec_expr(s, q1) {
            Err(_) => {
                assert(spec_cond(s, pos) is Err);
                assert(spec_cond(u, pos) is Err);
            },
            Ok((cond, n1)) => {
                let r1 = q1 + n1;
                if r1 == s.len() {
                    lemma_ws_count_at_end(s);
                    lemma_ws_count_at_end(u);
                    lemma_block_at_end(s);
                    lemma_block_at_end(u);
                    assert(spec_cond(s, pos) is Err);
                    assert(spec_cond(u, pos) is Err);
                } else {
                    lemma_ws_count_ext(t, s, r1);
                    let w1 = ws_count(s, r1);
                    let q2 = r1 + w1;
                    if q2 == s.len() {
                        lemma_block_at_end(s);
                        lemma_block_at_end(u);
                        assert(spec_cond(s, pos) is Err);
                        assert(spec_cond(u, pos) is Err);
                    } else {
                        lemma_block_ext(t, s, q2);
                        match spec_block(s, q2) {
                            Err(_) => {
                                assert(spec_cond(s, pos) is Err);
                                assert(spec_cond(u, pos) is Err);
                            },
                            Ok((yes, n2)) => {
                                let r2 = q2 + n2;
                                lemma_ws_count_ext(t, s, r2);
                                let w2 = ws_count(s, r2);
                                let q3 = r2 + w2;
                                if q3 == s.len() {
                                    // no `else` can follow: the conditional
                                    // absorbs the run
                                    assert(!else_at(s, q3));
                                    assert(!else_at(u, r2 + ws_count(u, r2)));
                                } else {
                                    assert(u[q3] == s[q3]);
                                    lemma_else_at_ext(t, s, q3);
                                    if else_at(s, q3) {
                                        lemma_ws_count_ext(t, s, q3 + 4);
                                        let w3 = ws_count(s, q3 + 4);
                                        let q4 = q3 + 4 + w3;
                                        if q4 == s.len() {
                                            lemma_expr_at_end(s);
                                            lemma_expr_at_end(u);
                                            assert(spec_cond(s, pos) is Err);
                                            assert(spec_cond(u, pos) is Err);
                                        } else {
                                            lemma_expr_ext(t, s, q4);
                                            match spec_expr(s, q4) {
                                                Err(_) => {
                                                    assert(spec_cond(s, pos) is Err);
                                                    assert(spec_cond(u, pos) is Err);
                                                },
                                                Ok((no, n3)) => {},
                                            }
                                        }
                                    }
                                }
                            },
                        }
                    }
                }
            },
        }
    }
}

/// Law (whitespace insensitivity at the text's start): prepending a run of
/// whitespace to a source text moves every failure offset by the run's length
/// and changes nothing else. In particular, a program that parses still
/// parses, to the same AST.
pub proof fn lemma_parse_leading_whitespace(t: Seq<char>, s: Seq<char>)
    requires
        forall|i: int| 0 <= i < t.len() ==> is_ws(t[i]),
    ensures
        spec_parse(t + s) == shift_parse_res(t.len() as int, spec_parse(s)),
{
    let u = t + s;
    let d = t.len() as int;
    lemma_stmts_shift(t, s, 0, false);
    assert forall|i: int| 0 <= i < d implies is_ws(u[i]) by {
        assert(u[i] == t[i]);
    }
    lemma_ws_count_run(u, 0, d);
    lemma_stmts_skip(u, d, false);
    match spec_stmts(s, 0, false) {
        Err(_) => {},
        Ok((sts, n)) => {
            if n < s.len() {
                assert(u[d + n] == s[n as int]);
            }
        },
    }
}

/// Law (whitespace insensitivity at the text's end): appending a run of
/// whitespace to a source text never changes what a successful parse yields,
/// and never turns success into failure or failure into success. Two genuine
/// exceptions are carved out by the hypotheses. The run's characters must not
/// be alphanumeric — true of every Unicode whitespace character, but
/// `char::is_alphanumeric` is uninterpreted here, so it must be said. And the
/// text must not end in the two characters `if`: there the grammar really is
/// whitespace-sensitive — `if` alone is an identifier, while `if ` begins a
/// conditional and fails.
pub proof fn lemma_parse_trailing_whitespace(s: Seq<char>, t: Seq<char>)
    requires
        forall|i: int| 0 <= i < t.len() ==> is_ws(#[trigger] t[i]) && !char_is_alphanumeric(t[i]),
        !(s.len() >= 2 && s[s.len() - 2] == 'i' && s[s.len() - 1] == 'f'),
    ensures
        (spec_parse(s + t) is Ok) == (spec_parse(s) is Ok),
        spec_parse(s) is Ok ==> spec_parse(s + t) == spec_parse(s),
{
    lemma_stmts_ext(t, s, 0, false);
    match spec_stmts(s, 0, false) {
        Err(_) => {},
        Ok((a, n)) => {
            if n < s.len() {
                // trailing text in both: the parse fails in both
            }
        },
    }
}

} // verus!
