//! The FeO abstract syntax tree and its mathematical model.

use vstd::prelude::*;

verus! {

/// One parsed FeO expression. The language is expression-oriented: blocks and
/// conditionals are expressions too. A number literal carries its integer-part
/// and fraction-part digit strings (the fraction part is empty when the source
/// wrote no `.`); evaluating it to a machine number is a later stage's task.
///
/// The grammar currently produces only `NumLiteral`, `BoolLiteral`,
/// `Identifier`, `TupleLiteral` (as the implicit empty-tuple value),
/// `Call`, `Conditional` and `Block`. The remaining variants belong to the
/// data model and can be built directly, but no parser production reaches
/// them yet.
#[derive(Debug, PartialEq, Eq)]
pub enum FeOExpr {
    /// String literal (e.g. `"hello world"`)
    StrLiteral(String),
    /// Number literal (e.g. `42` or `3.4`), split into integer part and
    /// fraction part
    NumLiteral(String, String),
    /// List literal (e.g. `[1, two, "three"]`)
    ListLiteral(Vec<FeOExpr>),
    /// Tuple literal (e.g. `(1, two, "three")`); the empty tuple is the
    /// canonical "nothing" value
    TupleLiteral(Vec<FeOExpr>),
    /// Boolean literal (e.g. `true`)
    BoolLiteral(bool),
    /// Identifier (e.g. `foo`)
    Identifier(String),
    /// Function call (e.g. `f(x, y, z)`)
    Call(Box<FeOExpr>, Vec<FeOExpr>),
    /// Subscription (e.g. `list[0]`)
    Index(Box<FeOExpr>, Box<FeOExpr>),
    /// Property lookup (e.g. `x.y`)
    Lookup(Box<FeOExpr>, String),
    /// Binary operation (e.g. `1 + 2`)
    BinOp(String, Box<FeOExpr>, Box<FeOExpr>),
    /// Unary operation (e.g. `-1`)
    UnrOp(String, Box<FeOExpr>),
    /// Variable declaration (e.g. `let x = 1`)
    Declare(String, Box<FeOExpr>),
    /// Variable assignment (e.g. `x = 2`)
    Assign(String, Box<FeOExpr>),
    /// Conditional (e.g. `if cond { 1 } else { 2 }`); the else branch is
    /// always present, an unwritten `else` becomes an empty tuple
    Conditional(Box<FeOExpr>, Box<FeOExpr>, Box<FeOExpr>),
    /// For-loop (e.g. `for i in list {}`)
    ForLoop(String, Box<FeOExpr>, Vec<FeOExpr>),
    /// While-loop (e.g. `while true {}`)
    WhileLoop(Box<FeOExpr>, Vec<FeOExpr>),
    /// Function declaration (e.g. `fn f(x) { x }`)
    FnDecl(String, Vec<String>, Vec<FeOExpr>),
    /// Class declaration (e.g. `class Cow: Animal {}`)
    ClassDecl(String, Vec<Box<FeOExpr>>, Vec<FeOExpr>),
    /// Block (e.g. `{ print(1); print(2) }`)
    Block(Vec<FeOExpr>),
    /// Nothing (parser bookkeeping; never the parse of non-empty input)
    Nothing,
}

/// The mathematical model of a `FeOExpr`: the same tree over `Seq` instead of
/// `String` and `Vec`. Contracts speak of this type.
pub enum Ast {
    StrLiteral(Seq<char>),
    NumLiteral(Seq<char>, Seq<char>),
    ListLiteral(Seq<Ast>),
    TupleLiteral(Seq<Ast>),
    BoolLiteral(bool),
    Identifier(Seq<char>),
    Call(Box<Ast>, Seq<Ast>),
    Index(Box<Ast>, Box<Ast>),
    Lookup(Box<Ast>, Seq<char>),
    BinOp(Seq<char>, Box<Ast>, Box<Ast>),
    UnrOp(Seq<char>, Box<Ast>),
    Declare(Seq<char>, Box<Ast>),
    Assign(Seq<char>, Box<Ast>),
    Conditional(Box<Ast>, Box<Ast>, Box<Ast>),
    ForLoop(Seq<char>, Box<Ast>, Seq<Ast>),
    WhileLoop(Box<Ast>, Seq<Ast>),
    FnDecl(Seq<char>, Seq<Seq<char>>, Seq<Ast>),
    ClassDecl(Seq<char>, Seq<Ast>, Seq<Ast>),
    Block(Seq<Ast>),
    Nothing,
}

/// The model of one expression.
pub open spec fn view_expr(e: FeOExpr) -> Ast
    decreases e,
{
    match e {
        FeOExpr::StrLiteral(s) => Ast::StrLiteral(s@),
        FeOExpr::NumLiteral(i, f) => Ast::NumLiteral(i@, f@),
        FeOExpr::ListLiteral(v) => Ast::ListLiteral(view_exprs(v@)),
        FeOExpr::TupleLiteral(v) => Ast::TupleLiteral(view_exprs(v@)),
        FeOExpr::BoolLiteral(b) => Ast::BoolLiteral(b),
        FeOExpr::Identifier(s) => Ast::Identifier(s@),
        FeOExpr::Call(f, args) => Ast::Call(Box::new(view_expr(*f)), view_exprs(args@)),
        FeOExpr::Index(t, i) => Ast::Index(Box::new(view_expr(*t)), Box::new(view_expr(*i))),
        FeOExpr::Lookup(t, name) => Ast::Lookup(Box::new(view_expr(*t)), name@),
        FeOExpr::BinOp(op, l, r) => Ast::BinOp(op@, Box::new(view_expr(*l)), Box::new(view_expr(*r))),
        FeOExpr::UnrOp(op, x) => Ast::UnrOp(op@, Box::new(view_expr(*x))),
        FeOExpr::Declare(name, x) => Ast::Declare(name@, Box::new(view_expr(*x))),
        FeOExpr::Assign(name, x) => Ast::Assign(name@, Box::new(view_expr(*x))),
        FeOExpr::Conditional(c, t, f) => Ast::Conditional(
            Box::new(view_expr(*c)),
            Box::new(view_expr(*t)),
            Box::new(view_expr(*f)),
        ),
        FeOExpr::ForLoop(name, it, body) => Ast::ForLoop(
            name@,
            Box::new(view_expr(*it)),
            view_exprs(body@),
        ),
        FeOExpr::WhileLoop(c, body) => Ast::WhileLoop(Box::new(view_expr(*c)), view_exprs(body@)),
        FeOExpr::FnDecl(name, params, body) => Ast::FnDecl(
            name@,
            Seq::new(params@.len(), |i: int| params@[i]@),
            view_exprs(body@),
        ),
        FeOExpr::ClassDecl(name, bases, body) => Ast::ClassDecl(
            name@,
            view_boxed_exprs(bases@),
            view_exprs(body@),
        ),
        FeOExpr::Block(v) => Ast::Block(view_exprs(v@)),
        FeOExpr::Nothing => Ast::Nothing,
    }
}

/// The model of a sequence of expressions, element by element.
pub open spec fn view_exprs(v: Seq<FeOExpr>) -> Seq<Ast>
    decreases v,
{
    Seq::new(
        v.len(),
        |i: int|
            if 0 <= i && i < v.len() {
                view_expr(v[i])
            } else {
                Ast::Nothing
            },
    )
}

/// The model of a sequence of boxed expressions, element by element.
pub open spec fn view_boxed_exprs(v: Seq<Box<FeOExpr>>) -> Seq<Ast>
    decreases v,
{
    Seq::new(
        v.len(),
        |i: int|
            if 0 <= i && i < v.len() {
                view_expr(*v[i])
            } else {
                Ast::Nothing
            },
    )
}

impl View for FeOExpr {
    type V = Ast;

    open spec fn view(&self) -> Ast {
        view_expr(*self)
    }
}

/// Viewing commutes with prepending one expression.
pub proof fn lemma_view_exprs_insert_front(v: Seq<FeOExpr>, e: FeOExpr)
    ensures
        view_exprs(v.insert(0, e)) == seq![view_expr(e)] + view_exprs(v),
{
    assert(view_exprs(v.insert(0, e)) =~= seq![view_expr(e)] + view_exprs(v));
}

pub proof fn lemma_view_exprs_empty()
    ensures
        view_exprs(Seq::<FeOExpr>::empty()) == Seq::<Ast>::empty(),
{
    assert(view_exprs(Seq::<FeOExpr>::empty()) =~= Seq::<Ast>::empty());
}

} // verus!
