//! The abstract syntax tree.
//!
//! Two closed families of nodes, expressions and statements, each owning its
//! children outright: the tree has no sharing and no cycles. Literal and
//! identifier text is carried as an owned copy of the lexeme. Beside each
//! executable node type stands its mathematical image (`SpecExpr`,
//! `SpecStmt`), which the parser's contracts speak of.

use vstd::prelude::*;

use crate::token::TokenName;

verus! {

/// Mathematical image of an expression node.
pub ghost enum SpecExpr {
    /// An identifier, by its name.
    Ident(Seq<char>),
    /// An integer literal, by its lexeme text.
    IntLiteral(Seq<char>),
    /// A float literal, by its lexeme text.
    FloatLiteral(Seq<char>),
    /// A string literal, by its interior text (quotes stripped).
    StringLiteral(Seq<char>),
    /// A prefix operator applied to an operand.
    Prefix(TokenName, Box<SpecExpr>),
    /// A binary operator applied to a left and a right operand.
    Infix(TokenName, Box<SpecExpr>, Box<SpecExpr>),
    /// A call of a named function on one argument.
    Call(Seq<char>, Box<SpecExpr>),
    /// An if-expression: condition, then-block, optional else-block.
    If(Box<SpecExpr>, Seq<SpecStmt>, Option<Seq<SpecStmt>>),
}

/// Mathematical image of a statement node.
pub ghost enum SpecStmt {
    /// `let name = value;`
    Let(Seq<char>, SpecExpr),
    /// `return value;`
    Return(SpecExpr),
    /// An expression in statement position.
    ExprStmt(SpecExpr),
    /// A brace-delimited, ordered sequence of statements.
    Block(Seq<SpecStmt>),
}

/// The kinds of expression nodes.
#[derive(Debug, PartialEq, Eq)]
pub enum ExprKind {
    /// An identifier, by its name.
    Ident(String),
    /// An integer literal, by its lexeme text.
    IntLiteral(String),
    /// A float literal, by its lexeme text.
    FloatLiteral(String),
    /// A string literal, by its interior text (quotes stripped).
    StringLiteral(String),
    /// A prefix operator applied to an operand.
    Prefix(TokenName, Box<Expr>),
    /// A binary operator applied to a left and a right operand.
    Infix(TokenName, Box<Expr>, Box<Expr>),
    /// A call of a named function on one argument.
    Call(String, Box<Expr>),
    /// An if-expression: condition, then-block, optional else-block.
    If(Box<Expr>, Vec<Stmt>, Option<Vec<Stmt>>),
}

/// An expression node.
#[derive(Debug, PartialEq, Eq)]
pub struct Expr {
    pub kind: ExprKind,
}

/// The kinds of statement nodes.
#[derive(Debug, PartialEq, Eq)]
pub enum StmtKind {
    /// `let name = value;`
    Let(String, Expr),
    /// `return value;`
    Return(Expr),
    /// An expression in statement position.
    ExprStmt(Expr),
    /// A brace-delimited, ordered sequence of statements.
    Block(Vec<Stmt>),
}

/// A statement node.
#[derive(Debug, PartialEq, Eq)]
pub struct Stmt {
    pub kind: StmtKind,
}

/// A parsed program: its top-level statements in source order.
#[derive(Debug, PartialEq, Eq)]
pub struct AST {
    pub nodes: Vec<Stmt>,
}

/// The mathematical image of an expression node.
pub open spec fn expr_view(e: Expr) -> SpecExpr
    decreases e,
{
    match e.kind {
        ExprKind::Ident(s) => SpecExpr::Ident(s@),
        ExprKind::IntLiteral(s) => SpecExpr::IntLiteral(s@),
        ExprKind::FloatLiteral(s) => SpecExpr::FloatLiteral(s@),
        ExprKind::StringLiteral(s) => SpecExpr::StringLiteral(s@),
        ExprKind::Prefix(op, inner) => SpecExpr::Prefix(op, Box::new(expr_view(*inner))),
        ExprKind::Infix(op, l, r) => SpecExpr::Infix(
            op,
            Box::new(expr_view(*l)),
            Box::new(expr_view(*r)),
        ),
        ExprKind::Call(name, arg) => SpecExpr::Call(name@, Box::new(expr_view(*arg))),
        ExprKind::If(cond, thn, els) => SpecExpr::If(
            Box::new(expr_view(*cond)),
            stmts_view(thn@),
            match els {
                Some(b) => Some(stmts_view(b@)),
                None => None,
            },
        ),
    }
}

/// The mathematical image of a statement node.
pub open spec fn stmt_view(s: Stmt) -> SpecStmt
    decreases s,
{
    match s.kind {
        StmtKind::Let(name, value) => SpecStmt::Let(name@, expr_view(value)),
        StmtKind::Return(value) => SpecStmt::Return(expr_view(value)),
        StmtKind::ExprStmt(e) => SpecStmt::ExprStmt(expr_view(e)),
        StmtKind::Block(stmts) => SpecStmt::Block(stmts_view(stmts@)),
    }
}

/// The mathematical image of a sequence of statement nodes.
pub open spec fn stmts_view(ss: Seq<Stmt>) -> Seq<SpecStmt>
    decreases ss,
{
    if ss.len() == 0 {
        Seq::empty()
    } else {
        seq![stmt_view(ss[0])] + stmts_view(ss.drop_first())
    }
}

/// `stmts_view` maps `stmt_view` over the sequence, index by index.
pub broadcast proof fn lemma_stmts_view(ss: Seq<Stmt>)
    ensures
        (#[trigger] stmts_view(ss)).len() == ss.len(),
        forall|i: int| 0 <= i < ss.len() ==> stmts_view(ss)[i] == stmt_view(ss[i]),
    decreases ss.len(),
{
    if ss.len() > 0 {
        lemma_stmts_view(ss.drop_first());
    }
}

/// Appending a statement appends its image.
pub proof fn lemma_stmts_view_push(ss: Seq<Stmt>, s: Stmt)
    ensures
        stmts_view(ss.push(s)) == stmts_view(ss).push(stmt_view(s)),
{
    lemma_stmts_view(ss);
    lemma_stmts_view(ss.push(s));
    assert(stmts_view(ss.push(s)) =~= stmts_view(ss).push(stmt_view(s)));
}

impl View for Expr {
    type V = SpecExpr;

    open spec fn view(&self) -> SpecExpr {
        expr_view(*self)
    }
}

impl View for Stmt {
    type V = SpecStmt;

    open spec fn view(&self) -> SpecStmt {
        stmt_view(*self)
    }
}

impl View for AST {
    type V = Seq<SpecStmt>;

    open spec fn view(&self) -> Seq<SpecStmt> {
        stmts_view(self.nodes@)
    }
}

} // verus!
