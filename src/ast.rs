use vstd::prelude::*;

verus! {

/// The types of the source language. `Unknown` stands for a binding that no
/// annotation or checker has resolved.
#[derive(Debug, PartialEq)]
pub enum Type {
    Int,
    Float,
    String,
    Bool,
    Void,
    Array(Box<Type>),
    Unknown,
}

/// An expression; each compound node owns its children.
#[derive(Debug, PartialEq)]
pub enum Expr {
    Number(u64),
    String(String),
    Boolean(bool),
    Identifier(String),
    BinaryOp(Box<Expr>, String, Box<Expr>),
    UnaryOp(String, Box<Expr>),
    Call(String, Vec<Expr>),
    ArrayLiteral(Vec<Expr>),
    ArrayAccess(Box<Expr>, Box<Expr>),
    Ternary(Box<Expr>, Box<Expr>, Box<Expr>),
}

/// A statement; each compound node owns its children.
#[derive(Debug, PartialEq)]
pub enum Statement {
    Let(String, Option<Type>, Expr),
    Return(Option<Expr>),
    If(Expr, Vec<Statement>, Option<Vec<Statement>>),
    While(Expr, Vec<Statement>),
    For(String, Expr, Vec<Statement>),
    Function(String, Vec<(String, Type)>, Type, Vec<Statement>),
    Block(Vec<Statement>),
    Expr(Expr),
}

/// What an `Expr` holds, with names as sequences of characters and lists as
/// sequences.
pub enum ExprModel {
    Number(u64),
    String(Seq<char>),
    Boolean(bool),
    Identifier(Seq<char>),
    BinaryOp(Box<ExprModel>, Seq<char>, Box<ExprModel>),
    UnaryOp(Seq<char>, Box<ExprModel>),
    Call(Seq<char>, Seq<ExprModel>),
    ArrayLiteral(Seq<ExprModel>),
    ArrayAccess(Box<ExprModel>, Box<ExprModel>),
    Ternary(Box<ExprModel>, Box<ExprModel>, Box<ExprModel>),
}

/// What a `Statement` holds, in the same terms as `ExprModel`.
pub enum StatementModel {
    Let(Seq<char>, Option<Type>, ExprModel),
    Return(Option<ExprModel>),
    If(ExprModel, Seq<StatementModel>, Option<Seq<StatementModel>>),
    While(ExprModel, Seq<StatementModel>),
    For(Seq<char>, ExprModel, Seq<StatementModel>),
    Function(Seq<char>, Seq<(Seq<char>, Type)>, Type, Seq<StatementModel>),
    Block(Seq<StatementModel>),
    Expr(ExprModel),
}

impl Expr {
    pub open spec fn model(&self) -> ExprModel
        decreases self,
    {
        match self {
            Expr::Number(n) => ExprModel::Number(*n),
            Expr::String(s) => ExprModel::String(s@),
            Expr::Boolean(b) => ExprModel::Boolean(*b),
            Expr::Identifier(s) => ExprModel::Identifier(s@),
            Expr::BinaryOp(l, op, r) => ExprModel::BinaryOp(
                Box::new(l.model()),
                op@,
                Box::new(r.model()),
            ),
            Expr::UnaryOp(op, e) => ExprModel::UnaryOp(op@, Box::new(e.model())),
            Expr::Call(f, args) => ExprModel::Call(
                f@,
                Seq::new(
                    args.len() as nat,
                    |i: int|
                        if 0 <= i < args.len() {
                            args[i].model()
                        } else {
                            ExprModel::Number(0)
                        },
                ),
            ),
            Expr::ArrayLiteral(es) => ExprModel::ArrayLiteral(
                Seq::new(
                    es.len() as nat,
                    |i: int|
                        if 0 <= i < es.len() {
                            es[i].model()
                        } else {
                            ExprModel::Number(0)
                        },
                ),
            ),
            Expr::ArrayAccess(a, i) => ExprModel::ArrayAccess(
                Box::new(a.model()),
                Box::new(i.model()),
            ),
            Expr::Ternary(c, t, e) => ExprModel::Ternary(
                Box::new(c.model()),
                Box::new(t.model()),
                Box::new(e.model()),
            ),
        }
    }
}

pub open spec fn params_model(ps: Seq<(String, Type)>) -> Seq<(Seq<char>, Type)> {
    ps.map_values(|p: (String, Type)| (p.0@, p.1))
}

impl Statement {
    pub open spec fn model(&self) -> StatementModel
        decreases self,
    {
        match self {
            Statement::Let(n, t, e) => StatementModel::Let(n@, *t, e.model()),
            Statement::Return(e) => StatementModel::Return(
                match e {
                    Some(x) => Some(x.model()),
                    None => None,
                },
            ),
            Statement::If(c, t, e) => StatementModel::If(
                c.model(),
                Seq::new(
                    t.len() as nat,
                    |i: int|
                        if 0 <= i < t.len() {
                            t[i].model()
                        } else {
                            StatementModel::Block(Seq::empty())
                        },
                ),
                match e {
                    Some(b) => Some(
                        Seq::new(
                            b.len() as nat,
                            |i: int|
                                if 0 <= i < b.len() {
                                    b[i].model()
                                } else {
                                    StatementModel::Block(Seq::empty())
                                },
                        ),
                    ),
                    None => None,
                },
            ),
            Statement::While(c, b) => StatementModel::While(
                c.model(),
                Seq::new(
                    b.len() as nat,
                    |i: int|
                        if 0 <= i < b.len() {
                            b[i].model()
                        } else {
                            StatementModel::Block(Seq::empty())
                        },
                ),
            ),
            Statement::For(n, it, b) => StatementModel::For(
                n@,
                it.model(),
                Seq::new(
                    b.len() as nat,
                    |i: int|
                        if 0 <= i < b.len() {
                            b[i].model()
                        } else {
                            StatementModel::Block(Seq::empty())
                        },
                ),
            ),
            Statement::Function(n, ps, rt, b) => StatementModel::Function(
                n@,
                params_model(ps@),
                *rt,
                Seq::new(
                    b.len() as nat,
                    |i: int|
                        if 0 <= i < b.len() {
                            b[i].model()
                        } else {
                            StatementModel::Block(Seq::empty())
                        },
                ),
            ),
            Statement::Block(b) => StatementModel::Block(
                Seq::new(
                    b.len() as nat,
                    |i: int|
                        if 0 <= i < b.len() {
                            b[i].model()
                        } else {
                            StatementModel::Block(Seq::empty())
                        },
                ),
            ),
            Statement::Expr(e) => StatementModel::Expr(e.model()),
        }
    }
}

/// The models of a list of statements.
pub open spec fn statements_model(ss: Seq<Statement>) -> Seq<StatementModel> {
    ss.map_values(|s: Statement| s.model())
}

/// The models of a list of expressions.
pub open spec fn exprs_model(es: Seq<Expr>) -> Seq<ExprModel> {
    es.map_values(|e: Expr| e.model())
}

} // verus!
