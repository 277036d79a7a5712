use vstd::prelude::*;
use vstd::string::StringExecFns;
use crate::ast::{Expr, ExprModel, Statement, StatementModel, Type, exprs_model, params_model, statements_model};
use crate::errors::{Error, ErrorModel};
use crate::lexer::Token;

verus! {

/// What a production yields: its value and the tokens after it, or the
/// first syntax error.
pub type Parsed<T> = Result<(T, Seq<Token>), ErrorModel>;

pub open spec fn syntax(m: Seq<char>) -> ErrorModel {
    ErrorModel::Syntax(m)
}

pub open spec fn end_of_input() -> ErrorModel {
    syntax("Unexpected end of input"@)
}

/// Never produced: every production consumes at least one token, and the
/// grammar's repetitions test this so that their recursion has a measure.
pub open spec fn no_progress() -> ErrorModel {
    syntax("Parser made no progress"@)
}

pub open spec fn scalar_type_name(n: Seq<char>) -> Option<Type> {
    if n == "int"@ {
        Some(Type::Int)
    } else if n == "float"@ {
        Some(Type::Float)
    } else if n == "string"@ {
        Some(Type::String)
    } else if n == "bool"@ {
        Some(Type::Bool)
    } else if n == "void"@ {
        Some(Type::Void)
    } else {
        None
    }
}

/// Type: a type keyword, one of the names `int float string bool void`, or
/// `[` Type `]`.
pub open spec fn type_spec(ts: Seq<Token>) -> Parsed<Type>
    decreases ts.len(),
{
    if ts.len() == 0 {
        Err(end_of_input())
    } else {
        let rest = ts.drop_first();
        match ts[0] {
            Token::TypeInt => Ok((Type::Int, rest)),
            Token::TypeFloat => Ok((Type::Float, rest)),
            Token::TypeString => Ok((Type::String, rest)),
            Token::TypeBool => Ok((Type::Bool, rest)),
            Token::Identifier(n) => match scalar_type_name(n@) {
                Some(t) => Ok((t, rest)),
                None => Err(syntax("Unknown type: "@ + n@)),
            },
            Token::OpenBracket => match type_spec(rest) {
                Ok((t, r)) => if r.len() > 0 && r[0] is CloseBracket {
                    Ok((Type::Array(Box::new(t)), r.drop_first()))
                } else {
                    Err(syntax("Expected ']' after array type"@))
                },
                Err(e) => Err(e),
            },
            _ => Err(syntax("Expected type"@)),
        }
    }
}

/// Expr: a primary term, then optionally an operator and an Expr, which
/// makes a right-nested chain with no precedence between operators.
pub open spec fn expr_spec(ts: Seq<Token>) -> Parsed<ExprModel>
    decreases ts.len(), 2nat,
{
    match primary_spec(ts) {
        Err(e) => Err(e),
        Ok((l, r)) => if r.len() >= ts.len() {
            Err(no_progress())
        } else if r.len() > 0 && r[0] is Operator {
            match expr_spec(r.drop_first()) {
                Ok((rhs, r2)) => Ok(
                    (ExprModel::BinaryOp(Box::new(l), r[0]->Operator_0@, Box::new(rhs)), r2),
                ),
                Err(e) => Err(e),
            }
        } else {
            Ok((l, r))
        },
    }
}

/// A number, a string literal, an identifier (a call when `(` follows, an
/// array access when `[` follows), or an array literal.
pub open spec fn primary_spec(ts: Seq<Token>) -> Parsed<ExprModel>
    decreases ts.len(), 1nat,
{
    if ts.len() == 0 {
        Err(end_of_input())
    } else {
        let rest = ts.drop_first();
        match ts[0] {
            Token::Number(n) => Ok((ExprModel::Number(n), rest)),
            Token::StringLiteral(s) => Ok((ExprModel::String(s@), rest)),
            Token::Identifier(name) => if rest.len() > 0 && rest[0] is OpenParen {
                match args_spec(rest.drop_first()) {
                    Ok((args, r)) => Ok((ExprModel::Call(name@, args), r)),
                    Err(e) => Err(e),
                }
            } else if rest.len() > 0 && rest[0] is OpenBracket {
                match expr_spec(rest.drop_first()) {
                    Ok((idx, r)) => if r.len() > 0 && r[0] is CloseBracket {
                        Ok(
                            (
                                ExprModel::ArrayAccess(
                                    Box::new(ExprModel::Identifier(name@)),
                                    Box::new(idx),
                                ),
                                r.drop_first(),
                            ),
                        )
                    } else {
                        Err(syntax("Expected ']' after array index"@))
                    },
                    Err(e) => Err(e),
                }
            } else {
                Ok((ExprModel::Identifier(name@), rest))
            },
            Token::OpenBracket => match elems_spec(rest) {
                Ok((es, r)) => Ok((ExprModel::ArrayLiteral(es), r)),
                Err(e) => Err(e),
            },
            _ => Err(syntax("Unexpected token in expression"@)),
        }
    }
}

/// Call arguments up to and including `)`; commas between them are skipped.
pub open spec fn args_spec(ts: Seq<Token>) -> Parsed<Seq<ExprModel>>
    decreases ts.len(), 3nat,
{
    if ts.len() == 0 {
        Err(end_of_input())
    } else if ts[0] is CloseParen {
        Ok((Seq::empty(), ts.drop_first()))
    } else if ts[0] is Comma {
        args_spec(ts.drop_first())
    } else {
        match expr_spec(ts) {
            Ok((e, r)) => if r.len() >= ts.len() {
                Err(no_progress())
            } else {
                match args_spec(r) {
                    Ok((es, r2)) => Ok((seq![e] + es, r2)),
                    Err(err) => Err(err),
                }
            },
            Err(err) => Err(err),
        }
    }
}

/// Array literal elements up to and including `]`, each optionally followed
/// by a comma.
pub open spec fn elems_spec(ts: Seq<Token>) -> Parsed<Seq<ExprModel>>
    decreases ts.len(), 3nat,
{
    if ts.len() == 0 {
        Err(end_of_input())
    } else if ts[0] is CloseBracket {
        Ok((Seq::empty(), ts.drop_first()))
    } else {
        match expr_spec(ts) {
            Ok((e, r)) => if r.len() >= ts.len() {
                Err(no_progress())
            } else {
                let r1 = if r.len() > 0 && r[0] is Comma {
                    r.drop_first()
                } else {
                    r
                };
                match elems_spec(r1) {
                    Ok((es, r2)) => Ok((seq![e] + es, r2)),
                    Err(err) => Err(err),
                }
            },
            Err(err) => Err(err),
        }
    }
}

pub open spec fn is_assign(t: Token) -> bool {
    t is Operator && t->Operator_0@ == "="@
}

/// The rest of a let-statement after its name and annotation: `=` Expr.
pub open spec fn let_init_spec(name: Seq<char>, ann: Option<Type>, r: Seq<Token>) -> Parsed<StatementModel> {
    if r.len() > 0 && is_assign(r[0]) {
        match expr_spec(r.drop_first()) {
            Ok((e, r2)) => Ok((StatementModel::Let(name, ann, e), r2)),
            Err(e) => Err(e),
        }
    } else {
        Err(syntax("Expected '=' in let statement"@))
    }
}

/// `let` Identifier [`:` Type] `=` Expr.
pub open spec fn let_spec(ts: Seq<Token>) -> Parsed<StatementModel> {
    let r0 = ts.drop_first();
    if ts.len() == 0 || r0.len() == 0 || !(r0[0] is Identifier) {
        Err(syntax("Expected identifier after 'let'"@))
    } else {
        let name = r0[0]->Identifier_0@;
        let r1 = r0.drop_first();
        if r1.len() > 0 && r1[0] is Colon {
            match type_spec(r1.drop_first()) {
                Ok((t, r2)) => let_init_spec(name, Some(t), r2),
                Err(e) => Err(e),
            }
        } else {
            let_init_spec(name, None, r1)
        }
    }
}

/// `ret` [Expr]: no value when `end` follows.
pub open spec fn ret_spec(ts: Seq<Token>) -> Parsed<StatementModel> {
    if ts.len() == 0 {
        Err(end_of_input())
    } else {
        let r0 = ts.drop_first();
        if r0.len() > 0 && r0[0] is End {
            Ok((StatementModel::Return(None), r0))
        } else {
            match expr_spec(r0) {
                Ok((e, r)) => Ok((StatementModel::Return(Some(e)), r)),
                Err(e) => Err(e),
            }
        }
    }
}

/// Function parameters up to and including `)`: each a name, an optional
/// `:` and a type, with one comma between two of them. `first` holds before
/// the first parameter, where no comma is expected.
pub open spec fn params_spec(ts: Seq<Token>, first: bool) -> Parsed<Seq<(Seq<char>, Type)>>
    decreases ts.len(),
{
    if ts.len() == 0 {
        Err(end_of_input())
    } else if ts[0] is CloseParen {
        Ok((Seq::empty(), ts.drop_first()))
    } else if !first && !(ts[0] is Comma) {
        Err(syntax("Expected ',' or ')' after parameter"@))
    } else {
        let r0 = if first {
            ts
        } else {
            ts.drop_first()
        };
        if !(r0.len() > 0 && r0[0] is Identifier) {
            Err(syntax("Expected parameter name"@))
        } else {
            let r1 = r0.drop_first();
            let r2 = if r1.len() > 0 && r1[0] is Colon {
                r1.drop_first()
            } else {
                r1
            };
            match type_spec(r2) {
                Ok((t, r3)) => if r3.len() >= ts.len() {
                    Err(no_progress())
                } else {
                    prepend_list(seq![(r0[0]->Identifier_0@, t)], params_spec(r3, false))
                },
                Err(e) => Err(e),
            }
        }
    }
}

/// Statements up to and including `end`; fails when the tokens run out
/// first.
pub open spec fn block_spec(ts: Seq<Token>) -> Parsed<Seq<StatementModel>>
    decreases ts.len(), 3nat,
{
    if ts.len() == 0 || ts[0] is Eof {
        Err(syntax("Unexpected EOF in block"@))
    } else if ts[0] is End {
        Ok((Seq::empty(), ts.drop_first()))
    } else {
        match stmt_spec(ts) {
            Ok((st, r)) => if r.len() >= ts.len() {
                Err(no_progress())
            } else {
                prepend_list(seq![st], block_spec(r))
            },
            Err(e) => Err(e),
        }
    }
}

/// The first branch of an if-statement: statements up to and including
/// `else` or `end`, and whether it was `else`.
pub open spec fn branch_spec(ts: Seq<Token>) -> Parsed<(Seq<StatementModel>, bool)>
    decreases ts.len(), 3nat,
{
    if ts.len() == 0 || ts[0] is Eof {
        Err(syntax("Unexpected EOF in block"@))
    } else if ts[0] is End {
        Ok(((Seq::empty(), false), ts.drop_first()))
    } else if ts[0] is Else {
        Ok(((Seq::empty(), true), ts.drop_first()))
    } else {
        match stmt_spec(ts) {
            Ok((st, r)) => if r.len() >= ts.len() {
                Err(no_progress())
            } else {
                prepend_branch(seq![st], branch_spec(r))
            },
            Err(e) => Err(e),
        }
    }
}

/// A statement, chosen by its first token; any other token starts an
/// expression statement.
pub open spec fn stmt_spec(ts: Seq<Token>) -> Parsed<StatementModel>
    decreases ts.len(), 2nat,
{
    if ts.len() == 0 {
        Err(end_of_input())
    } else {
        match ts[0] {
            Token::Let => let_spec(ts),
            Token::Return => ret_spec(ts),
            Token::If => if_spec(ts),
            Token::While => while_spec(ts),
            Token::For => for_spec(ts),
            Token::Fnc => fnc_spec(ts),
            _ => match expr_spec(ts) {
                Ok((e, r)) => Ok((StatementModel::Expr(e), r)),
                Err(e) => Err(e),
            },
        }
    }
}

/// `if` Expr `->` Statements (`end` | `else` Block).
pub open spec fn if_spec(ts: Seq<Token>) -> Parsed<StatementModel>
    decreases ts.len(), 1nat,
{
    if ts.len() == 0 {
        Err(end_of_input())
    } else {
        match expr_spec(ts.drop_first()) {
            Err(e) => Err(e),
            Ok((c, r1)) => if r1.len() >= ts.len() {
                Err(no_progress())
            } else if !(r1.len() > 0 && r1[0] is Arrow) {
                Err(syntax("Expected '->' after if condition"@))
            } else {
                match branch_spec(r1.drop_first()) {
                    Err(e) => Err(e),
                    Ok(((then, has_else), r2)) => if !has_else {
                        Ok((StatementModel::If(c, then, None), r2))
                    } else if r2.len() >= ts.len() {
                        Err(no_progress())
                    } else {
                        match block_spec(r2) {
                            Ok((els, r3)) => Ok((StatementModel::If(c, then, Some(els)), r3)),
                            Err(e) => Err(e),
                        }
                    },
                }
            },
        }
    }
}

/// `while` Expr `->` Block.
pub open spec fn while_spec(ts: Seq<Token>) -> Parsed<StatementModel>
    decreases ts.len(), 1nat,
{
    if ts.len() == 0 {
        Err(end_of_input())
    } else {
        match expr_spec(ts.drop_first()) {
            Err(e) => Err(e),
            Ok((c, r1)) => if r1.len() >= ts.len() {
                Err(no_progress())
            } else if !(r1.len() > 0 && r1[0] is Arrow) {
                Err(syntax("Expected '->' after while condition"@))
            } else {
                match block_spec(r1.drop_first()) {
                    Err(e) => Err(e),
                    Ok((body, r2)) => Ok((StatementModel::While(c, body), r2)),
                }
            },
        }
    }
}

/// `for` Identifier `in` Expr `->` Block, where `in` is an identifier.
pub open spec fn for_spec(ts: Seq<Token>) -> Parsed<StatementModel>
    decreases ts.len(), 1nat,
{
    let r0 = ts.drop_first();
    if ts.len() == 0 || r0.len() == 0 || !(r0[0] is Identifier) {
        Err(syntax("Expected identifier after 'for'"@))
    } else {
        let r1 = r0.drop_first();
        if !(r1.len() > 0 && r1[0] is Identifier && r1[0]->Identifier_0@ == "in"@) {
            Err(syntax("Expected 'in' after iterator in for loop"@))
        } else {
            match expr_spec(r1.drop_first()) {
                Err(e) => Err(e),
                Ok((it, r2)) => if r2.len() >= ts.len() {
                    Err(no_progress())
                } else if !(r2.len() > 0 && r2[0] is Arrow) {
                    Err(syntax("Expected '->' before for loop body"@))
                } else {
                    match block_spec(r2.drop_first()) {
                        Err(e) => Err(e),
                        Ok((body, r3)) => Ok((StatementModel::For(r0[0]->Identifier_0@, it, body), r3)),
                    }
                },
            }
        }
    }
}

/// `fnc` Identifier `(` Params `)` Type `->` Block.
pub open spec fn fnc_spec(ts: Seq<Token>) -> Parsed<StatementModel>
    decreases ts.len(), 1nat,
{
    let r0 = ts.drop_first();
    if ts.len() == 0 || r0.len() == 0 || !(r0[0] is Identifier) {
        Err(syntax("Expected function name after 'fnc'"@))
    } else {
        let r1 = r0.drop_first();
        if !(r1.len() > 0 && r1[0] is OpenParen) {
            Err(syntax("Expected '(' after function name"@))
        } else {
            match params_spec(r1.drop_first(), true) {
                Err(e) => Err(e),
                Ok((ps, r2)) => match type_spec(r2) {
                    Err(e) => Err(e),
                    Ok((rt, r3)) => if r3.len() >= ts.len() {
                        Err(no_progress())
                    } else if !(r3.len() > 0 && r3[0] is Arrow) {
                        Err(syntax("Expected '->' before function body"@))
                    } else {
                        match block_spec(r3.drop_first()) {
                            Err(e) => Err(e),
                            Ok((body, r4)) => Ok(
                                (StatementModel::Function(r0[0]->Identifier_0@, ps, rt, body), r4),
                            ),
                        }
                    },
                },
            }
        }
    }
}

/// Statements up to the end of the tokens or an `Eof` token, which is left
/// in place.
pub open spec fn program_spec(ts: Seq<Token>) -> Parsed<Seq<StatementModel>>
    decreases ts.len(),
{
    if ts.len() == 0 || ts[0] is Eof {
        Ok((Seq::empty(), ts))
    } else {
        match stmt_spec(ts) {
            Ok((st, r)) => if r.len() >= ts.len() {
                Err(no_progress())
            } else {
                prepend_list(seq![st], program_spec(r))
            },
            Err(e) => Err(e),
        }
    }
}

/// `p` put in front of the list that `r` yields, or the failure of `r`.
pub open spec fn prepend_list<M>(p: Seq<M>, r: Parsed<Seq<M>>) -> Parsed<Seq<M>> {
    match r {
        Ok((ms, rest)) => Ok((p + ms, rest)),
        Err(e) => Err(e),
    }
}

/// `p` put in front of the statements of a branch, or the failure of `r`.
pub open spec fn prepend_branch(p: Seq<StatementModel>, r: Parsed<(Seq<StatementModel>, bool)>) -> Parsed<
    (Seq<StatementModel>, bool),
> {
    match r {
        Ok(((ss, has_else), rest)) => Ok(((p + ss, has_else), rest)),
        Err(e) => Err(e),
    }
}

proof fn lemma_prepend_branch_push(p: Seq<StatementModel>, m: StatementModel, r: Parsed<(Seq<StatementModel>, bool)>)
    ensures
        prepend_branch(p.push(m), r) == prepend_branch(p, prepend_branch(seq![m], r)),
{
    if let Ok(((ss, e), rest)) = r {
        assert(p.push(m) + ss =~= p + (seq![m] + ss));
    }
}

proof fn lemma_prepend_list_push<M>(p: Seq<M>, m: M, r: Parsed<Seq<M>>)
    ensures
        prepend_list(p.push(m), r) == prepend_list(p, prepend_list(seq![m], r)),
{
    if let Ok((ms, rest)) = r {
        assert(p.push(m) + ms =~= p + (seq![m] + ms));
    }
}

fn syntax_error(m: &str) -> (e: Error)
    ensures
        e.model() == syntax(m@),
{
    Error::Syntax(String::from_str(m))
}

fn end_of_input_error() -> (e: Error)
    ensures
        e.model() == end_of_input(),
{
    syntax_error("Unexpected end of input")
}

/// Removes the first token and hands it back.
fn take_first(tokens: &mut Vec<Token>) -> (t: Token)
    requires
        old(tokens).len() > 0,
    ensures
        t == old(tokens)@[0],
        final(tokens)@ == old(tokens)@.drop_first(),
{
    let ghost ts = tokens@;
    let t = tokens.remove(0);
    assert(ts.remove(0) =~= ts.drop_first());
    t
}

/// Reads a type off the front of `tokens`: a type keyword, one of the names
/// `int float string bool void`, or `[` Type `]`.
pub fn parse_type(tokens: &mut Vec<Token>) -> (r: Result<Type, Error>)
    ensures
        match r {
            Ok(t) => type_spec(old(tokens)@) == Ok::<(Type, Seq<Token>), ErrorModel>((t, final(tokens)@))
                && final(tokens).len() < old(tokens).len(),
            Err(e) => type_spec(old(tokens)@) == Err::<(Type, Seq<Token>), ErrorModel>(e.model()),
        },
    decreases old(tokens).len(),
{
    if tokens.len() == 0 {
        return Err(end_of_input_error());
    }
    let first = take_first(tokens);
    match first {
        Token::TypeInt => Ok(Type::Int),
        Token::TypeFloat => Ok(Type::Float),
        Token::TypeString => Ok(Type::String),
        Token::TypeBool => Ok(Type::Bool),
        Token::Identifier(n) => {
            if n == String::from_str("int") {
                Ok(Type::Int)
            } else if n == String::from_str("float") {
                Ok(Type::Float)
            } else if n == String::from_str("string") {
                Ok(Type::String)
            } else if n == String::from_str("bool") {
                Ok(Type::Bool)
            } else if n == String::from_str("void") {
                Ok(Type::Void)
            } else {
                let mut m = String::from_str("Unknown type: ");
                m.append(n.as_str());
                Err(Error::Syntax(m))
            }
        },
        Token::OpenBracket => {
            let inner = match parse_type(tokens) {
                Ok(t) => t,
                Err(e) => return Err(e),
            };
            if tokens.len() > 0 && matches!(tokens[0], Token::CloseBracket) {
                let _ = take_first(tokens);
                Ok(Type::Array(Box::new(inner)))
            } else {
                Err(syntax_error("Expected ']' after array type"))
            }
        },
        _ => Err(syntax_error("Expected type")),
    }
}

/// Reads an expression off the front of `tokens`: a primary term, then
/// optionally an operator and a further expression, nested to the right.
pub fn parse_expr(tokens: &mut Vec<Token>) -> (r: Result<Expr, Error>)
    ensures
        match r {
            Ok(e) => expr_spec(old(tokens)@) == Ok::<(ExprModel, Seq<Token>), ErrorModel>((e.model(), final(tokens)@))
                && final(tokens).len() < old(tokens).len(),
            Err(e) => expr_spec(old(tokens)@) == Err::<(ExprModel, Seq<Token>), ErrorModel>(e.model()),
        },
    decreases old(tokens).len(), 2nat,
{
    let l = match parse_primary(tokens) {
        Ok(l) => l,
        Err(e) => return Err(e),
    };
    let op: Option<String> = if tokens.len() > 0 {
        match &tokens[0] {
            Token::Operator(o) => Some(o.clone()),
            _ => None,
        }
    } else {
        None
    };
    match op {
        None => Ok(l),
        Some(op) => {
            let _ = take_first(tokens);
            match parse_expr(tokens) {
                Ok(rhs) => Ok(Expr::BinaryOp(Box::new(l), op, Box::new(rhs))),
                Err(e) => Err(e),
            }
        },
    }
}

fn parse_primary(tokens: &mut Vec<Token>) -> (r: Result<Expr, Error>)
    ensures
        match r {
            Ok(e) => primary_spec(old(tokens)@) == Ok::<(ExprModel, Seq<Token>), ErrorModel>((e.model(), final(tokens)@))
                && final(tokens).len() < old(tokens).len(),
            Err(e) => primary_spec(old(tokens)@) == Err::<(ExprModel, Seq<Token>), ErrorModel>(e.model()),
        },
    decreases old(tokens).len(), 1nat,
{
    let ghost ts = tokens@;
    if tokens.len() == 0 {
        return Err(end_of_input_error());
    }
    let first = take_first(tokens);
    match first {
        Token::Number(n) => Ok(Expr::Number(n)),
        Token::StringLiteral(s) => Ok(Expr::String(s)),
        Token::Identifier(name) => {
            if tokens.len() > 0 && matches!(tokens[0], Token::OpenParen) {
                let _ = take_first(tokens);
                let ghost start = tokens@;
                let mut args: Vec<Expr> = Vec::new();
                assert(prepend_list(exprs_model(args@), args_spec(start)) == args_spec(start)) by {
                    assert(exprs_model(args@) =~= Seq::<ExprModel>::empty());
                    if let Ok((ms, rest)) = args_spec(start) {
                        assert(Seq::<ExprModel>::empty() + ms =~= ms);
                    }
                }
                loop
                    invariant_except_break
                        args_spec(start) == prepend_list(exprs_model(args@), args_spec(tokens@)),
                    invariant
                        tokens.len() <= start.len() < ts.len(),
                        ts == old(tokens)@,
                        primary_spec(ts) == match args_spec(start) {
                            Ok((a, r)) => Ok((ExprModel::Call(name@, a), r)),
                            Err(e) => Err(e),
                        },
                    ensures
                        args_spec(start) == Ok::<(Seq<ExprModel>, Seq<Token>), ErrorModel>((exprs_model(args@), tokens@)),
                        tokens.len() < ts.len(),
                    decreases tokens.len(),
                {
                    if tokens.len() == 0 {
                        return Err(end_of_input_error());
                    }
                    if matches!(tokens[0], Token::CloseParen) {
                        let _ = take_first(tokens);
                        assert(exprs_model(args@) + Seq::<ExprModel>::empty() =~= exprs_model(args@));
                        break;
                    }
                    if matches!(tokens[0], Token::Comma) {
                        let _ = take_first(tokens);
                        continue;
                    }
                    let e = match parse_expr(tokens) {
                        Ok(e) => e,
                        Err(e) => return Err(e),
                    };
                    proof {
                        lemma_prepend_list_push(exprs_model(args@), e.model(), args_spec(tokens@));
                        assert(exprs_model(args@.push(e)) =~= exprs_model(args@).push(e.model()));
                    }
                    args.push(e);
                }
                let ghost m = exprs_model(args@);
                let call = Expr::Call(name, args);
                assert(call.model() == ExprModel::Call(name@, m)) by {
                    assert(call.model()->Call_1 =~= m);
                }
                assert(primary_spec(ts) == Ok::<(ExprModel, Seq<Token>), ErrorModel>((call.model(), tokens@)));
                Ok(call)
            } else if tokens.len() > 0 && matches!(tokens[0], Token::OpenBracket) {
                let _ = take_first(tokens);
                let idx = match parse_expr(tokens) {
                    Ok(i) => i,
                    Err(e) => return Err(e),
                };
                if tokens.len() > 0 && matches!(tokens[0], Token::CloseBracket) {
                    let _ = take_first(tokens);
                    let acc = Expr::ArrayAccess(Box::new(Expr::Identifier(name)), Box::new(idx));
                    assert(primary_spec(ts) == Ok::<(ExprModel, Seq<Token>), ErrorModel>((acc.model(), tokens@)));
                    Ok(acc)
                } else {
                    Err(syntax_error("Expected ']' after array index"))
                }
            } else {
                assert(primary_spec(ts) == Ok::<(ExprModel, Seq<Token>), ErrorModel>((Expr::Identifier(name).model(), tokens@)));
                Ok(Expr::Identifier(name))
            }
        },
        Token::OpenBracket => {
            let ghost start = tokens@;
            let mut elems: Vec<Expr> = Vec::new();
            assert(prepend_list(exprs_model(elems@), elems_spec(start)) == elems_spec(start)) by {
                assert(exprs_model(elems@) =~= Seq::<ExprModel>::empty());
                if let Ok((ms, rest)) = elems_spec(start) {
                    assert(Seq::<ExprModel>::empty() + ms =~= ms);
                }
            }
            loop
                invariant_except_break
                    elems_spec(start) == prepend_list(exprs_model(elems@), elems_spec(tokens@)),
                invariant
                    tokens.len() <= start.len() < ts.len(),
                    ts == old(tokens)@,
                    primary_spec(ts) == match elems_spec(start) {
                        Ok((a, r)) => Ok((ExprModel::ArrayLiteral(a), r)),
                        Err(e) => Err(e),
                    },
                ensures
                    elems_spec(start) == Ok::<(Seq<ExprModel>, Seq<Token>), ErrorModel>((exprs_model(elems@), tokens@)),
                    tokens.len() < ts.len(),
                decreases tokens.len(),
            {
                if tokens.len() == 0 {
                    return Err(end_of_input_error());
                }
                if matches!(tokens[0], Token::CloseBracket) {
                    let _ = take_first(tokens);
                    assert(exprs_model(elems@) + Seq::<ExprModel>::empty() =~= exprs_model(elems@));
                    break;
                }
                let e = match parse_expr(tokens) {
                    Ok(e) => e,
                    Err(e) => return Err(e),
                };
                if tokens.len() > 0 && matches!(tokens[0], Token::Comma) {
                    let _ = take_first(tokens);
                }
                proof {
                    lemma_prepend_list_push(exprs_model(elems@), e.model(), elems_spec(tokens@));
                    assert(exprs_model(elems@.push(e)) =~= exprs_model(elems@).push(e.model()));
                }
                elems.push(e);
            }
            let ghost m = exprs_model(elems@);
            let lit = Expr::ArrayLiteral(elems);
            assert(lit.model() == ExprModel::ArrayLiteral(m)) by {
                assert(lit.model()->ArrayLiteral_0 =~= m);
            }
            Ok(lit)
        },
        _ => Err(syntax_error("Unexpected token in expression")),
    }
}

fn first_is_assign(tokens: &Vec<Token>) -> (r: bool)
    ensures
        r == (tokens.len() > 0 && is_assign(tokens@[0])),
{
    if tokens.len() == 0 {
        return false;
    }
    match &tokens[0] {
        Token::Operator(op) => *op == String::from_str("="),
        _ => false,
    }
}

fn parse_let(tokens: &mut Vec<Token>) -> (r: Result<Statement, Error>)
    ensures
        match r {
            Ok(st) => let_spec(old(tokens)@) == Ok::<(StatementModel, Seq<Token>), ErrorModel>((st.model(), final(tokens)@))
                && final(tokens).len() < old(tokens).len(),
            Err(e) => let_spec(old(tokens)@) == Err::<(StatementModel, Seq<Token>), ErrorModel>(e.model()),
        },
{
    let ghost ts = tokens@;
    if tokens.len() == 0 {
        return Err(syntax_error("Expected identifier after 'let'"));
    }
    let _ = take_first(tokens);
    if tokens.len() == 0 {
        return Err(syntax_error("Expected identifier after 'let'"));
    }
    let name = match take_first(tokens) {
        Token::Identifier(n) => n,
        _ => return Err(syntax_error("Expected identifier after 'let'")),
    };
    let ann = if tokens.len() > 0 && matches!(tokens[0], Token::Colon) {
        let _ = take_first(tokens);
        match parse_type(tokens) {
            Ok(t) => Some(t),
            Err(e) => return Err(e),
        }
    } else {
        None
    };
    assert(let_spec(ts) == let_init_spec(name@, ann, tokens@));
    if !first_is_assign(tokens) {
        return Err(syntax_error("Expected '=' in let statement"));
    }
    let _ = take_first(tokens);
    match parse_expr(tokens) {
        Ok(e) => Ok(Statement::Let(name, ann, e)),
        Err(e) => Err(e),
    }
}

fn parse_return(tokens: &mut Vec<Token>) -> (r: Result<Statement, Error>)
    ensures
        match r {
            Ok(st) => ret_spec(old(tokens)@) == Ok::<(StatementModel, Seq<Token>), ErrorModel>((st.model(), final(tokens)@))
                && final(tokens).len() < old(tokens).len(),
            Err(e) => ret_spec(old(tokens)@) == Err::<(StatementModel, Seq<Token>), ErrorModel>(e.model()),
        },
{
    if tokens.len() == 0 {
        return Err(end_of_input_error());
    }
    let _ = take_first(tokens);
    if tokens.len() > 0 && matches!(tokens[0], Token::End) {
        Ok(Statement::Return(None))
    } else {
        match parse_expr(tokens) {
            Ok(e) => Ok(Statement::Return(Some(e))),
            Err(e) => Err(e),
        }
    }
}

fn parse_params(tokens: &mut Vec<Token>) -> (r: Result<Vec<(String, Type)>, Error>)
    ensures
        match r {
            Ok(ps) => params_spec(old(tokens)@, true) == Ok::<(Seq<(Seq<char>, Type)>, Seq<Token>), ErrorModel>(
                (params_model(ps@), final(tokens)@),
            ) && final(tokens).len() < old(tokens).len(),
            Err(e) => params_spec(old(tokens)@, true) == Err::<(Seq<(Seq<char>, Type)>, Seq<Token>), ErrorModel>(e.model()),
        },
{
    let ghost start = tokens@;
    let mut ps: Vec<(String, Type)> = Vec::new();
    let mut first = true;
    assert(prepend_list(params_model(ps@), params_spec(start, true)) == params_spec(start, true)) by {
        assert(params_model(ps@) =~= Seq::<(Seq<char>, Type)>::empty());
        if let Ok((ms, rest)) = params_spec(start, true) {
            assert(Seq::<(Seq<char>, Type)>::empty() + ms =~= ms);
        }
    }
    loop
        invariant_except_break
            params_spec(start, true) == prepend_list(params_model(ps@), params_spec(tokens@, first)),
        invariant
            tokens.len() <= start.len(),
            start == old(tokens)@,
        ensures
            params_spec(start, true) == Ok::<(Seq<(Seq<char>, Type)>, Seq<Token>), ErrorModel>((params_model(ps@), tokens@)),
            tokens.len() < start.len(),
        decreases tokens.len(),
    {
        if tokens.len() == 0 {
            return Err(end_of_input_error());
        }
        if matches!(tokens[0], Token::CloseParen) {
            let _ = take_first(tokens);
            assert(params_model(ps@) + Seq::<(Seq<char>, Type)>::empty() =~= params_model(ps@));
            break;
        }
        let ghost here = tokens@;
        if !first {
            if !matches!(tokens[0], Token::Comma) {
                return Err(syntax_error("Expected ',' or ')' after parameter"));
            }
            let _ = take_first(tokens);
        }
        if tokens.len() == 0 {
            return Err(syntax_error("Expected parameter name"));
        }
        let name = match &tokens[0] {
            Token::Identifier(n) => n.clone(),
            _ => return Err(syntax_error("Expected parameter name")),
        };
        let _ = take_first(tokens);
        if tokens.len() > 0 && matches!(tokens[0], Token::Colon) {
            let _ = take_first(tokens);
        }
        let t = match parse_type(tokens) {
            Ok(t) => t,
            Err(e) => return Err(e),
        };
        proof {
            lemma_prepend_list_push(params_model(ps@), (name@, t), params_spec(tokens@, false));
            assert(params_model(ps@.push((name, t))) =~= params_model(ps@).push((name@, t)));
            assert(tokens.len() < here.len());
        }
        ps.push((name, t));
        first = false;
    }
    Ok(ps)
}

/// Reads statements off the front of `tokens` up to and including `end`.
pub fn parse_block(tokens: &mut Vec<Token>) -> (r: Result<Vec<Statement>, Error>)
    ensures
        match r {
            Ok(v) => block_spec(old(tokens)@) == Ok::<(Seq<StatementModel>, Seq<Token>), ErrorModel>(
                (statements_model(v@), final(tokens)@),
            ) && final(tokens).len() < old(tokens).len(),
            Err(e) => block_spec(old(tokens)@) == Err::<(Seq<StatementModel>, Seq<Token>), ErrorModel>(e.model()),
        },
    decreases old(tokens).len(), 3nat,
{
    let ghost start = tokens@;
    let mut v: Vec<Statement> = Vec::new();
    assert(prepend_list(statements_model(v@), block_spec(start)) == block_spec(start)) by {
        assert(statements_model(v@) =~= Seq::<StatementModel>::empty());
        if let Ok((ms, rest)) = block_spec(start) {
            assert(Seq::<StatementModel>::empty() + ms =~= ms);
        }
    }
    loop
        invariant_except_break
            block_spec(start) == prepend_list(statements_model(v@), block_spec(tokens@)),
        invariant
            tokens.len() <= start.len(),
            start == old(tokens)@,
        ensures
            block_spec(start) == Ok::<(Seq<StatementModel>, Seq<Token>), ErrorModel>((statements_model(v@), tokens@)),
            tokens.len() < start.len(),
        decreases tokens.len(),
    {
        if tokens.len() == 0 || matches!(tokens[0], Token::Eof) {
            return Err(syntax_error("Unexpected EOF in block"));
        }
        if matches!(tokens[0], Token::End) {
            let _ = take_first(tokens);
            assert(statements_model(v@) + Seq::<StatementModel>::empty() =~= statements_model(v@));
            break;
        }
        let st = match parse_statement(tokens) {
            Ok(st) => st,
            Err(e) => return Err(e),
        };
        proof {
            lemma_prepend_list_push(statements_model(v@), st.model(), block_spec(tokens@));
            assert(statements_model(v@.push(st)) =~= statements_model(v@).push(st.model()));
        }
        v.push(st);
    }
    Ok(v)
}

/// Reads the first branch of an if-statement: statements up to and
/// including `else` or `end`, and whether it was `else`.
fn parse_branch(tokens: &mut Vec<Token>) -> (r: Result<(Vec<Statement>, bool), Error>)
    ensures
        match r {
            Ok((v, has_else)) => branch_spec(old(tokens)@) == Ok::<((Seq<StatementModel>, bool), Seq<Token>), ErrorModel>(
                ((statements_model(v@), has_else), final(tokens)@),
            ) && final(tokens).len() < old(tokens).len(),
            Err(e) => branch_spec(old(tokens)@) == Err::<((Seq<StatementModel>, bool), Seq<Token>), ErrorModel>(e.model()),
        },
    decreases old(tokens).len(), 3nat,
{
    let ghost start = tokens@;
    let mut v: Vec<Statement> = Vec::new();
    let mut has_else = false;
    assert(prepend_branch(statements_model(v@), branch_spec(start)) == branch_spec(start)) by {
        assert(statements_model(v@) =~= Seq::<StatementModel>::empty());
        if let Ok(((ms, e), rest)) = branch_spec(start) {
            assert(Seq::<StatementModel>::empty() + ms =~= ms);
        }
    }
    loop
        invariant_except_break
            branch_spec(start) == prepend_branch(statements_model(v@), branch_spec(tokens@)),
        invariant
            tokens.len() <= start.len(),
            start == old(tokens)@,
        ensures
            branch_spec(start) == Ok::<((Seq<StatementModel>, bool), Seq<Token>), ErrorModel>(
                ((statements_model(v@), has_else), tokens@),
            ),
            tokens.len() < start.len(),
        decreases tokens.len(),
    {
        if tokens.len() == 0 || matches!(tokens[0], Token::Eof) {
            return Err(syntax_error("Unexpected EOF in block"));
        }
        if matches!(tokens[0], Token::End) || matches!(tokens[0], Token::Else) {
            has_else = matches!(tokens[0], Token::Else);
            let _ = take_first(tokens);
            assert(statements_model(v@) + Seq::<StatementModel>::empty() =~= statements_model(v@));
            break;
        }
        let st = match parse_statement(tokens) {
            Ok(st) => st,
            Err(e) => return Err(e),
        };
        proof {
            lemma_prepend_branch_push(statements_model(v@), st.model(), branch_spec(tokens@));
            assert(statements_model(v@.push(st)) =~= statements_model(v@).push(st.model()));
        }
        v.push(st);
    }
    Ok((v, has_else))
}

/// Reads one statement off the front of `tokens`.
pub fn parse_statement(tokens: &mut Vec<Token>) -> (r: Result<Statement, Error>)
    ensures
        match r {
            Ok(st) => stmt_spec(old(tokens)@) == Ok::<(StatementModel, Seq<Token>), ErrorModel>((st.model(), final(tokens)@))
                && final(tokens).len() < old(tokens).len(),
            Err(e) => stmt_spec(old(tokens)@) == Err::<(StatementModel, Seq<Token>), ErrorModel>(e.model()),
        },
    decreases old(tokens).len(), 2nat,
{
    if tokens.len() == 0 {
        return Err(end_of_input_error());
    }
    if matches!(tokens[0], Token::Let) {
        parse_let(tokens)
    } else if matches!(tokens[0], Token::Return) {
        parse_return(tokens)
    } else if matches!(tokens[0], Token::If) {
        parse_if(tokens)
    } else if matches!(tokens[0], Token::While) {
        parse_while(tokens)
    } else if matches!(tokens[0], Token::For) {
        parse_for(tokens)
    } else if matches!(tokens[0], Token::Fnc) {
        parse_fnc(tokens)
    } else {
        match parse_expr(tokens) {
            Ok(e) => Ok(Statement::Expr(e)),
            Err(e) => Err(e),
        }
    }
}

fn parse_if(tokens: &mut Vec<Token>) -> (r: Result<Statement, Error>)
    ensures
        match r {
            Ok(st) => if_spec(old(tokens)@) == Ok::<(StatementModel, Seq<Token>), ErrorModel>((st.model(), final(tokens)@))
                && final(tokens).len() < old(tokens).len(),
            Err(e) => if_spec(old(tokens)@) == Err::<(StatementModel, Seq<Token>), ErrorModel>(e.model()),
        },
    decreases old(tokens).len(), 1nat,
{
    if tokens.len() == 0 {
        return Err(end_of_input_error());
    }
    let _ = take_first(tokens);
    let c = match parse_expr(tokens) {
        Ok(c) => c,
        Err(e) => return Err(e),
    };
    if !(tokens.len() > 0 && matches!(tokens[0], Token::Arrow)) {
        return Err(syntax_error("Expected '->' after if condition"));
    }
    let _ = take_first(tokens);
    let (then, has_else) = match parse_branch(tokens) {
        Ok(b) => b,
        Err(e) => return Err(e),
    };
    let ghost then_model = statements_model(then@);
    if has_else {
        let els = match parse_block(tokens) {
            Ok(b) => b,
            Err(e) => return Err(e),
        };
        let ghost els_model = statements_model(els@);
        let st = Statement::If(c, then, Some(els));
        assert(st.model()->If_1 =~= then_model);
        assert(st.model()->If_2->0 =~= els_model);
        Ok(st)
    } else {
        let st = Statement::If(c, then, None);
        assert(st.model()->If_1 =~= then_model);
        Ok(st)
    }
}

fn parse_while(tokens: &mut Vec<Token>) -> (r: Result<Statement, Error>)
    ensures
        match r {
            Ok(st) => while_spec(old(tokens)@) == Ok::<(StatementModel, Seq<Token>), ErrorModel>((st.model(), final(tokens)@))
                && final(tokens).len() < old(tokens).len(),
            Err(e) => while_spec(old(tokens)@) == Err::<(StatementModel, Seq<Token>), ErrorModel>(e.model()),
        },
    decreases old(tokens).len(), 1nat,
{
    if tokens.len() == 0 {
        return Err(end_of_input_error());
    }
    let _ = take_first(tokens);
    let c = match parse_expr(tokens) {
        Ok(c) => c,
        Err(e) => return Err(e),
    };
    if !(tokens.len() > 0 && matches!(tokens[0], Token::Arrow)) {
        return Err(syntax_error("Expected '->' after while condition"));
    }
    let _ = take_first(tokens);
    let body = match parse_block(tokens) {
        Ok(b) => b,
        Err(e) => return Err(e),
    };
    let ghost body_model = statements_model(body@);
    let st = Statement::While(c, body);
    assert(st.model()->While_1 =~= body_model);
    Ok(st)
}

fn parse_for(tokens: &mut Vec<Token>) -> (r: Result<Statement, Error>)
    ensures
        match r {
            Ok(st) => for_spec(old(tokens)@) == Ok::<(StatementModel, Seq<Token>), ErrorModel>((st.model(), final(tokens)@))
                && final(tokens).len() < old(tokens).len(),
            Err(e) => for_spec(old(tokens)@) == Err::<(StatementModel, Seq<Token>), ErrorModel>(e.model()),
        },
    decreases old(tokens).len(), 1nat,
{
    if tokens.len() == 0 {
        return Err(syntax_error("Expected identifier after 'for'"));
    }
    let _ = take_first(tokens);
    if tokens.len() == 0 {
        return Err(syntax_error("Expected identifier after 'for'"));
    }
    let name = match take_first(tokens) {
        Token::Identifier(n) => n,
        _ => return Err(syntax_error("Expected identifier after 'for'")),
    };
    let is_in = tokens.len() > 0 && match &tokens[0] {
        Token::Identifier(k) => *k == String::from_str("in"),
        _ => false,
    };
    if !is_in {
        return Err(syntax_error("Expected 'in' after iterator in for loop"));
    }
    let _ = take_first(tokens);
    let it = match parse_expr(tokens) {
        Ok(e) => e,
        Err(e) => return Err(e),
    };
    if !(tokens.len() > 0 && matches!(tokens[0], Token::Arrow)) {
        return Err(syntax_error("Expected '->' before for loop body"));
    }
    let _ = take_first(tokens);
    let body = match parse_block(tokens) {
        Ok(b) => b,
        Err(e) => return Err(e),
    };
    let ghost body_model = statements_model(body@);
    let st = Statement::For(name, it, body);
    assert(st.model()->For_2 =~= body_model);
    Ok(st)
}

fn parse_fnc(tokens: &mut Vec<Token>) -> (r: Result<Statement, Error>)
    ensures
        match r {
            Ok(st) => fnc_spec(old(tokens)@) == Ok::<(StatementModel, Seq<Token>), ErrorModel>((st.model(), final(tokens)@))
                && final(tokens).len() < old(tokens).len(),
            Err(e) => fnc_spec(old(tokens)@) == Err::<(StatementModel, Seq<Token>), ErrorModel>(e.model()),
        },
    decreases old(tokens).len(), 1nat,
{
    if tokens.len() == 0 {
        return Err(syntax_error("Expected function name after 'fnc'"));
    }
    let _ = take_first(tokens);
    if tokens.len() == 0 {
        return Err(syntax_error("Expected function name after 'fnc'"));
    }
    let name = match take_first(tokens) {
        Token::Identifier(n) => n,
        _ => return Err(syntax_error("Expected function name after 'fnc'")),
    };
    if !(tokens.len() > 0 && matches!(tokens[0], Token::OpenParen)) {
        return Err(syntax_error("Expected '(' after function name"));
    }
    let _ = take_first(tokens);
    let params = match parse_params(tokens) {
        Ok(ps) => ps,
        Err(e) => return Err(e),
    };
    let rt = match parse_type(tokens) {
        Ok(t) => t,
        Err(e) => return Err(e),
    };
    if !(tokens.len() > 0 && matches!(tokens[0], Token::Arrow)) {
        return Err(syntax_error("Expected '->' before function body"));
    }
    let _ = take_first(tokens);
    let body = match parse_block(tokens) {
        Ok(b) => b,
        Err(e) => return Err(e),
    };
    let ghost body_model = statements_model(body@);
    let st = Statement::Function(name, params, rt, body);
    assert(st.model()->Function_3 =~= body_model);
    Ok(st)
}

/// Reads statements off the front of `tokens` until they run out or an
/// `Eof` token comes, which is left in place.
pub fn parse(tokens: &mut Vec<Token>) -> (r: Result<Vec<Statement>, Error>)
    ensures
        match r {
            Ok(v) => program_spec(old(tokens)@) == Ok::<(Seq<StatementModel>, Seq<Token>), ErrorModel>(
                (statements_model(v@), final(tokens)@),
            ),
            Err(e) => program_spec(old(tokens)@) == Err::<(Seq<StatementModel>, Seq<Token>), ErrorModel>(e.model()),
        },
{
    let ghost start = tokens@;
    let mut v: Vec<Statement> = Vec::new();
    assert(prepend_list(statements_model(v@), program_spec(start)) == program_spec(start)) by {
        assert(statements_model(v@) =~= Seq::<StatementModel>::empty());
        if let Ok((ms, rest)) = program_spec(start) {
            assert(Seq::<StatementModel>::empty() + ms =~= ms);
        }
    }
    loop
        invariant_except_break
            program_spec(start) == prepend_list(statements_model(v@), program_spec(tokens@)),
        invariant
            start == old(tokens)@,
        ensures
            program_spec(start) == Ok::<(Seq<StatementModel>, Seq<Token>), ErrorModel>((statements_model(v@), tokens@)),
        decreases tokens.len(),
    {
        if tokens.len() == 0 || matches!(tokens[0], Token::Eof) {
            assert(statements_model(v@) + Seq::<StatementModel>::empty() =~= statements_model(v@));
            break;
        }
        let st = match parse_statement(tokens) {
            Ok(st) => st,
            Err(e) => return Err(e),
        };
        proof {
            lemma_prepend_list_push(statements_model(v@), st.model(), program_spec(tokens@));
            assert(statements_model(v@.push(st)) =~= statements_model(v@).push(st.model()));
        }
        v.push(st);
    }
    Ok(v)
}

} // verus!
