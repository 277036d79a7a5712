use vstd::prelude::*;
use vstd::string::StringExecFns;
use crate::ast::{Expr, ExprModel, Statement, StatementModel, Type, exprs_model, params_model, statements_model};
use crate::errors::{Error, ErrorModel};
use crate::text::{decimal, push_decimal};

verus! {

/// The C spelling of a type; none for `Unknown`, alone or inside an array.
pub open spec fn type_c(t: Type) -> Option<Seq<char>>
    decreases t,
{
    match t {
        Type::Int => Some("int"@),
        Type::Float => Some("float"@),
        Type::String => Some("char*"@),
        Type::Bool => Some("int"@),
        Type::Void => Some("void"@),
        Type::Array(inner) => match type_c(*inner) {
            Some(s) => Some(s + "*"@),
            None => None,
        },
        Type::Unknown => None,
    }
}

/// The parts joined with `, ` between them.
pub open spec fn join(parts: Seq<Seq<char>>) -> Seq<char>
    decreases parts.len(),
{
    if parts.len() == 0 {
        Seq::empty()
    } else if parts.len() == 1 {
        parts[0]
    } else {
        join(parts.drop_last()) + ", "@ + parts.last()
    }
}

/// The format string of a print call: one `%d` per argument, separated by
/// spaces.
pub open spec fn print_format(n: nat) -> Seq<char>
    decreases n,
{
    if n == 0 {
        Seq::empty()
    } else if n == 1 {
        "%d"@
    } else {
        print_format((n - 1) as nat) + " %d"@
    }
}

/// Each part preceded by `, `.
pub open spec fn each_after_comma(parts: Seq<Seq<char>>) -> Seq<char>
    decreases parts.len(),
{
    if parts.len() == 0 {
        Seq::empty()
    } else {
        each_after_comma(parts.drop_last()) + ", "@ + parts.last()
    }
}

/// An operand of a binary operator: in parentheses when it is itself a
/// binary operation or a conditional, so that the tree's grouping is kept.
pub open spec fn operand(e: ExprModel, text: Seq<char>) -> Seq<char> {
    if e is BinaryOp || e is Ternary {
        "("@ + text + ")"@
    } else {
        text
    }
}

/// The C text of each expression, and whether it calls `print`.
pub open spec fn render_exprs(es: Seq<ExprModel>) -> Seq<(Seq<char>, bool)>
    decreases es,
{
    Seq::new(
        es.len(),
        |i: int|
            if 0 <= i < es.len() {
                expr_c(es[i])
            } else {
                (Seq::empty(), false)
            },
    )
}

pub open spec fn texts(rs: Seq<(Seq<char>, bool)>) -> Seq<Seq<char>> {
    rs.map_values(|r: (Seq<char>, bool)| r.0)
}

pub open spec fn any_flag(rs: Seq<(Seq<char>, bool)>) -> bool {
    exists|i: int| 0 <= i < rs.len() && (#[trigger] rs[i]).1
}

/// The C text of an expression, and whether it calls `print`, which needs
/// the standard I/O header.
pub open spec fn expr_c(e: ExprModel) -> (Seq<char>, bool)
    decreases e,
{
    match e {
        ExprModel::Number(n) => (decimal(n as nat), false),
        ExprModel::String(s) => ("\""@ + s + "\""@, false),
        ExprModel::Boolean(b) => (if b { "1"@ } else { "0"@ }, false),
        ExprModel::Identifier(n) => (n, false),
        ExprModel::BinaryOp(l, op, r) => {
            let lc = expr_c(*l);
            let rc = expr_c(*r);
            (operand(*l, lc.0) + " "@ + op + " "@ + operand(*r, rc.0), lc.1 || rc.1)
        },
        ExprModel::UnaryOp(op, x) => {
            let xc = expr_c(*x);
            (op + "("@ + xc.0 + ")"@, xc.1)
        },
        ExprModel::Call(f, args) => {
            let rs = render_exprs(args);
            if f == "print"@ {
                (
                    "printf(\""@ + print_format(args.len()) + "\""@ + each_after_comma(texts(rs))
                        + ")"@,
                    true,
                )
            } else {
                (f + "("@ + join(texts(rs)) + ")"@, any_flag(rs))
            }
        },
        ExprModel::ArrayLiteral(es) => {
            let rs = render_exprs(es);
            ("{"@ + join(texts(rs)) + "}"@, any_flag(rs))
        },
        ExprModel::ArrayAccess(a, i) => {
            let ac = expr_c(*a);
            let ic = expr_c(*i);
            (ac.0 + "["@ + ic.0 + "]"@, ac.1 || ic.1)
        },
        ExprModel::Ternary(c, t, f) => {
            let cc = expr_c(*c);
            let tc = expr_c(*t);
            let fc = expr_c(*f);
            (
                "("@ + cc.0 + ") ? ("@ + tc.0 + ") : ("@ + fc.0 + ")"@,
                cc.1 || tc.1 || fc.1,
            )
        },
    }
}

/// The parameter list of a C function: `<type> <name>` pairs joined with
/// `, `; none when a parameter's type has no C spelling.
pub open spec fn params_c(ps: Seq<(Seq<char>, Type)>) -> Option<Seq<char>>
    decreases ps.len(),
{
    if ps.len() == 0 {
        Some(Seq::empty())
    } else {
        match (params_c(ps.drop_last()), type_c(ps.last().1)) {
            (Some(init), Some(t)) => Some(
                if ps.len() == 1 {
                    t + " "@ + ps.last().0
                } else {
                    init + ", "@ + t + " "@ + ps.last().0
                },
            ),
            _ => None,
        }
    }
}

/// The texts put one after another, with the flags combined; none when any
/// of them is none.
pub open spec fn concat_rendered(rs: Seq<Option<(Seq<char>, bool)>>) -> Option<(Seq<char>, bool)>
    decreases rs.len(),
{
    if rs.len() == 0 {
        Some((Seq::empty(), false))
    } else {
        match (concat_rendered(rs.drop_last()), rs.last()) {
            (Some(a), Some(b)) => Some((a.0 + b.0, a.1 || b.1)),
            _ => None,
        }
    }
}

pub open spec fn render_stmts(ss: Seq<StatementModel>) -> Seq<Option<(Seq<char>, bool)>>
    decreases ss, 0nat,
{
    Seq::new(
        ss.len(),
        |i: int|
            if 0 <= i < ss.len() {
                stmt_c(ss[i])
            } else {
                None
            },
    )
}

/// The C text of a list of statements, one after another.
pub open spec fn block_c(ss: Seq<StatementModel>) -> Option<(Seq<char>, bool)>
    decreases ss, 1nat,
{
    concat_rendered(render_stmts(ss))
}

/// The C text of a statement and whether it calls `print`; none when a type
/// in it has no C spelling. A let-statement without annotation is declared
/// `int`; a for-statement counts its variable from zero up to, and not
/// including, the value of its iterable.
pub open spec fn stmt_c(s: StatementModel) -> Option<(Seq<char>, bool)>
    decreases s, 0nat,
{
    match s {
        StatementModel::Let(n, ann, e) => {
            let ec = expr_c(e);
            let ty = match ann {
                Some(t) => type_c(t),
                None => Some("int"@),
            };
            match ty {
                Some(ty) => Some((ty + " "@ + n + " = "@ + ec.0 + ";\n"@, ec.1)),
                None => None,
            }
        },
        StatementModel::Return(e) => match e {
            Some(x) => Some(("return "@ + expr_c(x).0 + ";\n"@, expr_c(x).1)),
            None => Some(("return;\n"@, false)),
        },
        StatementModel::Expr(e) => Some((expr_c(e).0 + ";\n"@, expr_c(e).1)),
        StatementModel::If(c, then, els) => {
            let cc = expr_c(c);
            match block_c(then) {
                None => None,
                Some(tb) => match els {
                    None => Some(
                        ("if ("@ + cc.0 + ") {\n"@ + tb.0 + "}\n"@, cc.1 || tb.1),
                    ),
                    Some(eb) => match block_c(eb) {
                        None => None,
                        Some(ec) => Some(
                            (
                                "if ("@ + cc.0 + ") {\n"@ + tb.0 + "} else {\n"@ + ec.0 + "}\n"@,
                                cc.1 || tb.1 || ec.1,
                            ),
                        ),
                    },
                },
            }
        },
        StatementModel::While(c, body) => {
            let cc = expr_c(c);
            match block_c(body) {
                None => None,
                Some(b) => Some(("while ("@ + cc.0 + ") {\n"@ + b.0 + "}\n"@, cc.1 || b.1)),
            }
        },
        StatementModel::For(x, it, body) => {
            let ic = expr_c(it);
            match block_c(body) {
                None => None,
                Some(b) => Some(
                    (
                        "for (int "@ + x + " = 0; "@ + x + " < "@ + ic.0 + "; "@ + x + "++) {\n"@
                            + b.0 + "}\n"@,
                        ic.1 || b.1,
                    ),
                ),
            }
        },
        StatementModel::Function(n, ps, rt, body) => match (type_c(rt), params_c(ps), block_c(body)) {
            (Some(t), Some(p), Some(b)) => Some(
                (t + " "@ + n + "("@ + p + ") {\n"@ + b.0 + "}\n"@, b.1),
            ),
            _ => None,
        },
        StatementModel::Block(body) => match block_c(body) {
            None => None,
            Some(b) => Some(("{\n"@ + b.0 + "}\n"@, b.1)),
        },
    }
}

pub open spec fn stdio_include() -> Seq<char> {
    "#include <stdio.h>\n\n"@
}

/// The C text of a program: its statements one after another, preceded by
/// the standard I/O include when one of them calls `print`; none when a type
/// in it has no C spelling.
pub open spec fn program_c(ss: Seq<StatementModel>) -> Option<Seq<char>> {
    match block_c(ss) {
        Some((text, stdio)) => Some(
            if stdio {
                stdio_include() + text
            } else {
                text
            },
        ),
        None => None,
    }
}

pub open spec fn unknown_type_error() -> ErrorModel {
    ErrorModel::CodeGen("Unknown type"@)
}

/// Whether `Unknown` occurs in a type, alone or as an element type.
pub open spec fn has_unknown(t: Type) -> bool
    decreases t,
{
    match t {
        Type::Unknown => true,
        Type::Array(inner) => has_unknown(*inner),
        _ => false,
    }
}

pub open spec fn known_flags(ss: Seq<StatementModel>) -> Seq<bool>
    decreases ss, 0nat,
{
    Seq::new(
        ss.len(),
        |i: int|
            if 0 <= i < ss.len() {
                types_known(ss[i])
            } else {
                false
            },
    )
}

/// Whether no type written in any of the statements contains `Unknown`.
pub open spec fn all_types_known(ss: Seq<StatementModel>) -> bool
    decreases ss, 1nat,
{
    all_true(known_flags(ss))
}

pub open spec fn all_true(bs: Seq<bool>) -> bool
    decreases bs.len(),
{
    if bs.len() == 0 {
        true
    } else {
        all_true(bs.drop_last()) && bs.last()
    }
}

proof fn lemma_all_true(bs: Seq<bool>)
    ensures
        all_true(bs) <==> forall|i: int| 0 <= i < bs.len() ==> #[trigger] bs[i],
    decreases bs.len(),
{
    if bs.len() > 0 {
        lemma_all_true(bs.drop_last());
        if all_true(bs) {
            assert forall|i: int| 0 <= i < bs.len() implies #[trigger] bs[i] by {
                if i < bs.len() - 1 {
                    assert(bs.drop_last()[i] == bs[i]);
                }
            }
        } else if !all_true(bs.drop_last()) {
            let i = choose|i: int| 0 <= i < bs.len() - 1 && !#[trigger] bs.drop_last()[i];
            assert(bs[i] == bs.drop_last()[i]);
        }
    }
}

/// Whether no type written in a statement contains `Unknown`: annotations,
/// parameter types and return types, in nested statements too.
pub open spec fn types_known(s: StatementModel) -> bool
    decreases s, 0nat,
{
    match s {
        StatementModel::Let(_, ann, _) => match ann {
            Some(t) => !has_unknown(t),
            None => true,
        },
        StatementModel::Return(_) => true,
        StatementModel::Expr(_) => true,
        StatementModel::If(_, then, els) => all_types_known(then) && match els {
            Some(eb) => all_types_known(eb),
            None => true,
        },
        StatementModel::While(_, body) => all_types_known(body),
        StatementModel::For(_, _, body) => all_types_known(body),
        StatementModel::Function(_, ps, rt, body) => !has_unknown(rt) && (forall|i: int|
            0 <= i < ps.len() ==> !has_unknown(#[trigger] ps[i].1)) && all_types_known(body),
        StatementModel::Block(body) => all_types_known(body),
    }
}

proof fn lemma_type_c_some(t: Type)
    ensures
        type_c(t) is Some <==> !has_unknown(t),
    decreases t,
{
    if let Type::Array(inner) = t {
        lemma_type_c_some(*inner);
    }
}

proof fn lemma_params_c_some(ps: Seq<(Seq<char>, Type)>)
    ensures
        params_c(ps) is Some <==> forall|i: int| 0 <= i < ps.len() ==> !has_unknown(#[trigger] ps[i].1),
    decreases ps.len(),
{
    if ps.len() > 0 {
        lemma_params_c_some(ps.drop_last());
        lemma_type_c_some(ps.last().1);
        if params_c(ps) is Some {
            assert forall|i: int| 0 <= i < ps.len() implies !has_unknown(#[trigger] ps[i].1) by {
                if i < ps.len() - 1 {
                    assert(ps.drop_last()[i] == ps[i]);
                }
            }
        } else {
            if params_c(ps.drop_last()) is None {
                let i = choose|i: int| 0 <= i < ps.len() - 1 && has_unknown(#[trigger] ps.drop_last()[i].1);
                assert(ps[i] == ps.drop_last()[i]);
            }
        }
    }
}

proof fn lemma_concat_some(rs: Seq<Option<(Seq<char>, bool)>>)
    ensures
        concat_rendered(rs) is Some <==> forall|i: int| 0 <= i < rs.len() ==> #[trigger] rs[i] is Some,
    decreases rs.len(),
{
    if rs.len() > 0 {
        lemma_concat_some(rs.drop_last());
        if concat_rendered(rs) is Some {
            assert forall|i: int| 0 <= i < rs.len() implies #[trigger] rs[i] is Some by {
                if i < rs.len() - 1 {
                    assert(rs.drop_last()[i] == rs[i]);
                }
            }
        } else if concat_rendered(rs.drop_last()) is None {
            let i = choose|i: int| 0 <= i < rs.len() - 1 && !(#[trigger] rs.drop_last()[i] is Some);
            assert(rs[i] == rs.drop_last()[i]);
        }
    }
}

proof fn lemma_block_c_some(ss: Seq<StatementModel>)
    ensures
        block_c(ss) is Some <==> all_types_known(ss),
    decreases ss, 1nat,
{
    let rs = render_stmts(ss);
    lemma_all_true(known_flags(ss));
    assert(known_flags(ss).len() == ss.len());
    lemma_concat_some(rs);
    assert forall|i: int| 0 <= i < ss.len() implies (#[trigger] rs[i] is Some) == known_flags(ss)[i] by {
        lemma_stmt_c_some(ss[i]);
    }
    assert(rs.len() == ss.len());
    if all_types_known(ss) {
        assert(forall|i: int| 0 <= i < ss.len() ==> #[trigger] known_flags(ss)[i]);
        assert forall|i: int| 0 <= i < rs.len() implies #[trigger] rs[i] is Some by {
            assert(known_flags(ss)[i]);
        }
    }
    if block_c(ss) is Some {
        assert forall|i: int| 0 <= i < ss.len() implies #[trigger] known_flags(ss)[i] by {
            assert(rs[i] is Some);
        }
    }
}

proof fn lemma_stmt_c_some(s: StatementModel)
    ensures
        stmt_c(s) is Some <==> types_known(s),
    decreases s, 0nat,
{
    match s {
        StatementModel::Let(_, ann, _) => {
            if let Some(t) = ann {
                lemma_type_c_some(t);
            }
        },
        StatementModel::If(_, then, els) => {
            lemma_block_c_some(then);
            if let Some(eb) = els {
                lemma_block_c_some(eb);
            }
        },
        StatementModel::While(_, body) => {
            lemma_block_c_some(body);
        },
        StatementModel::For(_, _, body) => {
            lemma_block_c_some(body);
        },
        StatementModel::Function(_, ps, rt, body) => {
            lemma_type_c_some(rt);
            lemma_params_c_some(ps);
            lemma_block_c_some(body);
        },
        StatementModel::Block(body) => {
            lemma_block_c_some(body);
        },
        _ => {},
    }
}

/// Every statement and expression has a translation: code generation fails
/// exactly when a written type contains `Unknown`.
pub proof fn lemma_generation_exhaustive(ss: Seq<StatementModel>)
    ensures
        program_c(ss) is Some <==> all_types_known(ss),
{
    lemma_block_c_some(ss);
}

/// Generating C from the same tree twice gives the same text.
pub proof fn lemma_generation_idempotent(a: Seq<StatementModel>, b: Seq<StatementModel>)
    requires
        a == b,
    ensures
        program_c(a) == program_c(b),
{
}

pub open spec fn views(ss: Seq<String>) -> Seq<Seq<char>> {
    ss.map_values(|s: String| s@)
}

/// The C spelling of a type; fails on `Unknown`.
pub fn translate_type(t: &Type) -> (r: Result<String, Error>)
    ensures
        match r {
            Ok(s) => type_c(*t) == Some(s@),
            Err(e) => type_c(*t) is None && e.model() == unknown_type_error(),
        },
    decreases t,
{
    match t {
        Type::Int => Ok(String::from_str("int")),
        Type::Float => Ok(String::from_str("float")),
        Type::String => Ok(String::from_str("char*")),
        Type::Bool => Ok(String::from_str("int")),
        Type::Void => Ok(String::from_str("void")),
        Type::Array(inner) => match translate_type(inner) {
            Ok(mut s) => {
                s.append("*");
                Ok(s)
            },
            Err(e) => Err(e),
        },
        Type::Unknown => Err(Error::CodeGen(String::from_str("Unknown type"))),
    }
}

fn join_parts(parts: &Vec<String>) -> (r: String)
    ensures
        r@ == join(views(parts@)),
{
    let ghost ps = views(parts@);
    let mut r = String::new();
    let mut i: usize = 0;
    assert(ps.take(0) =~= Seq::<Seq<char>>::empty());
    while i < parts.len()
        invariant
            i <= parts.len(),
            ps == views(parts@),
            r@ == join(ps.take(i as int)),
        decreases parts.len() - i,
    {
        if i > 0 {
            r.append(", ");
        }
        r.append(parts[i].as_str());
        proof {
            assert(ps.take(i + 1).drop_last() =~= ps.take(i as int));
            if i == 0 {
                assert(r@ =~= ps[0]);
            }
        }
        i = i + 1;
    }
    assert(ps.take(parts.len() as int) =~= ps);
    r
}

fn after_commas(parts: &Vec<String>) -> (r: String)
    ensures
        r@ == each_after_comma(views(parts@)),
{
    let ghost ps = views(parts@);
    let mut r = String::new();
    let mut i: usize = 0;
    assert(ps.take(0) =~= Seq::<Seq<char>>::empty());
    while i < parts.len()
        invariant
            i <= parts.len(),
            ps == views(parts@),
            r@ == each_after_comma(ps.take(i as int)),
        decreases parts.len() - i,
    {
        r.append(", ");
        r.append(parts[i].as_str());
        proof {
            assert(ps.take(i + 1).drop_last() =~= ps.take(i as int));
        }
        i = i + 1;
    }
    assert(ps.take(parts.len() as int) =~= ps);
    r
}

fn print_format_of(n: usize) -> (r: String)
    ensures
        r@ == print_format(n as nat),
{
    let mut r = String::new();
    let mut k: usize = 0;
    while k < n
        invariant
            k <= n,
            r@ == print_format(k as nat),
        decreases n - k,
    {
        if k == 0 {
            r.append("%d");
        } else {
            r.append(" %d");
        }
        k = k + 1;
    }
    r
}

/// The C text of each expression, and whether any of them calls `print`.
fn translate_exprs(es: &Vec<Expr>) -> (r: (Vec<String>, bool))
    ensures
        views(r.0@) == texts(render_exprs(exprs_model(es@))),
        r.1 == any_flag(render_exprs(exprs_model(es@))),
    decreases es,
{
    let ghost rs = render_exprs(exprs_model(es@));
    let mut parts: Vec<String> = Vec::new();
    let mut flag = false;
    let mut i: usize = 0;
    while i < es.len()
        invariant
            i <= es.len(),
            rs == render_exprs(exprs_model(es@)),
            rs.len() == es.len(),
            views(parts@) == texts(rs).take(i as int),
            flag == (exists|k: int| 0 <= k < i && (#[trigger] rs[k]).1),
        decreases es.len() - i,
    {
        let (t, f) = translate_expr(&es[i]);
        proof {
            assert(views(parts@.push(t)) =~= views(parts@).push(t@));
            assert(texts(rs).take(i + 1) =~= texts(rs).take(i as int).push(t@));
        }
        parts.push(t);
        proof {
            if f {
                assert(rs[i as int].1);
            }
        }
        flag = flag || f;
        i = i + 1;
    }
    assert(texts(rs).take(es.len() as int) =~= texts(rs));
    (parts, flag)
}

fn wrap_operand(e: &Expr, text: String) -> (r: String)
    ensures
        r@ == operand(e.model(), text@),
{
    if matches!(e, Expr::BinaryOp(..)) || matches!(e, Expr::Ternary(..)) {
        let mut r = String::from_str("(");
        r.append(text.as_str());
        r.append(")");
        r
    } else {
        text
    }
}

/// The C text of an expression, and whether it calls `print`.
pub fn translate_expr(e: &Expr) -> (r: (String, bool))
    ensures
        (r.0@, r.1) == expr_c(e.model()),
    decreases e,
{
    match e {
        Expr::Number(n) => {
            let mut s = String::new();
            push_decimal(&mut s, *n as u128);
            (s, false)
        },
        Expr::String(x) => {
            let mut s = String::from_str("\"");
            s.append(x.as_str());
            s.append("\"");
            (s, false)
        },
        Expr::Boolean(b) => {
            if *b {
                (String::from_str("1"), false)
            } else {
                (String::from_str("0"), false)
            }
        },
        Expr::Identifier(n) => (n.clone(), false),
        Expr::BinaryOp(l, op, r) => {
            let (lt, lf) = translate_expr(l);
            let (rt, rf) = translate_expr(r);
            let mut s = wrap_operand(l, lt);
            s.append(" ");
            s.append(op.as_str());
            s.append(" ");
            let rw = wrap_operand(r, rt);
            s.append(rw.as_str());
            (s, lf || rf)
        },
        Expr::UnaryOp(op, x) => {
            let (xt, xf) = translate_expr(x);
            let mut s = op.clone();
            s.append("(");
            s.append(xt.as_str());
            s.append(")");
            (s, xf)
        },
        Expr::Call(f, args) => {
            assert(e.model()->Call_1 =~= exprs_model(args@));
            let (parts, flag) = translate_exprs(args);
            if *f == String::from_str("print") {
                let mut s = String::from_str("printf(\"");
                let fmt = print_format_of(args.len());
                s.append(fmt.as_str());
                s.append("\"");
                let rest = after_commas(&parts);
                s.append(rest.as_str());
                s.append(")");
                (s, true)
            } else {
                let mut s = f.clone();
                s.append("(");
                let joined = join_parts(&parts);
                s.append(joined.as_str());
                s.append(")");
                (s, flag)
            }
        },
        Expr::ArrayLiteral(es) => {
            assert(e.model()->ArrayLiteral_0 =~= exprs_model(es@));
            let (parts, flag) = translate_exprs(es);
            let mut s = String::from_str("{");
            let joined = join_parts(&parts);
            s.append(joined.as_str());
            s.append("}");
            (s, flag)
        },
        Expr::ArrayAccess(a, i) => {
            let (at, af) = translate_expr(a);
            let (it, i_f) = translate_expr(i);
            let mut s = at;
            s.append("[");
            s.append(it.as_str());
            s.append("]");
            (s, af || i_f)
        },
        Expr::Ternary(c, t, f) => {
            let (ct, cf) = translate_expr(c);
            let (tt, tf) = translate_expr(t);
            let (ft, ff) = translate_expr(f);
            let mut s = String::from_str("(");
            s.append(ct.as_str());
            s.append(") ? (");
            s.append(tt.as_str());
            s.append(") : (");
            s.append(ft.as_str());
            s.append(")");
            (s, cf || tf || ff)
        },
    }
}

proof fn lemma_concat_none(rs: Seq<Option<(Seq<char>, bool)>>, i: int)
    requires
        0 <= i < rs.len(),
        rs[i] is None,
    ensures
        concat_rendered(rs) is None,
    decreases rs.len(),
{
    if i < rs.len() - 1 {
        lemma_concat_none(rs.drop_last(), i);
    }
}

proof fn lemma_params_none(ps: Seq<(Seq<char>, Type)>, i: int)
    requires
        0 <= i < ps.len(),
        type_c(ps[i].1) is None,
    ensures
        params_c(ps) is None,
    decreases ps.len(),
{
    if i < ps.len() - 1 {
        lemma_params_none(ps.drop_last(), i);
    }
}

fn translate_params(ps: &Vec<(String, Type)>) -> (r: Result<String, Error>)
    ensures
        match r {
            Ok(t) => params_c(params_model(ps@)) == Some(t@),
            Err(e) => params_c(params_model(ps@)) is None && e.model() == unknown_type_error(),
        },
{
    let ghost pm = params_model(ps@);
    let mut r = String::new();
    let mut i: usize = 0;
    assert(pm.take(0) =~= Seq::<(Seq<char>, Type)>::empty());
    while i < ps.len()
        invariant
            i <= ps.len(),
            pm == params_model(ps@),
            params_c(pm.take(i as int)) == Some(r@),
        decreases ps.len() - i,
    {
        let (name, ty) = &ps[i];
        let t = match translate_type(ty) {
            Ok(t) => t,
            Err(e) => {
                proof {
                    lemma_params_none(pm, i as int);
                }
                return Err(e);
            },
        };
        if i > 0 {
            r.append(", ");
        }
        r.append(t.as_str());
        r.append(" ");
        r.append(name.as_str());
        proof {
            assert(pm.take(i + 1).drop_last() =~= pm.take(i as int));
        }
        i = i + 1;
    }
    assert(pm.take(ps.len() as int) =~= pm);
    Ok(r)
}

/// The C text of a list of statements, one after another, and whether any
/// of them calls `print`.
fn translate_block(ss: &Vec<Statement>) -> (r: Result<(String, bool), Error>)
    ensures
        match r {
            Ok((t, f)) => block_c(statements_model(ss@)) == Some((t@, f)),
            Err(e) => block_c(statements_model(ss@)) is None && e.model() == unknown_type_error(),
        },
    decreases ss,
{
    let ghost m = statements_model(ss@);
    let ghost rs = render_stmts(m);
    let mut text = String::new();
    let mut flag = false;
    let mut i: usize = 0;
    assert(rs.take(0) =~= Seq::<Option<(Seq<char>, bool)>>::empty());
    while i < ss.len()
        invariant
            i <= ss.len(),
            m == statements_model(ss@),
            rs == render_stmts(m),
            block_c(m) == concat_rendered(rs),
            concat_rendered(rs.take(i as int)) == Some((text@, flag)),
        decreases ss.len() - i,
    {
        let (t, f) = match translate_statement(&ss[i]) {
            Ok(x) => x,
            Err(e) => {
                proof {
                    lemma_concat_none(rs, i as int);
                }
                return Err(e);
            },
        };
        text.append(t.as_str());
        flag = flag || f;
        proof {
            assert(rs.take(i + 1).drop_last() =~= rs.take(i as int));
        }
        i = i + 1;
    }
    assert(rs.take(ss.len() as int) =~= rs);
    Ok((text, flag))
}

/// The C text of a statement, and whether it calls `print`; fails when a
/// type in it is `Unknown`.
pub fn translate_statement(st: &Statement) -> (r: Result<(String, bool), Error>)
    ensures
        match r {
            Ok((t, f)) => stmt_c(st.model()) == Some((t@, f)),
            Err(e) => stmt_c(st.model()) is None && e.model() == unknown_type_error(),
        },
    decreases st,
{
    match st {
        Statement::Let(name, ann, e) => {
            let mut s = match ann {
                Some(t) => match translate_type(t) {
                    Ok(s) => s,
                    Err(e) => return Err(e),
                },
                None => String::from_str("int"),
            };
            let (et, ef) = translate_expr(e);
            s.append(" ");
            s.append(name.as_str());
            s.append(" = ");
            s.append(et.as_str());
            s.append(";\n");
            Ok((s, ef))
        },
        Statement::Return(e) => match e {
            Some(x) => {
                let (xt, xf) = translate_expr(x);
                let mut s = String::from_str("return ");
                s.append(xt.as_str());
                s.append(";\n");
                Ok((s, xf))
            },
            None => Ok((String::from_str("return;\n"), false)),
        },
        Statement::Expr(e) => {
            let (mut s, f) = translate_expr(e);
            s.append(";\n");
            Ok((s, f))
        },
        Statement::If(c, then, els) => {
            assert(st.model()->If_1 =~= statements_model(then@));
            let (ct, cf) = translate_expr(c);
            let (tt, tf) = match translate_block(then) {
                Ok(x) => x,
                Err(e) => return Err(e),
            };
            let mut s = String::from_str("if (");
            s.append(ct.as_str());
            s.append(") {\n");
            s.append(tt.as_str());
            match els {
                None => {
                    s.append("}\n");
                    Ok((s, cf || tf))
                },
                Some(eb) => {
                    assert(st.model()->If_2->0 =~= statements_model(eb@));
                    let (et, ef) = match translate_block(eb) {
                        Ok(x) => x,
                        Err(e) => return Err(e),
                    };
                    s.append("} else {\n");
                    s.append(et.as_str());
                    s.append("}\n");
                    Ok((s, cf || tf || ef))
                },
            }
        },
        Statement::While(c, body) => {
            assert(st.model()->While_1 =~= statements_model(body@));
            let (ct, cf) = translate_expr(c);
            let (bt, bf) = match translate_block(body) {
                Ok(x) => x,
                Err(e) => return Err(e),
            };
            let mut s = String::from_str("while (");
            s.append(ct.as_str());
            s.append(") {\n");
            s.append(bt.as_str());
            s.append("}\n");
            Ok((s, cf || bf))
        },
        Statement::For(x, it, body) => {
            assert(st.model()->For_2 =~= statements_model(body@));
            let (itt, itf) = translate_expr(it);
            let (bt, bf) = match translate_block(body) {
                Ok(b) => b,
                Err(e) => return Err(e),
            };
            let mut s = String::from_str("for (int ");
            s.append(x.as_str());
            s.append(" = 0; ");
            s.append(x.as_str());
            s.append(" < ");
            s.append(itt.as_str());
            s.append("; ");
            s.append(x.as_str());
            s.append("++) {\n");
            s.append(bt.as_str());
            s.append("}\n");
            Ok((s, itf || bf))
        },
        Statement::Function(name, params, rt, body) => {
            assert(st.model()->Function_3 =~= statements_model(body@));
            let mut s = match translate_type(rt) {
                Ok(t) => t,
                Err(e) => return Err(e),
            };
            let ps = match translate_params(params) {
                Ok(p) => p,
                Err(e) => return Err(e),
            };
            let (bt, bf) = match translate_block(body) {
                Ok(b) => b,
                Err(e) => return Err(e),
            };
            s.append(" ");
            s.append(name.as_str());
            s.append("(");
            s.append(ps.as_str());
            s.append(") {\n");
            s.append(bt.as_str());
            s.append("}\n");
            Ok((s, bf))
        },
        Statement::Block(body) => {
            assert(st.model()->Block_0 =~= statements_model(body@));
            let (bt, bf) = match translate_block(body) {
                Ok(b) => b,
                Err(e) => return Err(e),
            };
            let mut s = String::from_str("{\n");
            s.append(bt.as_str());
            s.append("}\n");
            Ok((s, bf))
        },
    }
}

/// The C text of a program: its statements in order, preceded by the
/// standard I/O include when one of them calls `print`. Fails with a
/// code generation error exactly when a type in it is `Unknown`.
pub fn generate_c_code(ast: &Vec<Statement>) -> (r: Result<String, Error>)
    ensures
        match program_c(statements_model(ast@)) {
            Some(text) => r is Ok && r->Ok_0@ == text,
            None => r is Err && r->Err_0.model() == unknown_type_error(),
        },
{
    let (body, needs_stdio) = match translate_block(ast) {
        Ok(x) => x,
        Err(e) => return Err(e),
    };
    if needs_stdio {
        let mut out = String::from_str("#include <stdio.h>\n\n");
        out.append(body.as_str());
        Ok(out)
    } else {
        Ok(body)
    }
}

} // verus!
