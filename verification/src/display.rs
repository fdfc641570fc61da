//! The display form of values: the byte-exact text the interpreter prints.
//! Each spec function fixes the text; the executable functions produce it.

use vstd::prelude::*;
use vstd::string::StringExecFns;

use crate::environment::{Env, EnvV};
use crate::ntypes::{dev_text_of, Sankhya};
use crate::types::{
    ExprsOp, NumOp, QExprOp, QExprsOp, SExprOp, Boolean, Expr, ExprV, FunV, Function, Symbol,
    SymbolV, exprs_view,
};

verus! {

pub open spec fn exprs_op_text(o: ExprsOp) -> Seq<char> {
    match o {
        ExprsOp::Equal => "=="@,
        ExprsOp::NotEqual => "!="@,
        ExprsOp::If => "यदि"@,
        ExprsOp::Import => "आयात"@,
        ExprsOp::Print => "छाप"@,
        ExprsOp::Error => "समस्या"@,
    }
}

pub open spec fn num_op_text(o: NumOp) -> Seq<char> {
    match o {
        NumOp::Add => "+"@,
        NumOp::Subtract => "-"@,
        NumOp::Multiply => "*"@,
        NumOp::Divide => "/"@,
        NumOp::GreaterThan => ">"@,
        NumOp::GreaterThanOrEqual => ">="@,
        NumOp::LessThan => "<"@,
        NumOp::LessThanOrEqual => "<="@,
    }
}

pub open spec fn qexpr_op_text(o: QExprOp) -> Seq<char> {
    match o {
        QExprOp::First => "पहिलो"@,
        QExprOp::Rest => "बाँकी"@,
        QExprOp::Len => "वटा"@,
        QExprOp::Eval => "बिस्तार"@,
    }
}

pub open spec fn qexprs_op_text(o: QExprsOp) -> Seq<char> {
    match o {
        QExprsOp::Cons => "निर्माण"@,
        QExprsOp::Join => "एकत्र"@,
        QExprsOp::Def => "नामक"@,
        QExprsOp::Put => "="@,
        QExprsOp::Lambda => "ल्याम्बडा"@,
    }
}

pub open spec fn sexpr_op_text(o: SExprOp) -> Seq<char> {
    match o {
        SExprOp::Quote => "उद्धरण"@,
        SExprOp::PrintEnv => "वातावरण"@,
    }
}

/// A symbol's printed glyph: the operator glyph, or the identifier text.
pub open spec fn sym_text(s: SymbolV) -> Seq<char> {
    match s {
        SymbolV::ExprsOp(o) => exprs_op_text(o),
        SymbolV::NumOp(o) => num_op_text(o),
        SymbolV::QExprOp(o) => qexpr_op_text(o),
        SymbolV::QExprsOp(o) => qexprs_op_text(o),
        SymbolV::SExprOp(o) => sexpr_op_text(o),
        SymbolV::Identifier(t) => t,
    }
}

/// A symbol with its category tag, as the debug dump writes it.
pub open spec fn sym_tagged_text(s: SymbolV) -> Seq<char> {
    match s {
        SymbolV::ExprsOp(o) => "एक्सपर्स-अप("@ + exprs_op_text(o) + ")"@,
        SymbolV::NumOp(o) => "नम-अप("@ + num_op_text(o) + ")"@,
        SymbolV::QExprOp(o) => "क्यु-एक्सपर्-अप("@ + qexpr_op_text(o) + ")"@,
        SymbolV::QExprsOp(o) => "क्यु-एक्सपर्स-अप("@ + qexprs_op_text(o) + ")"@,
        SymbolV::SExprOp(o) => "एस्-एक्सपर्-अप("@ + sexpr_op_text(o) + ")"@,
        SymbolV::Identifier(t) => "आइडेन्टिफायर("@ + t + ")"@,
    }
}

/// The display text of a value.
pub open spec fn display_of(e: ExprV) -> Seq<char>
    decreases e, 0int,
{
    match e {
        ExprV::Bool(b) => if b {
            "बुलियन(सत्य)"@
        } else {
            "बुलियन(गलत)"@
        },
        ExprV::Num(n) => dev_text_of(n),
        ExprV::Str(t) => "\""@ + t + "\""@,
        ExprV::Sym(s) => sym_text(s),
        ExprV::SExpr(es) => "("@ + join_texts_from(es, 0) + ")"@,
        ExprV::QExpr(es) => "'("@ + join_texts_from(es, 0) + ")"@,
        ExprV::Fun(f) => fun_text(f),
    }
}

/// The children's display texts from position `i` on, one space between
/// neighbours.
pub open spec fn join_texts_from(es: Seq<ExprV>, i: int) -> Seq<char>
    decreases es, es.len() - i,
{
    if i < 0 || i >= es.len() {
        Seq::empty()
    } else if i == es.len() - 1 {
        display_of(es[i])
    } else {
        display_of(es[i]) + " "@ + join_texts_from(es, i + 1)
    }
}

/// The display text of a function value.
pub open spec fn fun_text(f: FunV) -> Seq<char>
    decreases f, 0int,
{
    match f {
        FunV::Core(s) => "कोर("@ + sym_tagged_text(s) + ", प्वाइन्टर)"@,
        FunV::Lambda(syms, body, binds) => "ल्याम्बडा(सिम्बलहरु : "@ + join_syms_from(syms, 0)
            + ", बडी : "@ + display_of(*body) + ", वातावरण : "@ + binds_text_from(binds, 0) + ")"@,
    }
}

/// Formal parameters from position `i` on, one space between neighbours.
pub open spec fn join_syms_from(syms: Seq<SymbolV>, i: int) -> Seq<char>
    decreases syms.len() - i,
{
    if i < 0 || i >= syms.len() {
        Seq::empty()
    } else if i == syms.len() - 1 {
        sym_text(syms[i])
    } else {
        sym_text(syms[i]) + " "@ + join_syms_from(syms, i + 1)
    }
}

/// Captured bindings from position `i` on, written `key : value`, one
/// space between neighbours.
pub open spec fn binds_text_from(binds: Seq<(SymbolV, ExprV)>, i: int) -> Seq<char>
    decreases binds, binds.len() - i,
{
    if i < 0 || i >= binds.len() {
        Seq::empty()
    } else if i == binds.len() - 1 {
        sym_text(binds[i].0) + " : "@ + display_of(binds[i].1)
    } else {
        sym_text(binds[i].0) + " : "@ + display_of(binds[i].1) + " "@ + binds_text_from(
            binds,
            i + 1,
        )
    }
}

/// The debug dump of an environment: each frame's bindings in braces, one
/// frame per line, innermost first.
pub open spec fn env_dump_of(env: EnvV, scope: int) -> Seq<char>
    decreases scope,
{
    if !(0 <= scope < env.frames.len()) {
        Seq::empty()
    } else {
        let own = "{"@ + binds_text_from(env.frames[scope].data, 0) + "}"@;
        match env.frames[scope].parent {
            Some(p) => if 0 <= p < scope {
                own + "\n"@ + env_dump_of(env, p)
            } else {
                own
            },
            None => own,
        }
    }
}

fn exprs_op_string(o: &ExprsOp) -> (r: String)
    ensures
        r@ == exprs_op_text(*o),
{
    match o {
        ExprsOp::Equal => "==".to_owned(),
        ExprsOp::NotEqual => "!=".to_owned(),
        ExprsOp::If => "यदि".to_owned(),
        ExprsOp::Import => "आयात".to_owned(),
        ExprsOp::Print => "छाप".to_owned(),
        ExprsOp::Error => "समस्या".to_owned(),
    }
}

fn num_op_string(o: &NumOp) -> (r: String)
    ensures
        r@ == num_op_text(*o),
{
    match o {
        NumOp::Add => "+".to_owned(),
        NumOp::Subtract => "-".to_owned(),
        NumOp::Multiply => "*".to_owned(),
        NumOp::Divide => "/".to_owned(),
        NumOp::GreaterThan => ">".to_owned(),
        NumOp::GreaterThanOrEqual => ">=".to_owned(),
        NumOp::LessThan => "<".to_owned(),
        NumOp::LessThanOrEqual => "<=".to_owned(),
    }
}

fn qexpr_op_string(o: &QExprOp) -> (r: String)
    ensures
        r@ == qexpr_op_text(*o),
{
    match o {
        QExprOp::First => "पहिलो".to_owned(),
        QExprOp::Rest => "बाँकी".to_owned(),
        QExprOp::Len => "वटा".to_owned(),
        QExprOp::Eval => "बिस्तार".to_owned(),
    }
}

fn qexprs_op_string(o: &QExprsOp) -> (r: String)
    ensures
        r@ == qexprs_op_text(*o),
{
    match o {
        QExprsOp::Cons => "निर्माण".to_owned(),
        QExprsOp::Join => "एकत्र".to_owned(),
        QExprsOp::Def => "नामक".to_owned(),
        QExprsOp::Put => "=".to_owned(),
        QExprsOp::Lambda => "ल्याम्बडा".to_owned(),
    }
}

fn sexpr_op_string(o: &SExprOp) -> (r: String)
    ensures
        r@ == sexpr_op_text(*o),
{
    match o {
        SExprOp::Quote => "उद्धरण".to_owned(),
        SExprOp::PrintEnv => "वातावरण".to_owned(),
    }
}

/// The printed glyph of a symbol.
pub fn sym_string(s: &Symbol) -> (r: String)
    ensures
        r@ == sym_text(s@),
{
    match s {
        Symbol::ExprsOp(o) => exprs_op_string(o),
        Symbol::NumOp(o) => num_op_string(o),
        Symbol::QExprOp(o) => qexpr_op_string(o),
        Symbol::QExprsOp(o) => qexprs_op_string(o),
        Symbol::SExprOp(o) => sexpr_op_string(o),
        Symbol::Identifier(t) => t.clone(),
    }
}

/// The tagged form of a symbol.
pub fn sym_tagged_string(s: &Symbol) -> (r: String)
    ensures
        r@ == sym_tagged_text(s@),
{
    let r = match s {
        Symbol::ExprsOp(o) => "एक्सपर्स-अप(".to_owned().concat(exprs_op_string(o).as_str()).concat(
            ")",
        ),
        Symbol::NumOp(o) => "नम-अप(".to_owned().concat(num_op_string(o).as_str()).concat(")"),
        Symbol::QExprOp(o) => "क्यु-एक्सपर्-अप(".to_owned().concat(
            qexpr_op_string(o).as_str(),
        ).concat(")"),
        Symbol::QExprsOp(o) => "क्यु-एक्सपर्स-अप(".to_owned().concat(
            qexprs_op_string(o).as_str(),
        ).concat(")"),
        Symbol::SExprOp(o) => "एस्-एक्सपर्-अप(".to_owned().concat(
            sexpr_op_string(o).as_str(),
        ).concat(")"),
        Symbol::Identifier(t) => "आइडेन्टिफायर(".to_owned().concat(t.as_str()).concat(")"),
    };
    proof {
        assert(r@ =~= sym_tagged_text(s@));
    }
    r
}

/// The display text of a value.
pub fn display_expr(e: &Expr) -> (r: String)
    ensures
        r@ == display_of(e@),
    decreases *e, 0int,
{
    match e {
        Expr::Bool(Boolean(b)) => {
            if *b {
                "बुलियन(सत्य)".to_owned()
            } else {
                "बुलियन(गलत)".to_owned()
            }
        },
        Expr::Num(n) => n.to_text(),
        Expr::Str(t) => {
            let r = "\"".to_owned().concat(t.as_str()).concat("\"");
            proof {
                assert(r@ =~= display_of(e@));
            }
            r
        },
        Expr::Sym(s) => sym_string(s),
        Expr::SExpr(v) => {
            let r = "(".to_owned().concat(join_exprs_from(v, 0).as_str()).concat(")");
            proof {
                assert(r@ =~= display_of(e@));
            }
            r
        },
        Expr::QExpr(v) => {
            let r = "'(".to_owned().concat(join_exprs_from(v, 0).as_str()).concat(")");
            proof {
                assert(r@ =~= display_of(e@));
            }
            r
        },
        Expr::Fun(f) => fun_string(f),
    }
}

/// The children's display texts from position `i` on.
fn join_exprs_from(v: &Vec<Expr>, i: usize) -> (r: String)
    ensures
        r@ == join_texts_from(exprs_view(v@), i as int),
    decreases *v, v.len() - i,
{
    if i >= v.len() {
        String::new()
    } else if i == v.len() - 1 {
        display_expr(&v[i])
    } else {
        let r = display_expr(&v[i]).concat(" ").concat(join_exprs_from(v, i + 1).as_str());
        proof {
            assert(r@ =~= join_texts_from(exprs_view(v@), i as int));
        }
        r
    }
}

/// Formal parameters from position `i` on.
fn join_syms_exec(v: &Vec<Symbol>, i: usize) -> (r: String)
    ensures
        r@ == join_syms_from(crate::types::syms_view(v@), i as int),
    decreases v.len() - i,
{
    if i >= v.len() {
        String::new()
    } else if i == v.len() - 1 {
        sym_string(&v[i])
    } else {
        let r = sym_string(&v[i]).concat(" ").concat(join_syms_exec(v, i + 1).as_str());
        proof {
            assert(r@ =~= join_syms_from(crate::types::syms_view(v@), i as int));
        }
        r
    }
}

/// Captured bindings from position `i` on.
fn binds_string_from(v: &Vec<(Symbol, Expr)>, i: usize) -> (r: String)
    ensures
        r@ == binds_text_from(crate::types::binds_view(v@), i as int),
    decreases *v, v.len() - i,
{
    if i >= v.len() {
        String::new()
    } else if i == v.len() - 1 {
        let r = sym_string(&v[i].0).concat(" : ").concat(display_expr(&v[i].1).as_str());
        proof {
            assert(r@ =~= binds_text_from(crate::types::binds_view(v@), i as int));
        }
        r
    } else {
        let r = sym_string(&v[i].0).concat(" : ").concat(display_expr(&v[i].1).as_str()).concat(
            " ",
        ).concat(binds_string_from(v, i + 1).as_str());
        proof {
            assert(r@ =~= binds_text_from(crate::types::binds_view(v@), i as int));
        }
        r
    }
}

/// The display text of a function value.
fn fun_string(f: &Function) -> (r: String)
    ensures
        r@ == fun_text(f@),
    decreases *f, 0int,
{
    match f {
        Function::Core(s) => {
            let r = "कोर(".to_owned().concat(sym_tagged_string(s).as_str()).concat(", प्वाइन्टर)");
            proof {
                assert(r@ =~= fun_text(f@));
            }
            r
        },
        Function::Lambda(syms, body, binds) => {
            let r = "ल्याम्बडा(सिम्बलहरु : ".to_owned().concat(
                join_syms_exec(syms, 0).as_str(),
            ).concat(", बडी : ").concat(display_expr(body).as_str()).concat(
                ", वातावरण : ",
            ).concat(binds_string_from(binds, 0).as_str()).concat(")");
            proof {
                assert(r@ =~= fun_text(f@));
            }
            r
        },
    }
}

/// The debug dump of the environment, from the current scope to the root.
pub fn dump_env(env: &Env) -> (r: String)
    requires
        env.wf(),
    ensures
        r@ == env_dump_of(env@, env.cur as int),
{
    let mut j = env.cur;
    let mut acc = dump_frame(env, j);
    proof {
        assert(acc@ + env_dump_suffix(env@, j as int) =~= env_dump_of(env@, env.cur as int));
    }
    loop
        invariant
            env.wf(),
            (j as int) < env@.frames.len(),
            acc@ + env_dump_suffix(env@, j as int) == env_dump_of(env@, env.cur as int),
        decreases j,
    {
        match env.frames[j].parent {
            Some(p) => {
                j = p;
                acc = acc.concat("\n").concat(dump_frame(env, j).as_str());
                proof {
                    assert(acc@ + env_dump_suffix(env@, j as int) =~= env_dump_of(
                        env@,
                        env.cur as int,
                    ));
                }
            },
            None => {
                proof {
                    assert(acc@ =~= env_dump_of(env@, env.cur as int));
                }
                return acc;
            },
        }
    }
}

/// What remains of the dump below a scope: the chain under its parent.
spec fn env_dump_suffix(env: EnvV, scope: int) -> Seq<char>
    decreases scope,
{
    if !(0 <= scope < env.frames.len()) {
        Seq::empty()
    } else {
        match env.frames[scope].parent {
            Some(p) => if 0 <= p < scope {
                "\n"@ + env_dump_of(env, p)
            } else {
                Seq::empty()
            },
            None => Seq::empty(),
        }
    }
}

/// One frame's bindings in braces.
fn dump_frame(env: &Env, j: usize) -> (r: String)
    requires
        env.wf(),
        (j as int) < env@.frames.len(),
    ensures
        r@ == "{"@ + binds_text_from(env@.frames[j as int].data, 0) + "}"@,
{
    let r = "{".to_owned().concat(binds_string_from(&env.frames[j].data, 0).as_str()).concat("}");
    proof {
        assert(r@ =~= "{"@ + binds_text_from(env@.frames[j as int].data, 0) + "}"@);
    }
    r
}

} // verus!
