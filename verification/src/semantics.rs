//! The meaning of evaluation, written once as mathematics. The executable
//! evaluator and every built-in are proved to return exactly what these
//! functions say, for the environment as well as the result. Fuel bounds
//! the depth of nested evaluation; exhausting it is the one failure the
//! executable interpreter adds over the language itself.

use vstd::prelude::*;

use crate::display::{display_of, env_dump_of};
use crate::environment::{env_with_frame_data, frame_set, lookup_s, root_of, EnvV, FrameV};
use crate::ntypes::{tquot, wrap32};
use crate::parser::parse_s;
use crate::types::{ErrorV, ExprV, ExprsOp, FunV, NumOp, QExprOp, QExprsOp, SExprOp, SymbolV};

verus! {

/// The distinguished identifier that marks a variadic tail collector.
pub open spec fn rest_marker() -> SymbolV {
    SymbolV::Identifier("ऽ"@)
}

/// One arithmetic or comparison step of the left fold.
pub open spec fn num_step(op: NumOp, x: int, y: int) -> Result<ExprV, ErrorV> {
    match op {
        NumOp::Add => Ok(ExprV::Num(wrap32(x + y))),
        NumOp::Subtract => Ok(ExprV::Num(wrap32(x - y))),
        NumOp::Multiply => Ok(ExprV::Num(wrap32(x * y))),
        NumOp::Divide => if y == 0 {
            Err(ErrorV::DivideByZero(x, y))
        } else {
            Ok(ExprV::Num(wrap32(tquot(x, y))))
        },
        NumOp::GreaterThan => Ok(ExprV::Bool(x > y)),
        NumOp::GreaterThanOrEqual => Ok(ExprV::Bool(x >= y)),
        NumOp::LessThan => Ok(ExprV::Bool(x < y)),
        NumOp::LessThanOrEqual => Ok(ExprV::Bool(x <= y)),
    }
}

/// The contents of the first importable source with the given name.
pub open spec fn file_find(files: Seq<(Seq<char>, Seq<char>)>, name: Seq<char>) -> Option<
    Seq<char>,
>
    decreases files.len(),
{
    if files.len() == 0 {
        None
    } else if files[0].0 == name {
        Some(files[0].1)
    } else {
        file_find(files.drop_first(), name)
    }
}

/// The environment with one more line of output.
pub open spec fn env_print(env: EnvV, line: Seq<char>) -> EnvV {
    EnvV { output: env.output.push(line), ..env }
}

/// The position of the first element that is not a symbol.
pub open spec fn first_non_sym(q: Seq<ExprV>, i: int) -> Option<int>
    decreases q.len() - i,
{
    if i < 0 || i >= q.len() {
        None
    } else if !(q[i] is Sym) {
        Some(i)
    } else {
        first_non_sym(q, i + 1)
    }
}

/// The symbols of a sequence of symbol expressions.
pub open spec fn syms_of(q: Seq<ExprV>) -> Seq<SymbolV> {
    Seq::new(
        q.len(),
        |i: int|
            if 0 <= i < q.len() {
                match q[i] {
                    ExprV::Sym(s) => s,
                    _ => rest_marker(),
                }
            } else {
                rest_marker()
            },
    )
}

/// Evaluation. Dispatches on the expression variant: the self-evaluating
/// variants return unchanged, a symbol is looked up, an S-expression is a
/// call. The environment comes back possibly extended and re-bound; the
/// current scope never changes.
pub open spec fn eval_s(env: EnvV, scope: int, e: ExprV, fuel: nat) -> (EnvV, Result<
    ExprV,
    ErrorV,
>)
    decreases fuel, 10int, 0int,
{
    if fuel == 0 {
        (env, Err(ErrorV::RecursionLimit))
    } else {
        match e {
            ExprV::Bool(_) => (env, Ok(e)),
            ExprV::Num(_) => (env, Ok(e)),
            ExprV::Str(_) => (env, Ok(e)),
            ExprV::Sym(s) => (env, lookup_s(env, scope, s)),
            ExprV::QExpr(_) => (env, Ok(e)),
            ExprV::Fun(_) => (env, Ok(e)),
            ExprV::SExpr(es) => {
                if es.len() == 0 {
                    (env, Ok(e))
                } else if es.len() == 1 {
                    eval_s(env, scope, es[0], (fuel - 1) as nat)
                } else {
                    let (env1, rh) = eval_s(env, scope, es[0], (fuel - 1) as nat);
                    let rest = es.drop_first();
                    match rh {
                        Ok(ExprV::Sym(sym)) => match lookup_s(env1, scope, sym) {
                            Ok(v) => eval_s(
                                env1,
                                scope,
                                ExprV::SExpr(seq![v] + rest),
                                (fuel - 1) as nat,
                            ),
                            Err(er) => (env1, Err(er)),
                        },
                        Ok(ExprV::Fun(FunV::Core(sym))) => core_call_s(
                            env1,
                            scope,
                            sym,
                            rest,
                            fuel,
                        ),
                        Ok(ExprV::Fun(FunV::Lambda(formals, body, hmap))) => eval_lambda_s(
                            env1,
                            scope,
                            formals,
                            *body,
                            hmap,
                            rest,
                            fuel,
                        ),
                        _ => (env1, Err(ErrorV::InvalidOp(es[0]))),
                    }
                }
            },
        }
    }
}

/// A built-in call: dispatch on the reserved symbol, with the argument
/// expressions unevaluated.
pub open spec fn core_call_s(
    env: EnvV,
    scope: int,
    sym: SymbolV,
    args: Seq<ExprV>,
    fuel: nat,
) -> (EnvV, Result<ExprV, ErrorV>)
    decreases fuel, 9int, 0int,
{
    match sym {
        SymbolV::ExprsOp(o) => match o {
            ExprsOp::If => exprs_if_s(env, scope, args, fuel),
            ExprsOp::Equal => exprs_equal_s(env, scope, args, fuel),
            ExprsOp::NotEqual => exprs_not_equal_s(env, scope, args, fuel),
            ExprsOp::Import => exprs_import_s(env, scope, args, fuel),
            ExprsOp::Print => exprs_print_s(env, scope, args, fuel),
            ExprsOp::Error => exprs_error_s(env, scope, args, fuel),
        },
        SymbolV::NumOp(o) => nums_op_s(env, scope, o, args, fuel),
        SymbolV::QExprOp(o) => qexpr_op_s(env, scope, o, args, fuel),
        SymbolV::QExprsOp(o) => match o {
            QExprsOp::Cons => qexprs_cons_s(env, scope, args, fuel),
            QExprsOp::Join => qexprs_join_s(env, scope, args, fuel),
            QExprsOp::Def => qexprs_assign_s(env, scope, true, args, fuel),
            QExprsOp::Put => qexprs_assign_s(env, scope, false, args, fuel),
            QExprsOp::Lambda => qexprs_lambda_s(env, scope, args, fuel),
        },
        SymbolV::SExprOp(o) => match o {
            SExprOp::Quote => sexpr_quote_s(env, scope, args, fuel),
            SExprOp::PrintEnv => sexpr_printenv_s(env, scope, args, fuel),
        },
        SymbolV::Identifier(_) => (env, Err(ErrorV::InvalidOp(ExprV::Fun(FunV::Core(sym))))),
    }
}

/// `If`: the condition is evaluated and must be a boolean; both branches
/// must be quoted; the chosen branch runs as an S-expression.
pub open spec fn exprs_if_s(env: EnvV, scope: int, args: Seq<ExprV>, fuel: nat) -> (EnvV, Result<
    ExprV,
    ErrorV,
>)
    decreases fuel, 8int, 0int,
{
    if fuel == 0 {
        (env, Err(ErrorV::RecursionLimit))
    } else {
        if args.len() != 3 {
            (env, Err(ErrorV::InvalidNumberOfExprsArguments(ExprsOp::If, args.len() as int)))
        } else {
            let (env1, rc) = eval_s(env, scope, args[0], (fuel - 1) as nat);
            match rc {
                Err(e) => (env1, Err(e)),
                Ok(ExprV::Bool(b)) => match (args[1], args[2]) {
                    (ExprV::QExpr(q1), ExprV::QExpr(q2)) => if b {
                        eval_s(env1, scope, ExprV::SExpr(q1), (fuel - 1) as nat)
                    } else {
                        eval_s(env1, scope, ExprV::SExpr(q2), (fuel - 1) as nat)
                    },
                    (ExprV::QExpr(_), x) => (env1, Err(ErrorV::NotAQExpr(x))),
                    (x, _) => (env1, Err(ErrorV::NotAQExpr(x))),
                },
                Ok(x) => (env1, Err(ErrorV::NotABoolean(x))),
            }
        }
    }
}

/// `Equal`: exactly two arguments, compared structurally after forcing.
pub open spec fn exprs_equal_s(env: EnvV, scope: int, args: Seq<ExprV>, fuel: nat) -> (EnvV,
    Result<ExprV, ErrorV>)
    decreases fuel, 8int, 0int,
{
    if args.len() == 2 {
        exprs_compare_s(env, scope, args[0], args[1], fuel)
    } else {
        (env, Err(ErrorV::InvalidNumberOfExprsArguments(ExprsOp::Equal, args.len() as int)))
    }
}

/// Structural comparison: data variants compare directly; symbols and
/// S-expressions are evaluated first; Q-expressions compare inert; a
/// cross-variant comparison is false.
pub open spec fn exprs_compare_s(env: EnvV, scope: int, e1: ExprV, e2: ExprV, fuel: nat) -> (EnvV,
    Result<ExprV, ErrorV>)
    decreases fuel, 7int, 0int,
{
    if fuel == 0 {
        (env, Err(ErrorV::RecursionLimit))
    } else {
        match (e1, e2) {
            (ExprV::Bool(b1), ExprV::Bool(b2)) => (env, Ok(ExprV::Bool(b1 == b2))),
            (ExprV::Num(n1), ExprV::Num(n2)) => (env, Ok(ExprV::Bool(n1 == n2))),
            (ExprV::Str(s1), ExprV::Str(s2)) => (env, Ok(ExprV::Bool(s1 == s2))),
            (ExprV::Sym(_), ExprV::Sym(_)) => {
                let (env1, r1) = eval_s(env, scope, e1, (fuel - 1) as nat);
                match r1 {
                    Err(e) => (env1, Err(e)),
                    Ok(v1) => {
                        let (env2, r2) = eval_s(env1, scope, e2, (fuel - 1) as nat);
                        match r2 {
                            Err(e) => (env2, Err(e)),
                            Ok(v2) => (env2, Ok(ExprV::Bool(v1 == v2))),
                        }
                    },
                }
            },
            (ExprV::QExpr(q1), ExprV::QExpr(q2)) => (env, Ok(ExprV::Bool(q1 == q2))),
            (ExprV::Fun(f1), ExprV::Fun(f2)) => (env, Ok(ExprV::Bool(f1 == f2))),
            (ExprV::SExpr(_), _) => {
                let (env1, r1) = eval_s(env, scope, e1, (fuel - 1) as nat);
                match r1 {
                    Err(e) => (env1, Err(e)),
                    Ok(v1) => exprs_compare_s(env1, scope, v1, e2, (fuel - 1) as nat),
                }
            },
            (_, ExprV::SExpr(_)) => {
                let (env1, r2) = eval_s(env, scope, e2, (fuel - 1) as nat);
                match r2 {
                    Err(e) => (env1, Err(e)),
                    Ok(v2) => exprs_compare_s(env1, scope, e1, v2, (fuel - 1) as nat),
                }
            },
            (ExprV::Sym(_), _) => {
                let (env1, r1) = eval_s(env, scope, e1, (fuel - 1) as nat);
                match r1 {
                    Err(e) => (env1, Err(e)),
                    Ok(v1) => exprs_compare_s(env1, scope, v1, e2, (fuel - 1) as nat),
                }
            },
            (_, ExprV::Sym(_)) => {
                let (env1, r2) = eval_s(env, scope, e2, (fuel - 1) as nat);
                match r2 {
                    Err(e) => (env1, Err(e)),
                    Ok(v2) => exprs_compare_s(env1, scope, e1, v2, (fuel - 1) as nat),
                }
            },
            _ => (env, Ok(ExprV::Bool(false))),
        }
    }
}

/// `NotEqual` negates `Equal`.
pub open spec fn exprs_not_equal_s(env: EnvV, scope: int, args: Seq<ExprV>, fuel: nat) -> (EnvV,
    Result<ExprV, ErrorV>)
    decreases fuel, 8int, 1int,
{
    let (env1, r) = exprs_equal_s(env, scope, args, fuel);
    match r {
        Ok(ExprV::Bool(b)) => (env1, Ok(ExprV::Bool(!b))),
        Ok(_) => (env1, Ok(ExprV::Bool(true))),
        Err(e) => (env1, Err(e)),
    }
}

/// `Import`: one identifier argument; the named source is parsed and its
/// top-level forms run in order against the current environment.
pub open spec fn exprs_import_s(env: EnvV, scope: int, args: Seq<ExprV>, fuel: nat) -> (EnvV,
    Result<ExprV, ErrorV>)
    decreases fuel, 8int, 0int,
{
    if args.len() != 1 {
        (env, Err(ErrorV::InvalidNumberOfExprsArguments(ExprsOp::Import, args.len() as int)))
    } else {
        match args[0] {
            ExprV::Sym(SymbolV::Identifier(name)) => match file_find(env.files, name) {
                None => (env, Err(ErrorV::ImportError(args[0]))),
                Some(contents) => match parse_s(contents) {
                    Some(ExprV::SExpr(forms)) => eval_forms_s(env, scope, forms, 0, fuel),
                    _ => (env, Err(ErrorV::ParseError(contents))),
                },
            },
            x => (env, Err(ErrorV::NotAnIdentifier(x))),
        }
    }
}

/// Top-level forms run left to right; the first error aborts the rest; when
/// all succeed the result is the empty Q-expression.
pub open spec fn eval_forms_s(env: EnvV, scope: int, forms: Seq<ExprV>, i: int, fuel: nat) -> (
    EnvV,
    Result<ExprV, ErrorV>,
)
    decreases fuel, 7int, forms.len() - i,
{
    if fuel == 0 {
        (env, Err(ErrorV::RecursionLimit))
    } else {
        if i < 0 || i >= forms.len() {
            (env, Ok(ExprV::QExpr(Seq::empty())))
        } else {
            let (env1, r) = eval_s(env, scope, forms[i], (fuel - 1) as nat);
            match r {
                Err(e) => (env1, Err(e)),
                Ok(_) => eval_forms_s(env1, scope, forms, i + 1, fuel),
            }
        }
    }
}

/// `Print` evaluates its argument and appends the display form to the
/// output, returning the empty Q-expression.
pub open spec fn exprs_print_s(env: EnvV, scope: int, args: Seq<ExprV>, fuel: nat) -> (EnvV,
    Result<ExprV, ErrorV>)
    decreases fuel, 8int, 0int,
{
    if fuel == 0 {
        (env, Err(ErrorV::RecursionLimit))
    } else {
        if args.len() != 1 {
            (env, Err(ErrorV::InvalidNumberOfExprsArguments(ExprsOp::Print, args.len() as int)))
        } else {
            let (env1, r) = eval_s(env, scope, args[0], (fuel - 1) as nat);
            match r {
                Err(e) => (env1, Err(e)),
                Ok(v) => (env_print(env1, display_of(v)), Ok(ExprV::QExpr(Seq::empty()))),
            }
        }
    }
}

/// `Error` evaluates its argument, which must be a string, and raises it.
pub open spec fn exprs_error_s(env: EnvV, scope: int, args: Seq<ExprV>, fuel: nat) -> (EnvV,
    Result<ExprV, ErrorV>)
    decreases fuel, 8int, 0int,
{
    if fuel == 0 {
        (env, Err(ErrorV::RecursionLimit))
    } else {
        if args.len() != 1 {
            (env, Err(ErrorV::InvalidNumberOfExprsArguments(ExprsOp::Error, args.len() as int)))
        } else {
            let (env1, r) = eval_s(env, scope, args[0], (fuel - 1) as nat);
            match r {
                Err(e) => (env1, Err(e)),
                Ok(ExprV::Str(s)) => (env1, Err(ErrorV::ThrowError(s))),
                Ok(x) => (env1, Err(ErrorV::NotAString(x))),
            }
        }
    }
}

/// An arithmetic or comparison operator: the first argument must evaluate
/// to a number, then a left fold over the rest.
pub open spec fn nums_op_s(env: EnvV, scope: int, op: NumOp, args: Seq<ExprV>, fuel: nat) -> (EnvV,
    Result<ExprV, ErrorV>)
    decreases fuel, 8int, 0int,
{
    if fuel == 0 {
        (env, Err(ErrorV::RecursionLimit))
    } else {
        if args.len() == 0 {
            (env, Err(ErrorV::InvalidNumberOfNumArguments(op, 0)))
        } else {
            let (env1, r) = eval_s(env, scope, args[0], (fuel - 1) as nat);
            match r {
                Err(e) => (env1, Err(e)),
                Ok(ExprV::Num(n)) => nums_fold_s(env1, scope, op, ExprV::Num(n), args, 1, fuel),
                Ok(x) => (env1, Err(ErrorV::NotANumber(x))),
            }
        }
    }
}

/// The left fold: each further argument is evaluated and must be a number,
/// as must the running value; a comparison leaves a boolean behind, which
/// the next step rejects.
pub open spec fn nums_fold_s(
    env: EnvV,
    scope: int,
    op: NumOp,
    acc: ExprV,
    args: Seq<ExprV>,
    i: int,
    fuel: nat,
) -> (EnvV, Result<ExprV, ErrorV>)
    decreases fuel, 7int, args.len() - i,
{
    if fuel == 0 {
        (env, Err(ErrorV::RecursionLimit))
    } else {
        if i < 0 || i >= args.len() {
            (env, Ok(acc))
        } else {
            let (env1, r) = eval_s(env, scope, args[i], (fuel - 1) as nat);
            match r {
                Err(e) => (env1, Err(e)),
                Ok(y) => match (acc, y) {
                    (ExprV::Num(x), ExprV::Num(yv)) => match num_step(op, x, yv) {
                        Ok(acc2) => nums_fold_s(env1, scope, op, acc2, args, i + 1, fuel),
                        Err(e) => (env1, Err(e)),
                    },
                    (_, y2) => (env1, Err(ErrorV::NotANumber(y2))),
                },
            }
        }
    }
}

/// A single-Q-expression operator: the one argument is evaluated and must
/// be a Q-expression.
pub open spec fn qexpr_op_s(env: EnvV, scope: int, op: QExprOp, args: Seq<ExprV>, fuel: nat) -> (
    EnvV,
    Result<ExprV, ErrorV>,
)
    decreases fuel, 8int, 0int,
{
    if fuel == 0 {
        (env, Err(ErrorV::RecursionLimit))
    } else {
        if args.len() != 1 {
            (env, Err(ErrorV::InvalidNumberOfQExprArguments(op, args.len() as int)))
        } else {
            let (env1, r) = eval_s(env, scope, args[0], (fuel - 1) as nat);
            match r {
                Err(e) => (env1, Err(e)),
                Ok(ExprV::QExpr(q)) => match op {
                    QExprOp::First => if q.len() == 0 {
                        (env1, Err(ErrorV::EmptyQExpr(ExprV::QExpr(q))))
                    } else {
                        (env1, Ok(ExprV::QExpr(seq![q[0]])))
                    },
                    QExprOp::Rest => if q.len() == 0 {
                        (env1, Err(ErrorV::EmptyQExpr(ExprV::QExpr(q))))
                    } else {
                        (env1, Ok(ExprV::QExpr(q.drop_first())))
                    },
                    QExprOp::Len => (env1, Ok(ExprV::Num(wrap32(q.len() as int)))),
                    QExprOp::Eval => eval_s(env1, scope, ExprV::SExpr(q), (fuel - 1) as nat),
                },
                Ok(x) => (env1, Err(ErrorV::NotAQExpr(x))),
            }
        }
    }
}

/// `Cons` prepends its first argument, unevaluated, to the Q-expression
/// its second argument evaluates to — by joining, which evaluates the
/// second argument once more.
pub open spec fn qexprs_cons_s(env: EnvV, scope: int, args: Seq<ExprV>, fuel: nat) -> (EnvV,
    Result<ExprV, ErrorV>)
    decreases fuel, 8int, 0int,
{
    if fuel == 0 {
        (env, Err(ErrorV::RecursionLimit))
    } else {
        if args.len() != 2 {
            (env, Err(ErrorV::InvalidNumberOfQExprsArguments(QExprsOp::Cons, args.len() as int)))
        } else {
            let (env1, r) = eval_s(env, scope, args[1], (fuel - 1) as nat);
            match r {
                Err(e) => (env1, Err(e)),
                Ok(ExprV::QExpr(_)) => join_fold_s(
                    env1,
                    scope,
                    Seq::empty(),
                    seq![ExprV::QExpr(seq![args[0]]), args[1]],
                    0,
                    fuel,
                ),
                Ok(x) => (env1, Err(ErrorV::NotAQExpr(x))),
            }
        }
    }
}

/// `Join` concatenates the Q-expressions its arguments evaluate to.
pub open spec fn qexprs_join_s(env: EnvV, scope: int, args: Seq<ExprV>, fuel: nat) -> (EnvV,
    Result<ExprV, ErrorV>)
    decreases fuel, 8int, 1int,
{
    if args.len() == 0 {
        (env, Err(ErrorV::InvalidNumberOfQExprsArguments(QExprsOp::Join, 0)))
    } else {
        join_fold_s(env, scope, Seq::empty(), args, 0, fuel)
    }
}

/// The concatenation fold behind `Join`.
pub open spec fn join_fold_s(
    env: EnvV,
    scope: int,
    acc: Seq<ExprV>,
    args: Seq<ExprV>,
    i: int,
    fuel: nat,
) -> (EnvV, Result<ExprV, ErrorV>)
    decreases fuel, 7int, args.len() - i,
{
    if fuel == 0 {
        (env, Err(ErrorV::RecursionLimit))
    } else {
        if i < 0 || i >= args.len() {
            (env, Ok(ExprV::QExpr(acc)))
        } else {
            let (env1, r) = eval_s(env, scope, args[i], (fuel - 1) as nat);
            match r {
                Err(e) => (env1, Err(e)),
                Ok(ExprV::QExpr(y)) => join_fold_s(env1, scope, acc + y, args, i + 1, fuel),
                Ok(y) => (env1, Err(ErrorV::NotAQExpr(y))),
            }
        }
    }
}

/// `Def` and `Put`: a Q-expression of identifiers, then exactly that many
/// values; each value is evaluated and bound — globally for `Def`, in the
/// calling frame for `Put`. The result is the empty S-expression.
pub open spec fn qexprs_assign_s(
    env: EnvV,
    scope: int,
    global: bool,
    args: Seq<ExprV>,
    fuel: nat,
) -> (EnvV, Result<ExprV, ErrorV>)
    decreases fuel, 8int, 0int,
{
    if fuel == 0 {
        (env, Err(ErrorV::RecursionLimit))
    } else {
        if args.len() == 0 {
            (env, Err(ErrorV::InvalidNumberOfQExprsArguments(QExprsOp::Def, 0)))
        } else {
            let (env1, r) = eval_s(env, scope, args[0], (fuel - 1) as nat);
            match r {
                Err(e) => (env1, Err(e)),
                Ok(ExprV::QExpr(q)) => if q.len() == args.len() - 1 {
                    assign_pairs_s(env1, scope, global, q, args.drop_first(), 0, None, fuel)
                } else {
                    (env1, Err(ErrorV::UnEqualDefList(args[0], args.drop_first())))
                },
                Ok(_) => (env1, Err(ErrorV::NotAQExpr(args[0]))),
            }
        }
    }
}

/// The binding loop of `Def` and `Put`. Every pair is processed — the
/// value evaluated and, when its name is a symbol, bound — and the first
/// failure, once every pair has run, is the reported one.
pub open spec fn assign_pairs_s(
    env: EnvV,
    scope: int,
    global: bool,
    syms: Seq<ExprV>,
    vals: Seq<ExprV>,
    i: int,
    firsterr: Option<ErrorV>,
    fuel: nat,
) -> (EnvV, Result<ExprV, ErrorV>)
    decreases fuel, 7int, syms.len() - i,
{
    if fuel == 0 {
        (env, Err(ErrorV::RecursionLimit))
    } else {
        if i < 0 || i >= syms.len() || i >= vals.len() {
            match firsterr {
                Some(e) => (env, Err(e)),
                None => (env, Ok(ExprV::SExpr(Seq::empty()))),
            }
        } else {
            let (env1, r) = eval_s(env, scope, vals[i], (fuel - 1) as nat);
            match r {
                Err(e) => {
                    let err2 = match firsterr {
                        Some(e0) => Some(e0),
                        None => Some(e),
                    };
                    assign_pairs_s(env1, scope, global, syms, vals, i + 1, err2, fuel)
                },
                Ok(v) => match syms[i] {
                    ExprV::Sym(s) => {
                        let target = if global {
                            root_of(env1, scope)
                        } else {
                            scope
                        };
                        let env2 = env_with_frame_data(
                            env1,
                            target,
                            frame_set(env1.frames[target].data, s, v),
                        );
                        assign_pairs_s(env2, scope, global, syms, vals, i + 1, firsterr, fuel)
                    },
                    x => {
                        let err2 = match firsterr {
                            Some(e0) => Some(e0),
                            None => Some(ErrorV::NotASymbol(x)),
                        };
                        assign_pairs_s(env1, scope, global, syms, vals, i + 1, err2, fuel)
                    },
                },
            }
        }
    }
}

/// `Lambda`: two Q-expressions — the formals, each an identifier, and the
/// body. The captured frame starts empty.
pub open spec fn qexprs_lambda_s(env: EnvV, scope: int, args: Seq<ExprV>, fuel: nat) -> (EnvV,
    Result<ExprV, ErrorV>)
    decreases fuel, 8int, 0int,
{
    if fuel == 0 {
        (env, Err(ErrorV::RecursionLimit))
    } else {
        if args.len() != 2 {
            (env, Err(ErrorV::InvalidNumberOfQExprsArguments(QExprsOp::Lambda, args.len() as int)))
        } else {
            let (env1, r0) = eval_s(env, scope, args[0], (fuel - 1) as nat);
            match r0 {
                Err(e) => (env1, Err(e)),
                Ok(v0) => {
                    let (env2, r1) = eval_s(env1, scope, args[1], (fuel - 1) as nat);
                    match r1 {
                        Err(e) => (env2, Err(e)),
                        Ok(v1) => match (v0, v1) {
                            (ExprV::QExpr(q), ExprV::QExpr(body)) => match first_non_sym(q, 0) {
                                Some(j) => (env2, Err(ErrorV::NotASymbol(q[j]))),
                                None => (
                                    env2,
                                    Ok(
                                        ExprV::Fun(
                                            FunV::Lambda(
                                                syms_of(q),
                                                Box::new(ExprV::QExpr(body)),
                                                Seq::empty(),
                                            ),
                                        ),
                                    ),
                                ),
                            },
                            (ExprV::QExpr(_), x) => (env2, Err(ErrorV::NotAQExpr(x))),
                            (x, _) => (env2, Err(ErrorV::NotAQExpr(x))),
                        },
                    }
                },
            }
        }
    }
}

/// `Quote` wraps its unevaluated arguments into a Q-expression.
pub open spec fn sexpr_quote_s(env: EnvV, scope: int, args: Seq<ExprV>, fuel: nat) -> (EnvV,
    Result<ExprV, ErrorV>)
    decreases fuel, 8int, 0int,
{
    if args.len() == 0 {
        (env, Err(ErrorV::InvalidNumberOfSExprArguments(SExprOp::Quote, 0)))
    } else {
        (env, Ok(ExprV::QExpr(args)))
    }
}

/// `PrintEnv` appends a dump of the current scope chain to the output.
pub open spec fn sexpr_printenv_s(env: EnvV, scope: int, args: Seq<ExprV>, fuel: nat) -> (EnvV,
    Result<ExprV, ErrorV>)
    decreases fuel, 8int, 0int,
{
    (env_print(env, env_dump_of(env, scope)), Ok(ExprV::QExpr(Seq::empty())))
}

/// Binding a prefix of the formals: each argument is evaluated in a fresh
/// frame made of the bindings so far, chained under the caller, and the
/// result is added to the captured frame.
pub open spec fn bind_formals_s(
    env: EnvV,
    scope: int,
    hmap: Seq<(SymbolV, ExprV)>,
    formals: Seq<SymbolV>,
    args: Seq<ExprV>,
    i: int,
    fuel: nat,
) -> (EnvV, Option<ErrorV>, Seq<(SymbolV, ExprV)>)
    decreases fuel, 8int, formals.len() - i,
{
    if fuel == 0 {
        (env, Some(ErrorV::RecursionLimit), hmap)
    } else {
        if i < 0 || i >= formals.len() || i >= args.len() {
            (env, None, hmap)
        } else {
            let fscope = env.frames.len() as int;
            let enva = EnvV {
                frames: env.frames.push(FrameV { data: hmap, parent: Some(scope) }),
                ..env
            };
            let (env1, r) = eval_s(enva, fscope, args[i], (fuel - 1) as nat);
            match r {
                Err(e) => (env1, Some(e), hmap),
                Ok(v) => bind_formals_s(
                    env1,
                    scope,
                    frame_set(hmap, formals[i], v),
                    formals,
                    args,
                    i + 1,
                    fuel,
                ),
            }
        }
    }
}

/// Evaluating the body: the finished captured frame becomes a new scope
/// under the caller, and the quoted body runs through `Eval` in it.
pub open spec fn eval_body_s(
    env: EnvV,
    scope: int,
    hmap: Seq<(SymbolV, ExprV)>,
    body: ExprV,
    fuel: nat,
) -> (EnvV, Result<ExprV, ErrorV>)
    decreases fuel, 8int, 0int,
{
    if fuel == 0 {
        (env, Err(ErrorV::RecursionLimit))
    } else {
        let newscope = env.frames.len() as int;
        let env2 = EnvV { frames: env.frames.push(FrameV { data: hmap, parent: Some(scope) }), ..env };
        eval_s(
            env2,
            newscope,
            ExprV::SExpr(seq![ExprV::Sym(SymbolV::QExprOp(QExprOp::Eval)), body]),
            (fuel - 1) as nat,
        )
    }
}

/// Applying a lambda. With the rest marker `ऽ` next to last in the formals,
/// the named tail collects the surplus arguments unevaluated. Without it,
/// surplus arguments are an error, and missing ones make a partial
/// application: a lambda over the remaining formals carrying the enlarged
/// captured frame.
pub open spec fn eval_lambda_s(
    env: EnvV,
    scope: int,
    formals: Seq<SymbolV>,
    body: ExprV,
    hmap: Seq<(SymbolV, ExprV)>,
    args: Seq<ExprV>,
    fuel: nat,
) -> (EnvV, Result<ExprV, ErrorV>)
    decreases fuel, 9int, 1int,
{
    if fuel == 0 {
        (env, Err(ErrorV::RecursionLimit))
    } else {
        if formals.len() >= 2 && formals[formals.len() - 2] == rest_marker() {
            let head = formals.take(formals.len() - 2);
            let rest_name = formals[formals.len() - 1];
            if head.len() <= args.len() {
                let (env1, err, hmap1) = bind_formals_s(env, scope, hmap, head, args, 0, fuel);
                match err {
                    Some(e) => (env1, Err(e)),
                    None => {
                        let hmap2 = frame_set(
                            hmap1,
                            rest_name,
                            ExprV::QExpr(args.subrange(head.len() as int, args.len() as int)),
                        );
                        eval_body_s(env1, scope, hmap2, body, fuel)
                    },
                }
            } else {
                let (env1, err, hmap1) = bind_formals_s(
                    env,
                    scope,
                    hmap,
                    head.take(args.len() as int),
                    args,
                    0,
                    fuel,
                );
                match err {
                    Some(e) => (env1, Err(e)),
                    None => {
                        let remaining = head.skip(args.len() as int) + seq![rest_marker(), rest_name];
                        (env1, Ok(ExprV::Fun(FunV::Lambda(remaining, Box::new(body), hmap1))))
                    },
                }
            }
        } else {
            if args.len() > formals.len() {
                (
                    env,
                    Err(ErrorV::TooManyLambdaArguments(formals.len() as int, args.len() as int)),
                )
            } else if args.len() == formals.len() {
                let (env1, err, hmap1) = bind_formals_s(env, scope, hmap, formals, args, 0, fuel);
                match err {
                    Some(e) => (env1, Err(e)),
                    None => eval_body_s(env1, scope, hmap1, body, fuel),
                }
            } else {
                let (env1, err, hmap1) = bind_formals_s(
                    env,
                    scope,
                    hmap,
                    formals.take(args.len() as int),
                    args,
                    0,
                    fuel,
                );
                match err {
                    Some(e) => (env1, Err(e)),
                    None => (
                        env1,
                        Ok(
                            ExprV::Fun(
                                FunV::Lambda(formals.skip(args.len() as int), Box::new(body), hmap1),
                            ),
                        ),
                    ),
                }
            }
        }
    }
}

} // verus!
