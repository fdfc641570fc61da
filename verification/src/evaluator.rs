//! The tree-walking evaluator. `eval` dispatches on the expression variant
//! and is proved, together with built-in dispatch and lambda application,
//! to return exactly what the semantics says.

use vstd::prelude::*;
use vstd::slice::slice_subrange;

use crate::environment::{binds_set, push_frame, Env};
use crate::semantics::{
    bind_formals_s, core_call_s, eval_body_s, eval_lambda_s, eval_s, rest_marker,
};
use crate::types::{
    binds_clone, binds_view, expr_clone, exprs_clone_slice, exprs_view, opt_err_view, res_view,
    sym_clone, sym_eq, syms_clone_slice, syms_view, Error, Expr, ExprV, Function, QExprOp, Symbol,
};

verus! {

/// Evaluates an expression against the environment. The current scope is
/// left as it was; the frames may have grown and gained bindings. Fuel
/// bounds the depth of nested evaluation.
pub fn eval(env: &mut Env, expr: &Expr, fuel: u64) -> (r: Result<Expr, Error>)
    requires
        old(env).wf(),
    ensures
        final(env).wf(),
        final(env).cur == old(env).cur,
        final(env)@.frames.len() >= old(env)@.frames.len(),
        ({
            let (e2, r2) = eval_s(old(env)@, old(env).cur as int, expr@, fuel as nat);
            final(env)@ == e2 && res_view(r) == r2
        }),
    decreases fuel, 10int, 0int,
{
    if fuel == 0 {
        return Err(Error::RecursionLimit);
    }
    match expr {
        Expr::Bool(_) => Ok(expr_clone(expr)),
        Expr::Num(_) => Ok(expr_clone(expr)),
        Expr::Str(_) => Ok(expr_clone(expr)),
        Expr::Sym(s) => crate::environment::lookup(env, s),
        Expr::QExpr(_) => Ok(expr_clone(expr)),
        Expr::Fun(_) => Ok(expr_clone(expr)),
        Expr::SExpr(v) => {
            if v.len() == 0 {
                Ok(expr_clone(expr))
            } else if v.len() == 1 {
                eval(env, &v[0], fuel - 1)
            } else {
                let rh = eval(env, &v[0], fuel - 1);
                match rh {
                    Ok(Expr::Sym(sym)) => {
                        match crate::environment::lookup(env, &sym) {
                            Ok(val) => {
                                let ghost valv = val@;
                                let mut n_exprs: Vec<Expr> = Vec::new();
                                n_exprs.push(val);
                                let mut k: usize = 1;
                                while k < v.len()
                                    invariant
                                        1 <= k <= v@.len(),
                                        n_exprs@.len() == k,
                                        exprs_view(n_exprs@)[0] == valv,
                                        forall|j: int|
                                            1 <= j < k ==> exprs_view(n_exprs@)[j] == exprs_view(
                                                v@,
                                            )[j],
                                    decreases v@.len() - k,
                                {
                                    let ghost pre = n_exprs@;
                                    n_exprs.push(expr_clone(&v[k]));
                                    proof {
                                        assert(forall|j: int|
                                            0 <= j < k ==> n_exprs@[j] == pre[j]);
                                    }
                                    k = k + 1;
                                }
                                let newe = Expr::SExpr(n_exprs);
                                proof {
                                    assert(exprs_view(n_exprs@) =~= seq![valv] + exprs_view(
                                        v@,
                                    ).drop_first());
                                }
                                eval(env, &newe, fuel - 1)
                            },
                            Err(e) => Err(e),
                        }
                    },
                    Ok(Expr::Fun(Function::Core(sym))) => {
                        let args = slice_subrange(v.as_slice(), 1, v.len());
                        proof {
                            assert(exprs_view(args@) =~= exprs_view(v@).drop_first());
                        }
                        core_call(env, &sym, args, fuel)
                    },
                    Ok(Expr::Fun(Function::Lambda(formals, body, hmap))) => {
                        let args = slice_subrange(v.as_slice(), 1, v.len());
                        proof {
                            assert(exprs_view(args@) =~= exprs_view(v@).drop_first());
                        }
                        eval_lambda(env, formals, body, hmap, args, fuel)
                    },
                    _ => Err(Error::InvalidOp(expr_clone(&v[0]))),
                }
            }
        },
    }
}

/// Built-in dispatch on the reserved symbol of a core function value.
pub fn core_call(env: &mut Env, sym: &Symbol, exprs: &[Expr], fuel: u64) -> (r: Result<
    Expr,
    Error,
>)
    requires
        old(env).wf(),
        fuel >= 1,
    ensures
        final(env).wf(),
        final(env).cur == old(env).cur,
        final(env)@.frames.len() >= old(env)@.frames.len(),
        ({
            let (e2, r2) = core_call_s(old(env)@, old(env).cur as int, sym@, exprs_view(exprs@),
                fuel as nat);
            final(env)@ == e2 && res_view(r) == r2
        }),
    decreases fuel, 9int, 0int,
{
    match sym {
        Symbol::ExprsOp(o) => match o {
            crate::types::ExprsOp::If => crate::builtins::exprs_if(env, exprs, fuel),
            crate::types::ExprsOp::Equal => crate::builtins::exprs_equal(env, exprs, fuel),
            crate::types::ExprsOp::NotEqual => crate::builtins::exprs_not_equal(env, exprs, fuel),
            crate::types::ExprsOp::Import => crate::builtins::exprs_import(env, exprs, fuel),
            crate::types::ExprsOp::Print => crate::builtins::exprs_print(env, exprs, fuel),
            crate::types::ExprsOp::Error => crate::builtins::exprs_error(env, exprs, fuel),
        },
        Symbol::NumOp(o) => crate::builtins::nums_op(env, *o, exprs, fuel),
        Symbol::QExprOp(o) => crate::builtins::qexpr_op(env, *o, exprs, fuel),
        Symbol::QExprsOp(o) => match o {
            crate::types::QExprsOp::Cons => crate::builtins::qexprs_cons(env, exprs, fuel),
            crate::types::QExprsOp::Join => crate::builtins::qexprs_join(env, exprs, fuel),
            crate::types::QExprsOp::Def => crate::builtins::qexprs_def(env, exprs, fuel),
            crate::types::QExprsOp::Put => crate::builtins::qexprs_put(env, exprs, fuel),
            crate::types::QExprsOp::Lambda => crate::builtins::qexprs_lambda(env, exprs, fuel),
        },
        Symbol::SExprOp(o) => match o {
            crate::types::SExprOp::Quote => crate::builtins::sexpr_quote(env, exprs, fuel),
            crate::types::SExprOp::PrintEnv => crate::builtins::sexpr_printenv(env, exprs, fuel),
        },
        Symbol::Identifier(_) => Err(
            Error::InvalidOp(Expr::Fun(Function::Core(sym_clone(sym)))),
        ),
    }
}

/// Binds a prefix of the formals: each argument is evaluated in a fresh
/// frame made of the bindings so far, chained under the caller, and the
/// result lands in the captured frame.
fn bind_formals(
    env: &mut Env,
    hmap: &mut Vec<(Symbol, Expr)>,
    formals: &[Symbol],
    args: &[Expr],
    fuel: u64,
) -> (r: Option<Error>)
    requires
        old(env).wf(),
        fuel >= 1,
        formals@.len() <= args@.len(),
    ensures
        final(env).wf(),
        final(env).cur == old(env).cur,
        final(env)@.frames.len() >= old(env)@.frames.len(),
        ({
            let (e2, err2, h2) = bind_formals_s(old(env)@, old(env).cur as int,
                binds_view(old(hmap)@), syms_view(formals@), exprs_view(args@), 0, fuel as nat);
            final(env)@ == e2 && opt_err_view(r) == err2 && binds_view(final(hmap)@) == h2
        }),
    decreases fuel, 8int, 0int,
{
    let saved = env.cur;
    let n_f = formals.len();
    let mut i: usize = 0;
    while i < n_f
        invariant
            n_f == formals@.len(),
            env.wf(),
            env.cur == saved,
            saved == old(env).cur,
            env@.frames.len() >= old(env)@.frames.len(),
            fuel >= 1,
            i <= formals@.len() <= args@.len(),
            ({
                let (e2, err2, h2) = bind_formals_s(old(env)@, old(env).cur as int,
                    binds_view(old(hmap)@), syms_view(formals@), exprs_view(args@), 0,
                    fuel as nat);
                (e2, err2, h2) == bind_formals_s(env@, saved as int, binds_view(hmap@),
                    syms_view(formals@), exprs_view(args@), i as int, fuel as nat)
            }),
        decreases formals@.len() - i,
    {
        let fdata = binds_clone(hmap);
        let fscope = push_frame(env, fdata, saved);
        env.cur = fscope;
        let rv = eval(env, &args[i], fuel - 1);
        env.cur = saved;
        match rv {
            Err(e) => {
                return Some(e);
            },
            Ok(v) => {
                binds_set(hmap, &formals[i], &v);
            },
        }
        i = i + 1;
    }
    None
}

/// Runs the quoted body in a new scope built from the captured frame.
#[verifier::rlimit(50)]
fn eval_body(env: &mut Env, hmap: Vec<(Symbol, Expr)>, body: Box<Expr>, fuel: u64) -> (r: Result<
    Expr,
    Error,
>)
    requires
        old(env).wf(),
        fuel >= 1,
    ensures
        final(env).wf(),
        final(env).cur == old(env).cur,
        final(env)@.frames.len() >= old(env)@.frames.len(),
        ({
            let (e2, r2) = eval_body_s(old(env)@, old(env).cur as int, binds_view(hmap@),
                (*body)@, fuel as nat);
            final(env)@ == e2 && res_view(r) == r2
        }),
    decreases fuel, 8int, 0int,
{
    let saved = env.cur;
    let newscope = push_frame(env, hmap, saved);
    env.cur = newscope;
    let mut cv: Vec<Expr> = Vec::new();
    cv.push(Expr::Sym(Symbol::QExprOp(QExprOp::Eval)));
    let ghost bodyv = (*body)@;
    cv.push(*body);
    let call = Expr::SExpr(cv);
    proof {
        assert(exprs_view(call->SExpr_0@) =~= seq![
            ExprV::Sym(crate::types::SymbolV::QExprOp(QExprOp::Eval)),
            bodyv,
        ]);
    }
    let r = eval(env, &call, fuel - 1);
    env.cur = saved;
    r
}

/// Applies a lambda to unevaluated arguments: rest-marker collection,
/// exact application, or partial application.
#[verifier::rlimit(100)]
pub fn eval_lambda(
    env: &mut Env,
    formals: Vec<Symbol>,
    body: Box<Expr>,
    hmap: Vec<(Symbol, Expr)>,
    args: &[Expr],
    fuel: u64,
) -> (r: Result<Expr, Error>)
    requires
        old(env).wf(),
        fuel >= 1,
    ensures
        final(env).wf(),
        final(env).cur == old(env).cur,
        final(env)@.frames.len() >= old(env)@.frames.len(),
        ({
            let (e2, r2) = eval_lambda_s(old(env)@, old(env).cur as int, syms_view(formals@),
                (*body)@, binds_view(hmap@), exprs_view(args@), fuel as nat);
            final(env)@ == e2 && res_view(r) == r2
        }),
    decreases fuel, 9int, 1int,
{
    let marker = Symbol::Identifier("ऽ".to_owned());
    let is_rest = formals.len() >= 2 && sym_eq(&formals[formals.len() - 2], &marker);
    proof {
        assert(marker@ == rest_marker());
    }
    if is_rest {
        let head_len = formals.len() - 2;
        let rest_name = sym_clone(&formals[formals.len() - 1]);
        if head_len <= args.len() {
            let mut hm = hmap;
            let head = slice_subrange(formals.as_slice(), 0, head_len);
            proof {
                assert(syms_view(head@) =~= syms_view(formals@).take(head_len as int));
            }
            match bind_formals(env, &mut hm, head, args, fuel) {
                Some(e) => Err(e),
                None => {
                    let rest_args = exprs_clone_slice(
                        slice_subrange(args, head_len, args.len()),
                    );
                    proof {
                        assert(exprs_view(rest_args@) =~= exprs_view(args@).subrange(
                            head_len as int,
                            args@.len() as int,
                        ));
                    }
                    let rv = Expr::QExpr(rest_args);
                    binds_set(&mut hm, &rest_name, &rv);
                    eval_body(env, hm, body, fuel)
                },
            }
        } else {
            let mut hm = hmap;
            let head = slice_subrange(formals.as_slice(), 0, args.len());
            proof {
                assert(syms_view(head@) =~= syms_view(formals@).take(head_len as int).take(
                    args@.len() as int,
                ));
            }
            match bind_formals(env, &mut hm, head, args, fuel) {
                Some(e) => Err(e),
                None => {
                    let tail = slice_subrange(formals.as_slice(), args.len(), head_len);
                    let ghost tailv = tail@;
                    let base = syms_clone_slice(tail);
                    let ghost basev = base@;
                    let mut remaining = base;
                    remaining.push(Symbol::Identifier("ऽ".to_owned()));
                    remaining.push(rest_name);
                    proof {
                        let fv = syms_view(formals@);
                        let target = fv.take(head_len as int).skip(args@.len() as int) + seq![
                            rest_marker(),
                            fv[formals@.len() - 1],
                        ];
                        assert(remaining@.len() == target.len());
                        assert forall|j: int| 0 <= j < basev.len() implies syms_view(
                            remaining@,
                        )[j] == target[j] by {
                            assert(remaining@[j] == basev[j]);
                            assert(syms_view(basev)[j] == syms_view(tailv)[j]);
                            assert(tailv[j] == formals@[args@.len() + j]);
                            assert(fv.take(head_len as int).skip(args@.len() as int)[j] == fv[
                                args@.len() + j
                            ]);
                        };
                        assert(syms_view(remaining@)[basev.len() as int] == rest_marker());
                        assert(syms_view(remaining@)[(basev.len() + 1) as int] == fv[formals@.len() - 1]);
                        assert(syms_view(remaining@) =~= target);
                    }
                    Ok(Expr::Fun(Function::Lambda(remaining, body, hm)))
                },
            }
        }
    } else {
        if args.len() > formals.len() {
            Err(Error::TooManyLambdaArguments(formals.len(), args.len()))
        } else if args.len() == formals.len() {
            let mut hm = hmap;
            match bind_formals(env, &mut hm, formals.as_slice(), args, fuel) {
                Some(e) => Err(e),
                None => eval_body(env, hm, body, fuel),
            }
        } else {
            let mut hm = hmap;
            let head = slice_subrange(formals.as_slice(), 0, args.len());
            proof {
                assert(syms_view(head@) =~= syms_view(formals@).take(args@.len() as int));
            }
            match bind_formals(env, &mut hm, head, args, fuel) {
                Some(e) => Err(e),
                None => {
                    let remaining = syms_clone_slice(
                        slice_subrange(formals.as_slice(), args.len(), formals.len()),
                    );
                    proof {
                        assert(syms_view(remaining@) =~= syms_view(formals@).skip(
                            args@.len() as int,
                        ));
                    }
                    Ok(Expr::Fun(Function::Lambda(remaining, body, hm)))
                },
            }
        }
    }
}

} // verus!
