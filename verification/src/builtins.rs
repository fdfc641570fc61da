//! The built-in operators. Each one receives the environment and its
//! unevaluated arguments, decides itself what to evaluate, and is proved
//! to return exactly what the corresponding semantics function says.

use vstd::prelude::*;

use crate::display::display_expr;
use crate::environment::{bind_global_symbol, bind_local_symbol, Env};
use crate::evaluator::eval;
use crate::ntypes::Sankhya;
use crate::semantics::{
    assign_pairs_s, eval_forms_s, exprs_compare_s, exprs_equal_s, exprs_error_s, exprs_if_s,
    exprs_import_s, exprs_not_equal_s, exprs_print_s, file_find, join_fold_s, num_step,
    nums_fold_s, nums_op_s, qexpr_op_s, qexprs_assign_s, qexprs_cons_s, qexprs_join_s,
    qexprs_lambda_s, sexpr_printenv_s, sexpr_quote_s,
};
use crate::types::{
    expr_clone, exprs_view, res_view, sym_clone, Boolean, Error, Expr, ExprV, ExprsOp, Function,
    NumOp, QExprOp, QExprsOp, SExprOp, Symbol,
};

verus! {

/// One arithmetic or comparison step.
fn num_step_exec(op: NumOp, x: &Sankhya, y: &Sankhya) -> (r: Result<Expr, Error>)
    ensures
        res_view(r) == num_step(op, x@, y@),
{
    match op {
        NumOp::Add => Ok(Expr::Num(x.plus(y))),
        NumOp::Subtract => Ok(Expr::Num(x.minus(y))),
        NumOp::Multiply => Ok(Expr::Num(x.times(y))),
        NumOp::Divide => if y.0 == 0 {
            Err(Error::DivideByZero(*x, *y))
        } else {
            Ok(Expr::Num(x.divided_by(y)))
        },
        NumOp::GreaterThan => Ok(Expr::Bool(Boolean(x.0 > y.0))),
        NumOp::GreaterThanOrEqual => Ok(Expr::Bool(Boolean(x.0 >= y.0))),
        NumOp::LessThan => Ok(Expr::Bool(Boolean(x.0 < y.0))),
        NumOp::LessThanOrEqual => Ok(Expr::Bool(Boolean(x.0 <= y.0))),
    }
}

/// `If`: condition, then-branch, else-branch.
pub fn exprs_if(env: &mut Env, exprs: &[Expr], fuel: u64) -> (r: Result<Expr, Error>)
    requires
        old(env).wf(),
        fuel >= 1,
    ensures
        final(env).wf(),
        final(env).cur == old(env).cur,
        final(env)@.frames.len() >= old(env)@.frames.len(),
        ({
            let (e2, r2) = exprs_if_s(old(env)@, old(env).cur as int, exprs_view(exprs@),
                fuel as nat);
            final(env)@ == e2 && res_view(r) == r2
        }),
    decreases fuel, 8int, 0int,
{
    if exprs.len() != 3 {
        return Err(Error::InvalidNumberOfExprsArguments(ExprsOp::If, exprs.len()));
    }
    let rc = eval(env, &exprs[0], fuel - 1);
    match rc {
        Err(e) => Err(e),
        Ok(Expr::Bool(Boolean(b))) => match (&exprs[1], &exprs[2]) {
            (Expr::QExpr(q1), Expr::QExpr(q2)) => {
                let branch = if b {
                    q1
                } else {
                    q2
                };
                let se = Expr::SExpr(crate::types::exprs_clone(branch));
                eval(env, &se, fuel - 1)
            },
            (Expr::QExpr(_), x) => Err(Error::NotAQExpr(expr_clone(x))),
            (x, _) => Err(Error::NotAQExpr(expr_clone(x))),
        },
        Ok(x) => Err(Error::NotABoolean(x)),
    }
}

/// `Equal`: two arguments.
pub fn exprs_equal(env: &mut Env, exprs: &[Expr], fuel: u64) -> (r: Result<Expr, Error>)
    requires
        old(env).wf(),
        fuel >= 1,
    ensures
        final(env).wf(),
        final(env).cur == old(env).cur,
        final(env)@.frames.len() >= old(env)@.frames.len(),
        ({
            let (e2, r2) = exprs_equal_s(old(env)@, old(env).cur as int, exprs_view(exprs@),
                fuel as nat);
            final(env)@ == e2 && res_view(r) == r2
        }),
    decreases fuel, 8int, 0int,
{
    if exprs.len() == 2 {
        exprs_compare(env, &exprs[0], &exprs[1], fuel)
    } else {
        Err(Error::InvalidNumberOfExprsArguments(ExprsOp::Equal, exprs.len()))
    }
}

/// Structural comparison with forcing of symbols and S-expressions.
pub fn exprs_compare(env: &mut Env, e1: &Expr, e2: &Expr, fuel: u64) -> (r: Result<Expr, Error>)
    requires
        old(env).wf(),
    ensures
        final(env).wf(),
        final(env).cur == old(env).cur,
        final(env)@.frames.len() >= old(env)@.frames.len(),
        ({
            let (env2, r2) = exprs_compare_s(old(env)@, old(env).cur as int, e1@, e2@,
                fuel as nat);
            final(env)@ == env2 && res_view(r) == r2
        }),
    decreases fuel, 7int, 0int,
{
    if fuel == 0 {
        return Err(Error::RecursionLimit);
    }
    match (e1, e2) {
        (Expr::Bool(Boolean(b1)), Expr::Bool(Boolean(b2))) => Ok(
            Expr::Bool(Boolean(*b1 == *b2)),
        ),
        (Expr::Num(n1), Expr::Num(n2)) => Ok(Expr::Bool(Boolean(n1.0 == n2.0))),
        (Expr::Str(s1), Expr::Str(s2)) => Ok(Expr::Bool(Boolean(*s1 == *s2))),
        (Expr::Sym(_), Expr::Sym(_)) => {
            let r1 = eval(env, e1, fuel - 1);
            match r1 {
                Err(e) => Err(e),
                Ok(v1) => {
                    let r2 = eval(env, e2, fuel - 1);
                    match r2 {
                        Err(e) => Err(e),
                        Ok(v2) => Ok(Expr::Bool(Boolean(crate::types::expr_eq(&v1, &v2)))),
                    }
                },
            }
        },
        (Expr::QExpr(q1), Expr::QExpr(q2)) => Ok(
            Expr::Bool(Boolean(crate::types::exprs_eq(q1, q2))),
        ),
        (Expr::Fun(f1), Expr::Fun(f2)) => Ok(Expr::Bool(Boolean(crate::types::fun_eq(f1, f2)))),
        (Expr::SExpr(_), _) => {
            let r1 = eval(env, e1, fuel - 1);
            match r1 {
                Err(e) => Err(e),
                Ok(v1) => exprs_compare(env, &v1, e2, fuel - 1),
            }
        },
        (_, Expr::SExpr(_)) => {
            let r2 = eval(env, e2, fuel - 1);
            match r2 {
                Err(e) => Err(e),
                Ok(v2) => exprs_compare(env, e1, &v2, fuel - 1),
            }
        },
        (Expr::Sym(_), _) => {
            let r1 = eval(env, e1, fuel - 1);
            match r1 {
                Err(e) => Err(e),
                Ok(v1) => exprs_compare(env, &v1, e2, fuel - 1),
            }
        },
        (_, Expr::Sym(_)) => {
            let r2 = eval(env, e2, fuel - 1);
            match r2 {
                Err(e) => Err(e),
                Ok(v2) => exprs_compare(env, e1, &v2, fuel - 1),
            }
        },
        _ => Ok(Expr::Bool(Boolean(false))),
    }
}

/// `NotEqual` negates `Equal`.
pub fn exprs_not_equal(env: &mut Env, exprs: &[Expr], fuel: u64) -> (r: Result<Expr, Error>)
    requires
        old(env).wf(),
        fuel >= 1,
    ensures
        final(env).wf(),
        final(env).cur == old(env).cur,
        final(env)@.frames.len() >= old(env)@.frames.len(),
        ({
            let (e2, r2) = exprs_not_equal_s(old(env)@, old(env).cur as int, exprs_view(exprs@),
                fuel as nat);
            final(env)@ == e2 && res_view(r) == r2
        }),
    decreases fuel, 8int, 1int,
{
    let r = exprs_equal(env, exprs, fuel);
    match r {
        Ok(Expr::Bool(Boolean(b))) => Ok(Expr::Bool(Boolean(!b))),
        Ok(_) => Ok(Expr::Bool(Boolean(true))),
        Err(e) => Err(e),
    }
}

/// `Import`: evaluates every top-level form of the named source against
/// the current environment.
pub fn exprs_import(env: &mut Env, exprs: &[Expr], fuel: u64) -> (r: Result<Expr, Error>)
    requires
        old(env).wf(),
        fuel >= 1,
    ensures
        final(env).wf(),
        final(env).cur == old(env).cur,
        final(env)@.frames.len() >= old(env)@.frames.len(),
        ({
            let (e2, r2) = exprs_import_s(old(env)@, old(env).cur as int, exprs_view(exprs@),
                fuel as nat);
            final(env)@ == e2 && res_view(r) == r2
        }),
    decreases fuel, 8int, 0int,
{
    if exprs.len() != 1 {
        return Err(Error::InvalidNumberOfExprsArguments(ExprsOp::Import, exprs.len()));
    }
    match &exprs[0] {
        Expr::Sym(Symbol::Identifier(target)) => {
            match find_file(env, target) {
                None => Err(Error::ImportError(expr_clone(&exprs[0]))),
                Some(contents) => {
                    match crate::parser::parse(contents.as_str()) {
                        Err(_) => Err(Error::ParseError(contents)),
                        Ok(Expr::SExpr(forms)) => {
                            let n = forms.len();
                            let mut j: usize = 0;
                            while j < n
                                invariant
                                    env.wf(),
                                    env.cur == old(env).cur,
                                    env@.frames.len() >= old(env)@.frames.len(),
                                    fuel >= 1,
                                    n == forms@.len(),
                                    j <= n,
                                    ({
                                        let (e2, r2) = exprs_import_s(old(env)@,
                                            old(env).cur as int, exprs_view(exprs@),
                                            fuel as nat);
                                        (e2, r2) == eval_forms_s(env@, old(env).cur as int,
                                            exprs_view(forms@), j as int, fuel as nat)
                                    }),
                                decreases n - j,
                            {
                                let rf = eval(env, &forms[j], fuel - 1);
                                match rf {
                                    Err(e) => {
                                        return Err(e);
                                    },
                                    Ok(_) => {},
                                }
                                j = j + 1;
                            }
                            Ok(crate::types::empty_qexpr())
                        },
                        Ok(_) => Err(Error::ParseError(contents)),
                    }
                },
            }
        },
        x => Err(Error::NotAnIdentifier(expr_clone(x))),
    }
}

/// The contents of the first importable source with the given name.
fn find_file(env: &Env, name: &String) -> (r: Option<String>)
    ensures
        match r {
            Some(c) => file_find(env@.files, name@) == Some(c@),
            None => file_find(env@.files, name@) is None,
        },
{
    let m = env.files.len();
    let mut i: usize = 0;
    proof {
        assert(env@.files.skip(0) =~= env@.files);
    }
    while i < m
        invariant
            m == env.files@.len(),
            i <= m,
            file_find(env@.files, name@) == file_find(env@.files.skip(i as int), name@),
        decreases m - i,
    {
        proof {
            assert(env@.files.skip(i as int)[0] == env@.files[i as int]);
            assert(env@.files.skip(i as int).drop_first() =~= env@.files.skip(i + 1));
        }
        if env.files[i].0 == *name {
            return Some(env.files[i].1.clone());
        }
        i = i + 1;
    }
    proof {
        assert(env@.files.skip(m as int).len() == 0);
    }
    None
}

/// `Print`: appends the display form of its evaluated argument to the
/// output.
pub fn exprs_print(env: &mut Env, exprs: &[Expr], fuel: u64) -> (r: Result<Expr, Error>)
    requires
        old(env).wf(),
        fuel >= 1,
    ensures
        final(env).wf(),
        final(env).cur == old(env).cur,
        final(env)@.frames.len() >= old(env)@.frames.len(),
        ({
            let (e2, r2) = exprs_print_s(old(env)@, old(env).cur as int, exprs_view(exprs@),
                fuel as nat);
            final(env)@ == e2 && res_view(r) == r2
        }),
    decreases fuel, 8int, 0int,
{
    if exprs.len() != 1 {
        return Err(Error::InvalidNumberOfExprsArguments(ExprsOp::Print, exprs.len()));
    }
    let rv = eval(env, &exprs[0], fuel - 1);
    match rv {
        Err(e) => Err(e),
        Ok(v) => {
            let ghost env1 = env@;
            let line = display_expr(&v);
            env.output.push(line);
            proof {
                assert(env@.output =~= env1.output.push(crate::display::display_of(v@)));
                assert(env@.frames =~= env1.frames);
                assert(env@.files =~= env1.files);
                assert(env@ =~= crate::semantics::env_print(env1, crate::display::display_of(
                    v@,
                )));
            }
            Ok(crate::types::empty_qexpr())
        },
    }
}

/// `Error`: raises the string its argument evaluates to.
pub fn exprs_error(env: &mut Env, exprs: &[Expr], fuel: u64) -> (r: Result<Expr, Error>)
    requires
        old(env).wf(),
        fuel >= 1,
    ensures
        final(env).wf(),
        final(env).cur == old(env).cur,
        final(env)@.frames.len() >= old(env)@.frames.len(),
        ({
            let (e2, r2) = exprs_error_s(old(env)@, old(env).cur as int, exprs_view(exprs@),
                fuel as nat);
            final(env)@ == e2 && res_view(r) == r2
        }),
    decreases fuel, 8int, 0int,
{
    if exprs.len() != 1 {
        return Err(Error::InvalidNumberOfExprsArguments(ExprsOp::Error, exprs.len()));
    }
    let rv = eval(env, &exprs[0], fuel - 1);
    match rv {
        Err(e) => Err(e),
        Ok(Expr::Str(t)) => Err(Error::ThrowError(t)),
        Ok(x) => Err(Error::NotAString(x)),
    }
}

/// An arithmetic or comparison operator: a left fold over the evaluated
/// arguments.
pub fn nums_op(env: &mut Env, op: NumOp, exprs: &[Expr], fuel: u64) -> (r: Result<Expr, Error>)
    requires
        old(env).wf(),
        fuel >= 1,
    ensures
        final(env).wf(),
        final(env).cur == old(env).cur,
        final(env)@.frames.len() >= old(env)@.frames.len(),
        ({
            let (e2, r2) = nums_op_s(old(env)@, old(env).cur as int, op, exprs_view(exprs@),
                fuel as nat);
            final(env)@ == e2 && res_view(r) == r2
        }),
    decreases fuel, 8int, 0int,
{
    if exprs.len() == 0 {
        return Err(Error::InvalidNumberOfNumArguments(op, 0));
    }
    let r0 = eval(env, &exprs[0], fuel - 1);
    match r0 {
        Err(e) => Err(e),
        Ok(Expr::Num(n)) => {
            let mut acc: Expr = Expr::Num(n);
            let mut i: usize = 1;
            let n_args = exprs.len();
            while i < n_args
                invariant
                    env.wf(),
                    env.cur == old(env).cur,
                    env@.frames.len() >= old(env)@.frames.len(),
                    fuel >= 1,
                    n_args == exprs@.len(),
                    1 <= i <= exprs@.len(),
                    ({
                        let (e2, r2) = nums_op_s(old(env)@, old(env).cur as int, op,
                            exprs_view(exprs@), fuel as nat);
                        (e2, r2) == nums_fold_s(env@, old(env).cur as int, op, acc@,
                            exprs_view(exprs@), i as int, fuel as nat)
                    }),
                decreases exprs@.len() - i,
            {
                let ry = eval(env, &exprs[i], fuel - 1);
                match ry {
                    Err(e) => {
                        return Err(e);
                    },
                    Ok(y) => {
                        let step = match (&acc, &y) {
                            (Expr::Num(x), Expr::Num(yv)) => num_step_exec(op, x, yv),
                            _ => Err(Error::NotANumber(y)),
                        };
                        match step {
                            Ok(acc2) => {
                                acc = acc2;
                            },
                            Err(e) => {
                                return Err(e);
                            },
                        }
                    },
                }
                i = i + 1;
            }
            Ok(acc)
        },
        Ok(x) => Err(Error::NotANumber(x)),
    }
}

/// The 32-bit number a length becomes, two's-complement style.
fn len_to_sankhya(n: usize) -> (r: Sankhya)
    ensures
        r@ == crate::ntypes::wrap32(n as int),
{
    let m: u64 = (n as u64) % 0x1_0000_0000;
    proof {
        assert(m == (n as int) % 0x1_0000_0000);
    }
    if m > 0x7fff_ffff {
        Sankhya((m as i64 - 0x1_0000_0000) as i32)
    } else {
        Sankhya(m as i32)
    }
}

/// A single-Q-expression operator: first, rest, length, or evaluation.
pub fn qexpr_op(env: &mut Env, op: QExprOp, exprs: &[Expr], fuel: u64) -> (r: Result<Expr, Error>)
    requires
        old(env).wf(),
        fuel >= 1,
    ensures
        final(env).wf(),
        final(env).cur == old(env).cur,
        final(env)@.frames.len() >= old(env)@.frames.len(),
        ({
            let (e2, r2) = qexpr_op_s(old(env)@, old(env).cur as int, op, exprs_view(exprs@),
                fuel as nat);
            final(env)@ == e2 && res_view(r) == r2
        }),
    decreases fuel, 8int, 0int,
{
    if exprs.len() != 1 {
        return Err(Error::InvalidNumberOfQExprArguments(op, exprs.len()));
    }
    let rv = eval(env, &exprs[0], fuel - 1);
    match rv {
        Err(e) => Err(e),
        Ok(Expr::QExpr(q)) => match op {
            QExprOp::First => {
                if q.len() == 0 {
                    Err(Error::EmptyQExpr(Expr::QExpr(q)))
                } else {
                    let mut out: Vec<Expr> = Vec::new();
                    out.push(expr_clone(&q[0]));
                    proof {
                        assert(exprs_view(out@) =~= seq![exprs_view(q@)[0]]);
                    }
                    Ok(Expr::QExpr(out))
                }
            },
            QExprOp::Rest => {
                if q.len() == 0 {
                    Err(Error::EmptyQExpr(Expr::QExpr(q)))
                } else {
                    let out = crate::types::exprs_clone_slice(
                        vstd::slice::slice_subrange(q.as_slice(), 1, q.len()),
                    );
                    proof {
                        assert(exprs_view(out@) =~= exprs_view(q@).drop_first());
                    }
                    Ok(Expr::QExpr(out))
                }
            },
            QExprOp::Len => Ok(Expr::Num(len_to_sankhya(q.len()))),
            QExprOp::Eval => {
                let se = Expr::SExpr(q);
                eval(env, &se, fuel - 1)
            },
        },
        Ok(x) => Err(Error::NotAQExpr(x)),
    }
}

/// `Cons` prepends its first argument to the Q-expression its second
/// evaluates to, by joining.
pub fn qexprs_cons(env: &mut Env, exprs: &[Expr], fuel: u64) -> (r: Result<Expr, Error>)
    requires
        old(env).wf(),
        fuel >= 1,
    ensures
        final(env).wf(),
        final(env).cur == old(env).cur,
        final(env)@.frames.len() >= old(env)@.frames.len(),
        ({
            let (e2, r2) = qexprs_cons_s(old(env)@, old(env).cur as int, exprs_view(exprs@),
                fuel as nat);
            final(env)@ == e2 && res_view(r) == r2
        }),
    decreases fuel, 8int, 0int,
{
    if exprs.len() != 2 {
        return Err(Error::InvalidNumberOfQExprsArguments(QExprsOp::Cons, exprs.len()));
    }
    let rv = eval(env, &exprs[1], fuel - 1);
    match rv {
        Err(e) => Err(e),
        Ok(Expr::QExpr(_)) => {
            let mut wrapped: Vec<Expr> = Vec::new();
            wrapped.push(expr_clone(&exprs[0]));
            let mut newargs: Vec<Expr> = Vec::new();
            newargs.push(Expr::QExpr(wrapped));
            newargs.push(expr_clone(&exprs[1]));
            proof {
                assert(exprs_view(newargs@[0]->QExpr_0@) =~= seq![exprs_view(exprs@)[0]]);
                assert(exprs_view(newargs@) =~= seq![
                    ExprV::QExpr(seq![exprs_view(exprs@)[0]]),
                    exprs_view(exprs@)[1],
                ]);
                assert(exprs_view(Seq::<Expr>::empty()) =~= Seq::<ExprV>::empty());
            }
            let mut out: Vec<Expr> = Vec::new();
            proof {
                assert(exprs_view(out@) =~= Seq::<ExprV>::empty());
            }
            let n_args = newargs.len();
            let mut i: usize = 0;
            while i < n_args
                invariant
                    env.wf(),
                    env.cur == old(env).cur,
                    env@.frames.len() >= old(env)@.frames.len(),
                    fuel >= 1,
                    n_args == newargs@.len(),
                    i <= n_args,
                    ({
                        let (e2, r2) = qexprs_cons_s(old(env)@, old(env).cur as int,
                            exprs_view(exprs@), fuel as nat);
                        (e2, r2) == join_fold_s(env@, old(env).cur as int, exprs_view(out@),
                            exprs_view(newargs@), i as int, fuel as nat)
                    }),
                decreases n_args - i,
            {
                let ry = eval(env, &newargs[i], fuel - 1);
                match ry {
                    Err(e) => {
                        return Err(e);
                    },
                    Ok(Expr::QExpr(mut y)) => {
                        let ghost pre = exprs_view(out@);
                        let ghost yv = exprs_view(y@);
                        out.append(&mut y);
                        proof {
                            assert(exprs_view(out@) =~= pre + yv);
                        }
                    },
                    Ok(y) => {
                        return Err(Error::NotAQExpr(y));
                    },
                }
                i = i + 1;
            }
            Ok(Expr::QExpr(out))
        },
        Ok(x) => Err(Error::NotAQExpr(x)),
    }
}

/// `Join` concatenates the Q-expressions its arguments evaluate to.
pub fn qexprs_join(env: &mut Env, exprs: &[Expr], fuel: u64) -> (r: Result<Expr, Error>)
    requires
        old(env).wf(),
        fuel >= 1,
    ensures
        final(env).wf(),
        final(env).cur == old(env).cur,
        final(env)@.frames.len() >= old(env)@.frames.len(),
        ({
            let (e2, r2) = qexprs_join_s(old(env)@, old(env).cur as int, exprs_view(exprs@),
                fuel as nat);
            final(env)@ == e2 && res_view(r) == r2
        }),
    decreases fuel, 8int, 1int,
{
    if exprs.len() == 0 {
        return Err(Error::InvalidNumberOfQExprsArguments(QExprsOp::Join, 0));
    }
    let mut out: Vec<Expr> = Vec::new();
    proof {
        assert(exprs_view(out@) =~= Seq::<ExprV>::empty());
    }
    let n_args = exprs.len();
    let mut i: usize = 0;
    while i < n_args
        invariant
            env.wf(),
            env.cur == old(env).cur,
            env@.frames.len() >= old(env)@.frames.len(),
            fuel >= 1,
            n_args == exprs@.len(),
            i <= n_args,
            ({
                let (e2, r2) = qexprs_join_s(old(env)@, old(env).cur as int,
                    exprs_view(exprs@), fuel as nat);
                (e2, r2) == join_fold_s(env@, old(env).cur as int, exprs_view(out@),
                    exprs_view(exprs@), i as int, fuel as nat)
            }),
        decreases n_args - i,
    {
        let ry = eval(env, &exprs[i], fuel - 1);
        match ry {
            Err(e) => {
                return Err(e);
            },
            Ok(Expr::QExpr(mut y)) => {
                let ghost pre = exprs_view(out@);
                let ghost yv = exprs_view(y@);
                out.append(&mut y);
                proof {
                    assert(exprs_view(out@) =~= pre + yv);
                }
            },
            Ok(y) => {
                return Err(Error::NotAQExpr(y));
            },
        }
        i = i + 1;
    }
    Ok(Expr::QExpr(out))
}

/// `Def` binds globally.
pub fn qexprs_def(env: &mut Env, exprs: &[Expr], fuel: u64) -> (r: Result<Expr, Error>)
    requires
        old(env).wf(),
        fuel >= 1,
    ensures
        final(env).wf(),
        final(env).cur == old(env).cur,
        final(env)@.frames.len() >= old(env)@.frames.len(),
        ({
            let (e2, r2) = qexprs_assign_s(old(env)@, old(env).cur as int, true,
                exprs_view(exprs@), fuel as nat);
            final(env)@ == e2 && res_view(r) == r2
        }),
    decreases fuel, 8int, 1int,
{
    qexprs_assign(env, true, exprs, fuel)
}

/// `Put` binds in the calling frame.
pub fn qexprs_put(env: &mut Env, exprs: &[Expr], fuel: u64) -> (r: Result<Expr, Error>)
    requires
        old(env).wf(),
        fuel >= 1,
    ensures
        final(env).wf(),
        final(env).cur == old(env).cur,
        final(env)@.frames.len() >= old(env)@.frames.len(),
        ({
            let (e2, r2) = qexprs_assign_s(old(env)@, old(env).cur as int, false,
                exprs_view(exprs@), fuel as nat);
            final(env)@ == e2 && res_view(r) == r2
        }),
    decreases fuel, 8int, 1int,
{
    qexprs_assign(env, false, exprs, fuel)
}

/// The shared binding machinery of `Def` and `Put`.
fn qexprs_assign(env: &mut Env, global: bool, exprs: &[Expr], fuel: u64) -> (r: Result<
    Expr,
    Error,
>)
    requires
        old(env).wf(),
        fuel >= 1,
    ensures
        final(env).wf(),
        final(env).cur == old(env).cur,
        final(env)@.frames.len() >= old(env)@.frames.len(),
        ({
            let (e2, r2) = qexprs_assign_s(old(env)@, old(env).cur as int, global,
                exprs_view(exprs@), fuel as nat);
            final(env)@ == e2 && res_view(r) == r2
        }),
    decreases fuel, 8int, 0int,
{
    if exprs.len() == 0 {
        return Err(Error::InvalidNumberOfQExprsArguments(QExprsOp::Def, 0));
    }
    let r0 = eval(env, &exprs[0], fuel - 1);
    match r0 {
        Err(e) => Err(e),
        Ok(Expr::QExpr(q)) => {
            if q.len() != exprs.len() - 1 {
                let rest = crate::types::exprs_clone_slice(
                    vstd::slice::slice_subrange(exprs, 1, exprs.len()),
                );
                proof {
                    assert(exprs_view(rest@) =~= exprs_view(exprs@).drop_first());
                }
                return Err(Error::UnEqualDefList(expr_clone(&exprs[0]), rest));
            }
            let ghost qv = exprs_view(q@);
            let ghost vals = exprs_view(exprs@).drop_first();
            let n = q.len();
            let mut firsterr: Option<Error> = None;
            let mut i: usize = 0;
            while i < n
                invariant
                    env.wf(),
                    env.cur == old(env).cur,
                    env@.frames.len() >= old(env)@.frames.len(),
                    fuel >= 1,
                    n == q@.len(),
                    n + 1 == exprs@.len(),
                    qv == exprs_view(q@),
                    vals == exprs_view(exprs@).drop_first(),
                    i <= n,
                    ({
                        let (e2, r2) = qexprs_assign_s(old(env)@, old(env).cur as int, global,
                            exprs_view(exprs@), fuel as nat);
                        (e2, r2) == assign_pairs_s(env@, old(env).cur as int, global, qv,
                            vals, i as int, crate::types::opt_err_view(firsterr), fuel as nat)
                    }),
                decreases n - i,
            {
                proof {
                    assert(vals[i as int] == exprs_view(exprs@)[i + 1]);
                }
                let rv = eval(env, &exprs[i + 1], fuel - 1);
                match rv {
                    Err(e) => {
                        if firsterr.is_none() {
                            firsterr = Some(e);
                        }
                    },
                    Ok(v) => match &q[i] {
                        Expr::Sym(s) => {
                            proof {
                                crate::environment::lemma_root_is_zero(env@, env.cur as int);
                            }
                            if global {
                                bind_global_symbol(env, s, &v);
                            } else {
                                bind_local_symbol(env, s, &v);
                            }
                        },
                        x => {
                            if firsterr.is_none() {
                                firsterr = Some(Error::NotASymbol(expr_clone(x)));
                            }
                        },
                    },
                }
                i = i + 1;
            }
            match firsterr {
                Some(e) => Err(e),
                None => Ok(crate::types::empty_sexpr()),
            }
        },
        Ok(_) => Err(Error::NotAQExpr(expr_clone(&exprs[0]))),
    }
}

/// `Lambda` builds a user function from a formals list and a body.
pub fn qexprs_lambda(env: &mut Env, exprs: &[Expr], fuel: u64) -> (r: Result<Expr, Error>)
    requires
        old(env).wf(),
        fuel >= 1,
    ensures
        final(env).wf(),
        final(env).cur == old(env).cur,
        final(env)@.frames.len() >= old(env)@.frames.len(),
        ({
            let (e2, r2) = qexprs_lambda_s(old(env)@, old(env).cur as int, exprs_view(exprs@),
                fuel as nat);
            final(env)@ == e2 && res_view(r) == r2
        }),
    decreases fuel, 8int, 0int,
{
    if exprs.len() != 2 {
        return Err(Error::InvalidNumberOfQExprsArguments(QExprsOp::Lambda, exprs.len()));
    }
    let r0 = eval(env, &exprs[0], fuel - 1);
    match r0 {
        Err(e) => Err(e),
        Ok(v0) => {
            let r1 = eval(env, &exprs[1], fuel - 1);
            match r1 {
                Err(e) => Err(e),
                Ok(v1) => match (v0, v1) {
                    (Expr::QExpr(q), Expr::QExpr(body)) => {
                        let ghost qv = exprs_view(q@);
                        let n = q.len();
                        let mut syms: Vec<Symbol> = Vec::new();
                        let mut i: usize = 0;
                        while i < n
                            invariant
                                env.wf(),
                                env.cur == old(env).cur,
                                env@.frames.len() >= old(env)@.frames.len(),
                                ({
                                    let (e2, r2) = qexprs_lambda_s(old(env)@,
                                        old(env).cur as int, exprs_view(exprs@), fuel as nat);
                                    e2 == env@ && r2 == (match crate::semantics::first_non_sym(
                                        qv,
                                        0,
                                    ) {
                                        Some(j) => Err::<ExprV, crate::types::ErrorV>(
                                            crate::types::ErrorV::NotASymbol(qv[j]),
                                        ),
                                        None => Ok(
                                            ExprV::Fun(
                                                crate::types::FunV::Lambda(
                                                    crate::semantics::syms_of(qv),
                                                    Box::new(ExprV::QExpr(exprs_view(body@))),
                                                    Seq::empty(),
                                                ),
                                            ),
                                        ),
                                    })
                                }),
                                n == q@.len(),
                                qv == exprs_view(q@),
                                i <= n,
                                syms@.len() == i,
                                crate::semantics::first_non_sym(qv, 0)
                                    == crate::semantics::first_non_sym(qv, i as int),
                                forall|j: int|
                                    0 <= j < i ==> crate::types::syms_view(syms@)[j]
                                        == crate::semantics::syms_of(qv)[j],
                            decreases n - i,
                        {
                            match &q[i] {
                                Expr::Sym(s) => {
                                    let ghost pre = syms@;
                                    syms.push(sym_clone(s));
                                    proof {
                                        assert(forall|j: int|
                                            0 <= j < i ==> syms@[j] == pre[j]);
                                    }
                                },
                                x => {
                                    return Err(Error::NotASymbol(expr_clone(x)));
                                },
                            }
                            i = i + 1;
                        }
                        let binds0: Vec<(Symbol, Expr)> = Vec::new();
                        proof {
                            assert(crate::types::syms_view(syms@) =~= crate::semantics::syms_of(
                                qv,
                            ));
                            assert(crate::types::binds_view(binds0@) =~= Seq::<
                                (crate::types::SymbolV, ExprV),
                            >::empty());
                        }
                        Ok(
                            Expr::Fun(
                                Function::Lambda(syms, Box::new(Expr::QExpr(body)), binds0),
                            ),
                        )
                    },
                    (Expr::QExpr(_), x) => Err(Error::NotAQExpr(x)),
                    (x, _) => Err(Error::NotAQExpr(x)),
                },
            }
        },
    }
}

/// `Quote` wraps its unevaluated arguments into a Q-expression.
pub fn sexpr_quote(env: &mut Env, exprs: &[Expr], fuel: u64) -> (r: Result<Expr, Error>)
    requires
        old(env).wf(),
    ensures
        final(env).wf(),
        final(env).cur == old(env).cur,
        final(env)@.frames.len() >= old(env)@.frames.len(),
        ({
            let (e2, r2) = sexpr_quote_s(old(env)@, old(env).cur as int, exprs_view(exprs@),
                fuel as nat);
            final(env)@ == e2 && res_view(r) == r2
        }),
{
    if exprs.len() == 0 {
        Err(Error::InvalidNumberOfSExprArguments(SExprOp::Quote, 0))
    } else {
        Ok(Expr::QExpr(crate::types::exprs_clone_slice(exprs)))
    }
}

/// `PrintEnv` appends a dump of the current scope chain to the output.
pub fn sexpr_printenv(env: &mut Env, exprs: &[Expr], fuel: u64) -> (r: Result<Expr, Error>)
    requires
        old(env).wf(),
    ensures
        final(env).wf(),
        final(env).cur == old(env).cur,
        final(env)@.frames.len() >= old(env)@.frames.len(),
        ({
            let (e2, r2) = sexpr_printenv_s(old(env)@, old(env).cur as int, exprs_view(exprs@),
                fuel as nat);
            final(env)@ == e2 && res_view(r) == r2
        }),
{
    let ghost env0 = env@;
    let line = crate::display::dump_env(env);
    env.output.push(line);
    proof {
        assert(env@.output =~= env0.output.push(crate::display::env_dump_of(env0,
            env.cur as int)));
        assert(env@.frames =~= env0.frames);
        assert(env@.files =~= env0.files);
        assert(env@ =~= crate::semantics::env_print(env0, crate::display::env_dump_of(env0,
            env.cur as int)));
    }
    Ok(crate::types::empty_qexpr())
}

} // verus!
