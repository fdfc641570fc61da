//! Laws of evaluation, stated against the semantics and proved once and
//! for all: what the self-evaluating variants do, how quoting and the list
//! primitives compose, what binding makes visible where, and that partial
//! application agrees with applying all arguments at once.

use vstd::prelude::*;

use crate::environment::{
    env_with_frame_data, frame_get, frame_set, frames_wf, lemma_frame_get_set, lemma_root_is_zero,
    lookup_s, EnvV,
};
use crate::ntypes::wrap32;
use crate::semantics::{
    assign_pairs_s, bind_formals_s, eval_lambda_s, eval_s, join_fold_s, qexpr_op_s, rest_marker,
};
use crate::types::{ErrorV, ExprV, FunV, QExprOp, QExprsOp, SymbolV};

verus! {

/// A value of a variant that evaluation returns unchanged.
pub open spec fn self_evaluating(e: ExprV) -> bool {
    !(e is SExpr) && !(e is Sym)
}

/// Law: a value in the self-evaluating variants evaluates to itself, in
/// any environment, which it leaves unchanged. A symbol is the exception:
/// it is looked up.
pub proof fn lemma_self_evaluating(env: EnvV, scope: int, v: ExprV, fuel: nat)
    requires
        fuel >= 1,
        self_evaluating(v),
    ensures
        eval_s(env, scope, v, fuel) == (env, Ok::<ExprV, ErrorV>(v)),
{
    if v is SExpr {
        assert(false);
    }
}

/// Law: an S-expression with exactly one child evaluates to what the child
/// evaluates to, one level of fuel down.
pub proof fn lemma_singleton_sexpr(env: EnvV, scope: int, x: ExprV, fuel: nat)
    requires
        fuel >= 1,
    ensures
        eval_s(env, scope, ExprV::SExpr(seq![x]), fuel) == eval_s(
            env,
            scope,
            x,
            (fuel - 1) as nat,
        ),
{
    assert(seq![x].len() == 1);
    assert(seq![x][0] == x);
}

/// Law: unquoting a Q-expression evaluates its children as an S-expression:
/// `(बिस्तार q)` and the S-expression over `q`'s children agree, two levels
/// of fuel down.
pub proof fn lemma_eval_unquotes(env: EnvV, scope: int, q: Seq<ExprV>, fuel: nat)
    requires
        fuel >= 2,
        lookup_s(env, scope, SymbolV::QExprOp(QExprOp::Eval)) == Ok::<ExprV, ErrorV>(
            ExprV::Fun(FunV::Core(SymbolV::QExprOp(QExprOp::Eval))),
        ),
    ensures
        eval_s(
            env,
            scope,
            ExprV::SExpr(seq![ExprV::Sym(SymbolV::QExprOp(QExprOp::Eval)), ExprV::QExpr(q)]),
            fuel,
        ) == eval_s(env, scope, ExprV::SExpr(q), (fuel - 1) as nat),
{
    reveal_with_fuel(crate::semantics::eval_s, 3);
    reveal_with_fuel(crate::semantics::core_call_s, 2);
    reveal_with_fuel(crate::semantics::qexpr_op_s, 2);
    let op = ExprV::Sym(SymbolV::QExprOp(QExprOp::Eval));
    let es = seq![op, ExprV::QExpr(q)];
    assert(es.len() == 2);
    assert(es[0] == op);
    assert(es.drop_first() =~= seq![ExprV::QExpr(q)]);
    assert(eval_s(env, scope, es[0], (fuel - 1) as nat) == (
        env,
        lookup_s(env, scope, SymbolV::QExprOp(QExprOp::Eval)),
    ));
    assert(seq![ExprV::QExpr(q)][0] == ExprV::QExpr(q));
    assert(eval_s(env, scope, ExprV::QExpr(q), (fuel - 1) as nat) == (
        env,
        Ok::<ExprV, ErrorV>(ExprV::QExpr(q)),
    ));
}

/// What one `Join` call over Q-expression literals returns: their
/// concatenation, with the environment unchanged.
proof fn lemma_join_literals(env: EnvV, scope: int, acc: Seq<ExprV>, a: Seq<ExprV>, b: Seq<ExprV>, fuel: nat)
    requires
        fuel >= 2,
    ensures
        join_fold_s(env, scope, acc, seq![ExprV::QExpr(a), ExprV::QExpr(b)], 0, fuel) == (
            env,
            Ok::<ExprV, ErrorV>(ExprV::QExpr(acc + a + b)),
        ),
{
    reveal_with_fuel(crate::semantics::join_fold_s, 4);
    reveal_with_fuel(crate::semantics::eval_s, 2);
    let args = seq![ExprV::QExpr(a), ExprV::QExpr(b)];
    assert(args[0] == ExprV::QExpr(a));
    assert(args[1] == ExprV::QExpr(b));
    assert(eval_s(env, scope, args[0], (fuel - 1) as nat) == (
        env,
        Ok::<ExprV, ErrorV>(ExprV::QExpr(a)),
    ));
    assert(eval_s(env, scope, args[1], (fuel - 1) as nat) == (
        env,
        Ok::<ExprV, ErrorV>(ExprV::QExpr(b)),
    ));
    assert(join_fold_s(env, scope, acc + a + b, args, 2, fuel) == (
        env,
        Ok::<ExprV, ErrorV>(ExprV::QExpr(acc + a + b)),
    ));
}

/// Law: `Join` is associative. Joining `(एकत्र a b)` with `c` and joining
/// `a` with `(एकत्र b c)` both evaluate to the concatenation of the three,
/// in the unchanged environment.
pub proof fn lemma_join_associative(env: EnvV, scope: int, a: Seq<ExprV>, b: Seq<ExprV>, c: Seq<ExprV>, fuel: nat)
    requires
        fuel >= 4,
        lookup_s(env, scope, SymbolV::QExprsOp(QExprsOp::Join)) == Ok::<ExprV, ErrorV>(
            ExprV::Fun(FunV::Core(SymbolV::QExprsOp(QExprsOp::Join))),
        ),
    ensures
        ({
            let join = ExprV::Sym(SymbolV::QExprsOp(QExprsOp::Join));
            let lhs = ExprV::SExpr(
                seq![
                    join,
                    ExprV::SExpr(seq![join, ExprV::QExpr(a), ExprV::QExpr(b)]),
                    ExprV::QExpr(c),
                ],
            );
            let rhs = ExprV::SExpr(
                seq![
                    join,
                    ExprV::QExpr(a),
                    ExprV::SExpr(seq![join, ExprV::QExpr(b), ExprV::QExpr(c)]),
                ],
            );
            eval_s(env, scope, lhs, fuel) == (env, Ok::<ExprV, ErrorV>(ExprV::QExpr(a + b + c)))
                && eval_s(env, scope, rhs, fuel) == (
                env,
                Ok::<ExprV, ErrorV>(ExprV::QExpr(a + b + c)),
            )
        }),
{
    reveal_with_fuel(crate::semantics::eval_s, 4);
    reveal_with_fuel(crate::semantics::core_call_s, 3);
    reveal_with_fuel(crate::semantics::qexprs_join_s, 3);
    reveal_with_fuel(crate::semantics::join_fold_s, 4);
    let join = ExprV::Sym(SymbolV::QExprsOp(QExprsOp::Join));
    let inner_ab = ExprV::SExpr(seq![join, ExprV::QExpr(a), ExprV::QExpr(b)]);
    let inner_bc = ExprV::SExpr(seq![join, ExprV::QExpr(b), ExprV::QExpr(c)]);

    // one inner join, at every fuel level it is reached with
    assert forall|f: nat| f >= 3 implies #[trigger] eval_s(env, scope, inner_ab, f) == (
        env,
        Ok::<ExprV, ErrorV>(ExprV::QExpr(a + b)),
    ) by {
        let es = seq![join, ExprV::QExpr(a), ExprV::QExpr(b)];
        assert(es.len() == 3);
        assert(es[0] == join);
        assert(eval_s(env, scope, es[0], (f - 1) as nat) == (
            env,
            lookup_s(env, scope, SymbolV::QExprsOp(QExprsOp::Join)),
        ));
        assert(es.drop_first() =~= seq![ExprV::QExpr(a), ExprV::QExpr(b)]);
        lemma_join_literals(env, scope, Seq::empty(), a, b, f);
        assert(Seq::<ExprV>::empty() + a + b =~= a + b);
    }
    assert forall|f: nat| f >= 3 implies #[trigger] eval_s(env, scope, inner_bc, f) == (
        env,
        Ok::<ExprV, ErrorV>(ExprV::QExpr(b + c)),
    ) by {
        let es = seq![join, ExprV::QExpr(b), ExprV::QExpr(c)];
        assert(es.len() == 3);
        assert(es[0] == join);
        assert(eval_s(env, scope, es[0], (f - 1) as nat) == (
            env,
            lookup_s(env, scope, SymbolV::QExprsOp(QExprsOp::Join)),
        ));
        assert(es.drop_first() =~= seq![ExprV::QExpr(b), ExprV::QExpr(c)]);
        lemma_join_literals(env, scope, Seq::empty(), b, c, f);
        assert(Seq::<ExprV>::empty() + b + c =~= b + c);
    }

    // left association
    let lses = seq![join, inner_ab, ExprV::QExpr(c)];
    assert(lses.len() == 3);
    assert(lses[0] == join);
    assert(eval_s(env, scope, lses[0], (fuel - 1) as nat) == (
        env,
        lookup_s(env, scope, SymbolV::QExprsOp(QExprsOp::Join)),
    ));
    let lrest = lses.drop_first();
    assert(lrest =~= seq![inner_ab, ExprV::QExpr(c)]);
    assert(lrest[0] == inner_ab);
    assert(lrest[1] == ExprV::QExpr(c));
    assert(eval_s(env, scope, lrest[0], (fuel - 1) as nat) == (
        env,
        Ok::<ExprV, ErrorV>(ExprV::QExpr(a + b)),
    ));
    assert(eval_s(env, scope, lrest[1], (fuel - 1) as nat) == (
        env,
        Ok::<ExprV, ErrorV>(ExprV::QExpr(c)),
    ));
    assert(join_fold_s(env, scope, Seq::<ExprV>::empty(), lrest, 0, fuel) == join_fold_s(
        env,
        scope,
        Seq::empty() + (a + b),
        lrest,
        1,
        fuel,
    ));
    assert(join_fold_s(env, scope, Seq::empty() + (a + b), lrest, 1, fuel) == join_fold_s(
        env,
        scope,
        Seq::empty() + (a + b) + c,
        lrest,
        2,
        fuel,
    ));
    assert(join_fold_s(env, scope, Seq::empty() + (a + b) + c, lrest, 2, fuel) == (
        env,
        Ok::<ExprV, ErrorV>(ExprV::QExpr(Seq::empty() + (a + b) + c)),
    ));
    assert(Seq::<ExprV>::empty() + (a + b) + c =~= a + b + c);

    // right association
    let rses = seq![join, ExprV::QExpr(a), inner_bc];
    assert(rses.len() == 3);
    assert(rses[0] == join);
    assert(eval_s(env, scope, rses[0], (fuel - 1) as nat) == (
        env,
        lookup_s(env, scope, SymbolV::QExprsOp(QExprsOp::Join)),
    ));
    let rrest = rses.drop_first();
    assert(rrest =~= seq![ExprV::QExpr(a), inner_bc]);
    assert(rrest[0] == ExprV::QExpr(a));
    assert(rrest[1] == inner_bc);
    assert(eval_s(env, scope, rrest[0], (fuel - 1) as nat) == (
        env,
        Ok::<ExprV, ErrorV>(ExprV::QExpr(a)),
    ));
    assert(eval_s(env, scope, rrest[1], (fuel - 1) as nat) == (
        env,
        Ok::<ExprV, ErrorV>(ExprV::QExpr(b + c)),
    ));
    assert(join_fold_s(env, scope, Seq::<ExprV>::empty(), rrest, 0, fuel) == join_fold_s(
        env,
        scope,
        Seq::empty() + a,
        rrest,
        1,
        fuel,
    ));
    assert(join_fold_s(env, scope, Seq::empty() + a, rrest, 1, fuel) == join_fold_s(
        env,
        scope,
        Seq::empty() + a + (b + c),
        rrest,
        2,
        fuel,
    ));
    assert(join_fold_s(env, scope, Seq::empty() + a + (b + c), rrest, 2, fuel) == (
        env,
        Ok::<ExprV, ErrorV>(ExprV::QExpr(Seq::empty() + a + (b + c))),
    ));
    assert(Seq::<ExprV>::empty() + a + (b + c) =~= a + b + c);
}

/// What one single-Q-expression operator call over a Q-expression literal
/// returns.
proof fn lemma_qexpr_op_literal(env: EnvV, scope: int, op: QExprOp, q: Seq<ExprV>, fuel: nat)
    requires
        fuel >= 2,
        lookup_s(env, scope, SymbolV::QExprOp(op)) == Ok::<ExprV, ErrorV>(
            ExprV::Fun(FunV::Core(SymbolV::QExprOp(op))),
        ),
    ensures
        eval_s(
            env,
            scope,
            ExprV::SExpr(seq![ExprV::Sym(SymbolV::QExprOp(op)), ExprV::QExpr(q)]),
            fuel,
        ) == qexpr_op_s(env, scope, op, seq![ExprV::QExpr(q)], fuel),
{
    reveal_with_fuel(crate::semantics::eval_s, 3);
    reveal_with_fuel(crate::semantics::core_call_s, 2);
    let opv = ExprV::Sym(SymbolV::QExprOp(op));
    let es = seq![opv, ExprV::QExpr(q)];
    assert(es.len() == 2);
    assert(es[0] == opv);
    assert(eval_s(env, scope, es[0], (fuel - 1) as nat) == (
        env,
        lookup_s(env, scope, SymbolV::QExprOp(op)),
    ));
    assert(es.drop_first() =~= seq![ExprV::QExpr(q)]);
}

/// Law (one half of the round trip): `First` of a non-empty Q-expression
/// is the Q-expression holding only its head.
pub proof fn lemma_first_of_nonempty(env: EnvV, scope: int, q: Seq<ExprV>, fuel: nat)
    requires
        fuel >= 3,
        q.len() > 0,
        lookup_s(env, scope, SymbolV::QExprOp(QExprOp::First)) == Ok::<ExprV, ErrorV>(
            ExprV::Fun(FunV::Core(SymbolV::QExprOp(QExprOp::First))),
        ),
    ensures
        eval_s(
            env,
            scope,
            ExprV::SExpr(seq![ExprV::Sym(SymbolV::QExprOp(QExprOp::First)), ExprV::QExpr(q)]),
            fuel,
        ) == (env, Ok::<ExprV, ErrorV>(ExprV::QExpr(seq![q[0]]))),
{
    reveal_with_fuel(crate::semantics::qexpr_op_s, 2);
    reveal_with_fuel(crate::semantics::eval_s, 2);
    lemma_qexpr_op_literal(env, scope, QExprOp::First, q, fuel);
    assert(seq![ExprV::QExpr(q)][0] == ExprV::QExpr(q));
}

/// Law (the other half): `Rest` of a non-empty Q-expression drops the head.
pub proof fn lemma_rest_of_nonempty(env: EnvV, scope: int, q: Seq<ExprV>, fuel: nat)
    requires
        fuel >= 3,
        q.len() > 0,
        lookup_s(env, scope, SymbolV::QExprOp(QExprOp::Rest)) == Ok::<ExprV, ErrorV>(
            ExprV::Fun(FunV::Core(SymbolV::QExprOp(QExprOp::Rest))),
        ),
    ensures
        eval_s(
            env,
            scope,
            ExprV::SExpr(seq![ExprV::Sym(SymbolV::QExprOp(QExprOp::Rest)), ExprV::QExpr(q)]),
            fuel,
        ) == (env, Ok::<ExprV, ErrorV>(ExprV::QExpr(q.drop_first()))),
{
    reveal_with_fuel(crate::semantics::qexpr_op_s, 2);
    reveal_with_fuel(crate::semantics::eval_s, 2);
    lemma_qexpr_op_literal(env, scope, QExprOp::Rest, q, fuel);
    assert(seq![ExprV::QExpr(q)][0] == ExprV::QExpr(q));
}

/// Law: joining `First` and `Rest` of a non-empty Q-expression restores it
/// structurally.
pub proof fn lemma_first_rest_round_trip(env: EnvV, scope: int, q: Seq<ExprV>, fuel: nat)
    requires
        fuel >= 4,
        q.len() > 0,
        lookup_s(env, scope, SymbolV::QExprOp(QExprOp::First)) == Ok::<ExprV, ErrorV>(
            ExprV::Fun(FunV::Core(SymbolV::QExprOp(QExprOp::First))),
        ),
        lookup_s(env, scope, SymbolV::QExprOp(QExprOp::Rest)) == Ok::<ExprV, ErrorV>(
            ExprV::Fun(FunV::Core(SymbolV::QExprOp(QExprOp::Rest))),
        ),
        lookup_s(env, scope, SymbolV::QExprsOp(QExprsOp::Join)) == Ok::<ExprV, ErrorV>(
            ExprV::Fun(FunV::Core(SymbolV::QExprsOp(QExprsOp::Join))),
        ),
    ensures
        ({
            let first_q = ExprV::SExpr(
                seq![ExprV::Sym(SymbolV::QExprOp(QExprOp::First)), ExprV::QExpr(q)],
            );
            let rest_q = ExprV::SExpr(
                seq![ExprV::Sym(SymbolV::QExprOp(QExprOp::Rest)), ExprV::QExpr(q)],
            );
            eval_s(
                env,
                scope,
                ExprV::SExpr(seq![ExprV::Sym(SymbolV::QExprsOp(QExprsOp::Join)), first_q, rest_q]),
                fuel,
            ) == (env, Ok::<ExprV, ErrorV>(ExprV::QExpr(q)))
        }),
{
    reveal_with_fuel(crate::semantics::eval_s, 3);
    reveal_with_fuel(crate::semantics::core_call_s, 3);
    reveal_with_fuel(crate::semantics::qexprs_join_s, 2);
    reveal_with_fuel(crate::semantics::join_fold_s, 4);
    let join = ExprV::Sym(SymbolV::QExprsOp(QExprsOp::Join));
    let first_q = ExprV::SExpr(seq![ExprV::Sym(SymbolV::QExprOp(QExprOp::First)), ExprV::QExpr(q)]);
    let rest_q = ExprV::SExpr(seq![ExprV::Sym(SymbolV::QExprOp(QExprOp::Rest)), ExprV::QExpr(q)]);
    let es = seq![join, first_q, rest_q];
    assert(es.len() == 3);
    assert(es[0] == join);
    assert(eval_s(env, scope, es[0], (fuel - 1) as nat) == (
        env,
        lookup_s(env, scope, SymbolV::QExprsOp(QExprsOp::Join)),
    ));
    let rest = es.drop_first();
    assert(rest =~= seq![first_q, rest_q]);
    assert(rest[0] == first_q);
    assert(rest[1] == rest_q);
    lemma_first_of_nonempty(env, scope, q, (fuel - 1) as nat);
    lemma_rest_of_nonempty(env, scope, q, (fuel - 1) as nat);
    assert(join_fold_s(env, scope, Seq::<ExprV>::empty(), rest, 0, fuel) == join_fold_s(
        env,
        scope,
        Seq::empty() + seq![q[0]],
        rest,
        1,
        fuel,
    ));
    assert(join_fold_s(env, scope, Seq::empty() + seq![q[0]], rest, 1, fuel) == join_fold_s(
        env,
        scope,
        Seq::empty() + seq![q[0]] + q.drop_first(),
        rest,
        2,
        fuel,
    ));
    assert(join_fold_s(env, scope, Seq::empty() + seq![q[0]] + q.drop_first(), rest, 2, fuel)
        == (
        env,
        Ok::<ExprV, ErrorV>(ExprV::QExpr(Seq::empty() + seq![q[0]] + q.drop_first())),
    ));
    assert(Seq::<ExprV>::empty() + seq![q[0]] + q.drop_first() =~= q);
}

/// Law: the length of a Q-expression literal, as `Len` reports it.
pub proof fn lemma_len_of(env: EnvV, scope: int, q: Seq<ExprV>, fuel: nat)
    requires
        fuel >= 3,
        lookup_s(env, scope, SymbolV::QExprOp(QExprOp::Len)) == Ok::<ExprV, ErrorV>(
            ExprV::Fun(FunV::Core(SymbolV::QExprOp(QExprOp::Len))),
        ),
    ensures
        eval_s(
            env,
            scope,
            ExprV::SExpr(seq![ExprV::Sym(SymbolV::QExprOp(QExprOp::Len)), ExprV::QExpr(q)]),
            fuel,
        ) == (env, Ok::<ExprV, ErrorV>(ExprV::Num(wrap32(q.len() as int)))),
{
    reveal_with_fuel(crate::semantics::qexpr_op_s, 2);
    reveal_with_fuel(crate::semantics::eval_s, 2);
    lemma_qexpr_op_literal(env, scope, QExprOp::Len, q, fuel);
    assert(seq![ExprV::QExpr(q)][0] == ExprV::QExpr(q));
}

/// What `Cons` of an unevaluated head onto a Q-expression literal returns.
pub proof fn lemma_cons_literal(env: EnvV, scope: int, x: ExprV, q: Seq<ExprV>, fuel: nat)
    requires
        fuel >= 3,
        lookup_s(env, scope, SymbolV::QExprsOp(QExprsOp::Cons)) == Ok::<ExprV, ErrorV>(
            ExprV::Fun(FunV::Core(SymbolV::QExprsOp(QExprsOp::Cons))),
        ),
    ensures
        eval_s(
            env,
            scope,
            ExprV::SExpr(
                seq![ExprV::Sym(SymbolV::QExprsOp(QExprsOp::Cons)), x, ExprV::QExpr(q)],
            ),
            fuel,
        ) == (env, Ok::<ExprV, ErrorV>(ExprV::QExpr(seq![x] + q))),
{
    reveal_with_fuel(crate::semantics::eval_s, 3);
    reveal_with_fuel(crate::semantics::core_call_s, 2);
    reveal_with_fuel(crate::semantics::qexprs_cons_s, 2);
    reveal_with_fuel(crate::semantics::join_fold_s, 4);
    let cons = ExprV::Sym(SymbolV::QExprsOp(QExprsOp::Cons));
    let es = seq![cons, x, ExprV::QExpr(q)];
    assert(es.len() == 3);
    assert(es[0] == cons);
    assert(eval_s(env, scope, es[0], (fuel - 1) as nat) == (
        env,
        lookup_s(env, scope, SymbolV::QExprsOp(QExprsOp::Cons)),
    ));
    let rest = es.drop_first();
    assert(rest =~= seq![x, ExprV::QExpr(q)]);
    assert(rest[0] == x);
    assert(rest[1] == ExprV::QExpr(q));
    assert(eval_s(env, scope, rest[1], (fuel - 1) as nat) == (
        env,
        Ok::<ExprV, ErrorV>(ExprV::QExpr(q)),
    ));
    lemma_join_literals(env, scope, Seq::empty(), seq![x], q, fuel);
    assert(seq![ExprV::QExpr(seq![x]), ExprV::QExpr(q)][0] == ExprV::QExpr(seq![x]));
    assert(Seq::<ExprV>::empty() + seq![x] + q =~= seq![x] + q);
}

/// Law: `Len` of the empty Q-expression is zero, and consing one element
/// onto a Q-expression makes its `Len` one larger.
pub proof fn lemma_len_cons(env: EnvV, scope: int, x: ExprV, q: Seq<ExprV>, fuel: nat)
    requires
        fuel >= 3,
        q.len() + 1 <= i32::MAX,
        lookup_s(env, scope, SymbolV::QExprOp(QExprOp::Len)) == Ok::<ExprV, ErrorV>(
            ExprV::Fun(FunV::Core(SymbolV::QExprOp(QExprOp::Len))),
        ),
    ensures
        eval_s(
            env,
            scope,
            ExprV::SExpr(
                seq![
                    ExprV::Sym(SymbolV::QExprOp(QExprOp::Len)),
                    ExprV::QExpr(Seq::<ExprV>::empty()),
                ],
            ),
            fuel,
        ) == (env, Ok::<ExprV, ErrorV>(ExprV::Num(0))),
        ({
            let rlen = eval_s(
                env,
                scope,
                ExprV::SExpr(
                    seq![ExprV::Sym(SymbolV::QExprOp(QExprOp::Len)), ExprV::QExpr(q)],
                ),
                fuel,
            );
            let rlen_cons = eval_s(
                env,
                scope,
                ExprV::SExpr(
                    seq![
                        ExprV::Sym(SymbolV::QExprOp(QExprOp::Len)),
                        ExprV::QExpr(seq![x] + q),
                    ],
                ),
                fuel,
            );
            rlen == (env, Ok::<ExprV, ErrorV>(ExprV::Num(q.len() as int))) && rlen_cons == (
                env,
                Ok::<ExprV, ErrorV>(ExprV::Num(q.len() + 1 as int)),
            )
        }),
{
    lemma_len_of(env, scope, Seq::empty(), fuel);
    crate::ntypes::lemma_wrap_id(0);
    lemma_len_of(env, scope, q, fuel);
    crate::ntypes::lemma_wrap_id(q.len() as int);
    lemma_len_of(env, scope, seq![x] + q, fuel);
    crate::ntypes::lemma_wrap_id((seq![x] + q).len() as int);
    assert((seq![x] + q).len() == q.len() + 1);
}

/// No frame strictly between a scope and the root binds the symbol, and
/// the chain is sound.
pub open spec fn unshadowed(env: EnvV, scope: int, k: SymbolV) -> bool
    decreases scope,
{
    if !(0 <= scope < env.frames.len()) {
        false
    } else if scope == 0 {
        true
    } else {
        &&& frame_get(env.frames[scope].data, k) is None
        &&& match env.frames[scope].parent {
            Some(p) => 0 <= p < scope && unshadowed(env, p, k),
            None => false,
        }
    }
}

/// Looking up along an unshadowed chain reaches the root frame.
proof fn lemma_lookup_unshadowed(env: EnvV, scope: int, k: SymbolV)
    requires
        frames_wf(env.frames),
        unshadowed(env, scope, k),
    ensures
        lookup_s(env, scope, k) == match frame_get(env.frames[0].data, k) {
            Some(v) => Ok::<ExprV, ErrorV>(v),
            None => Err::<ExprV, ErrorV>(ErrorV::UnboundSymbol(k)),
        },
    decreases scope,
{
    if scope > 0 {
        let p = env.frames[scope].parent->0;
        lemma_lookup_unshadowed(env, p, k);
    }
}

/// Law: `Def` of a self-evaluating value binds it in the root frame, and
/// looking the name up afterwards from any scope whose chain does not
/// shadow it yields that value.
pub proof fn lemma_def_binds_globally(
    env: EnvV,
    scope: int,
    k: SymbolV,
    v: ExprV,
    fuel: nat,
    dscope: int,
)
    requires
        frames_wf(env.frames),
        0 <= scope < env.frames.len(),
        fuel >= 2,
        self_evaluating(v),
        lookup_s(env, scope, SymbolV::QExprsOp(QExprsOp::Def)) == Ok::<ExprV, ErrorV>(
            ExprV::Fun(FunV::Core(SymbolV::QExprsOp(QExprsOp::Def))),
        ),
    ensures
        ({
            let defexpr = ExprV::SExpr(
                seq![
                    ExprV::Sym(SymbolV::QExprsOp(QExprsOp::Def)),
                    ExprV::QExpr(seq![ExprV::Sym(k)]),
                    v,
                ],
            );
            let (env2, r) = eval_s(env, scope, defexpr, fuel);
            &&& r == Ok::<ExprV, ErrorV>(ExprV::SExpr(Seq::empty()))
            &&& env2 == env_with_frame_data(env, 0, frame_set(env.frames[0].data, k, v))
            &&& (unshadowed(env2, dscope, k) ==> lookup_s(env2, dscope, k) == Ok::<
                ExprV,
                ErrorV,
            >(v))
        }),
{
    reveal_with_fuel(crate::semantics::eval_s, 5);
    reveal_with_fuel(crate::semantics::core_call_s, 2);
    reveal_with_fuel(crate::semantics::qexprs_assign_s, 2);
    reveal_with_fuel(crate::semantics::assign_pairs_s, 3);
    let def = ExprV::Sym(SymbolV::QExprsOp(QExprsOp::Def));
    let qk = ExprV::QExpr(seq![ExprV::Sym(k)]);
    let es = seq![def, qk, v];
    assert(es.len() == 3);
    assert(es[0] == def);
    assert(eval_s(env, scope, es[0], (fuel - 1) as nat) == (
        env,
        lookup_s(env, scope, SymbolV::QExprsOp(QExprsOp::Def)),
    ));
    let rest = es.drop_first();
    assert(rest =~= seq![qk, v]);
    assert(rest[0] == qk);
    assert(eval_s(env, scope, rest[0], (fuel - 1) as nat) == (env, Ok::<ExprV, ErrorV>(qk)));
    assert(rest.drop_first() =~= seq![v]);
    let syms = seq![ExprV::Sym(k)];
    let vals = seq![v];
    assert(syms[0] == ExprV::Sym(k));
    assert(vals[0] == v);
    lemma_self_evaluating(env, scope, v, (fuel - 1) as nat);
    lemma_root_is_zero(env, scope);
    let env2 = env_with_frame_data(env, 0, frame_set(env.frames[0].data, k, v));
    assert(assign_pairs_s(env2, scope, true, syms, vals, 1, None, fuel) == (
        env2,
        Ok::<ExprV, ErrorV>(ExprV::SExpr(Seq::empty())),
    ));
    assert(frames_wf(env2.frames)) by {
        assert(env2.frames[0].parent == env.frames[0].parent);
        assert(forall|i: int|
            1 <= i < env2.frames.len() ==> (#[trigger] env2.frames[i]).parent == env.frames[
                i
            ].parent);
    }
    lemma_frame_get_set(env.frames[0].data, k, v, k);
    if unshadowed(env2, dscope, k) {
        lemma_lookup_unshadowed(env2, dscope, k);
    }
}

/// Looking up from a scope strictly below a changed frame sees nothing of
/// the change.
proof fn lemma_lookup_below_update(
    env: EnvV,
    s: int,
    d: Seq<(SymbolV, ExprV)>,
    p: int,
    sym: SymbolV,
)
    requires
        frames_wf(env.frames),
        0 <= p < s < env.frames.len(),
    ensures
        lookup_s(env_with_frame_data(env, s, d), p, sym) == lookup_s(env, p, sym),
    decreases p,
{
    let env2 = env_with_frame_data(env, s, d);
    assert(env2.frames[p] == env.frames[p]);
    if p > 0 {
        let pp = env.frames[p].parent->0;
        lemma_lookup_below_update(env, s, d, pp, sym);
    }
}

/// Law: `Put` of a self-evaluating value binds it in the calling frame:
/// the name resolves to the new value there, while every lookup from the
/// frame's parent is exactly as before.
pub proof fn lemma_put_binds_locally(env: EnvV, scope: int, k: SymbolV, v: ExprV, fuel: nat)
    requires
        frames_wf(env.frames),
        0 <= scope < env.frames.len(),
        fuel >= 2,
        self_evaluating(v),
        lookup_s(env, scope, SymbolV::QExprsOp(QExprsOp::Put)) == Ok::<ExprV, ErrorV>(
            ExprV::Fun(FunV::Core(SymbolV::QExprsOp(QExprsOp::Put))),
        ),
    ensures
        ({
            let putexpr = ExprV::SExpr(
                seq![
                    ExprV::Sym(SymbolV::QExprsOp(QExprsOp::Put)),
                    ExprV::QExpr(seq![ExprV::Sym(k)]),
                    v,
                ],
            );
            let (env2, r) = eval_s(env, scope, putexpr, fuel);
            &&& r == Ok::<ExprV, ErrorV>(ExprV::SExpr(Seq::empty()))
            &&& env2 == env_with_frame_data(env, scope, frame_set(env.frames[scope].data, k, v))
            &&& lookup_s(env2, scope, k) == Ok::<ExprV, ErrorV>(v)
            &&& forall|sym: SymbolV, p: int|
                env.frames[scope].parent == Some(p) && 0 <= p < scope ==> lookup_s(
                    env2,
                    p,
                    sym,
                ) == lookup_s(env, p, sym)
        }),
{
    reveal_with_fuel(crate::semantics::eval_s, 5);
    reveal_with_fuel(crate::semantics::core_call_s, 2);
    reveal_with_fuel(crate::semantics::qexprs_assign_s, 2);
    reveal_with_fuel(crate::semantics::assign_pairs_s, 3);
    let put = ExprV::Sym(SymbolV::QExprsOp(QExprsOp::Put));
    let qk = ExprV::QExpr(seq![ExprV::Sym(k)]);
    let es = seq![put, qk, v];
    assert(es.len() == 3);
    assert(es[0] == put);
    assert(eval_s(env, scope, es[0], (fuel - 1) as nat) == (
        env,
        lookup_s(env, scope, SymbolV::QExprsOp(QExprsOp::Put)),
    ));
    let rest = es.drop_first();
    assert(rest =~= seq![qk, v]);
    assert(rest[0] == qk);
    assert(eval_s(env, scope, rest[0], (fuel - 1) as nat) == (env, Ok::<ExprV, ErrorV>(qk)));
    assert(rest.drop_first() =~= seq![v]);
    let syms = seq![ExprV::Sym(k)];
    let vals = seq![v];
    assert(syms[0] == ExprV::Sym(k));
    assert(vals[0] == v);
    lemma_self_evaluating(env, scope, v, (fuel - 1) as nat);
    let env2 = env_with_frame_data(env, scope, frame_set(env.frames[scope].data, k, v));
    assert(assign_pairs_s(env2, scope, false, syms, vals, 1, None, fuel) == (
        env2,
        Ok::<ExprV, ErrorV>(ExprV::SExpr(Seq::empty())),
    ));
    lemma_frame_get_set(env.frames[scope].data, k, v, k);
    assert(env2.frames[scope].data == frame_set(env.frames[scope].data, k, v));
    assert(lookup_s(env2, scope, k) == Ok::<ExprV, ErrorV>(v));
    assert forall|sym: SymbolV, p: int|
        env.frames[scope].parent == Some(p) && 0 <= p < scope implies lookup_s(env2, p, sym)
        == lookup_s(env, p, sym) by {
        lemma_lookup_below_update(env, scope, frame_set(env.frames[scope].data, k, v), p, sym);
    }
}

/// Every argument in the sequence is self-evaluating.
pub open spec fn all_self_evaluating(args: Seq<ExprV>) -> bool {
    forall|i: int| 0 <= i < args.len() ==> self_evaluating(#[trigger] args[i])
}

/// Binding from a shifted window of the formals and arguments is binding
/// the shifted sequences from the start.
proof fn lemma_bind_shift(
    env: EnvV,
    scope: int,
    h: Seq<(SymbolV, ExprV)>,
    formals: Seq<SymbolV>,
    args: Seq<ExprV>,
    k: int,
    j: int,
    fuel: nat,
)
    requires
        0 <= k,
        0 <= j,
        k + j <= formals.len(),
        k <= args.len(),
    ensures
        bind_formals_s(env, scope, h, formals.skip(k), args.skip(k), j, fuel) == bind_formals_s(
            env,
            scope,
            h,
            formals,
            args,
            k + j,
            fuel,
        ),
    decreases formals.len() - k - j,
{
    reveal_with_fuel(crate::semantics::bind_formals_s, 2);
    let f2 = formals.skip(k);
    let a2 = args.skip(k);
    assert(f2.len() == formals.len() - k);
    if fuel == 0 {
    } else if j >= f2.len() || j >= a2.len() {
        assert(k + j >= formals.len() || k + j >= args.len());
    } else {
        assert(f2[j] == formals[k + j]);
        assert(a2[j] == args[k + j]);
        let fscope = env.frames.len() as int;
        let enva = EnvV {
            frames: env.frames.push(
                crate::environment::FrameV { data: h, parent: Some(scope) },
            ),
            ..env
        };
        let (env1, r) = eval_s(enva, fscope, args[k + j], (fuel - 1) as nat);
        match r {
            Err(_) => {},
            Ok(v) => {
                lemma_bind_shift(env1, scope, frame_set(h, formals[k + j], v), formals, args, k,
                    j + 1, fuel);
            },
        }
    }
}

/// Binding a prefix of self-evaluating arguments and then the remainder is
/// binding them all at once: no step fails, and the environment and the
/// captured frame come out the same.
proof fn lemma_bind_glue(
    env: EnvV,
    scope: int,
    h: Seq<(SymbolV, ExprV)>,
    formals: Seq<SymbolV>,
    args: Seq<ExprV>,
    k: int,
    i: int,
    fuel: nat,
)
    requires
        all_self_evaluating(args),
        0 <= i <= k <= formals.len(),
        formals.len() <= args.len(),
        fuel >= 2,
    ensures
        ({
            let (e1, n1, h1) = bind_formals_s(
                env,
                scope,
                h,
                formals.take(k),
                args.take(k),
                i,
                fuel,
            );
            let (e2, n2, h2) = bind_formals_s(
                e1,
                scope,
                h1,
                formals.skip(k),
                args.skip(k),
                0,
                fuel,
            );
            let (ef, nf, hf) = bind_formals_s(env, scope, h, formals, args, i, fuel);
            &&& n1 is None
            &&& n2 == nf
            &&& e2 == ef
            &&& h2 == hf
        }),
    decreases k - i,
{
    reveal_with_fuel(crate::semantics::bind_formals_s, 2);
    let f1 = formals.take(k);
    let a1 = args.take(k);
    if i < k {
        assert(f1[i] == formals[i]);
        assert(a1[i] == args[i]);
        let fscope = env.frames.len() as int;
        let enva = EnvV {
            frames: env.frames.push(
                crate::environment::FrameV { data: h, parent: Some(scope) },
            ),
            ..env
        };
        assert(self_evaluating(args[i]));
        lemma_self_evaluating(enva, fscope, args[i], (fuel - 1) as nat);
        lemma_bind_glue(enva, scope, frame_set(h, formals[i], args[i]), formals, args, k, i + 1,
            fuel);
    } else {
        assert(bind_formals_s(env, scope, h, f1, a1, i, fuel) == (env, None::<ErrorV>, h));
        lemma_bind_shift(env, scope, h, formals, args, k, 0, fuel);
    }
}

/// Law: partial application agrees with full application. Applying a
/// lambda without a rest marker to a proper prefix of self-evaluating
/// arguments yields a lambda; applying that to the remaining arguments is
/// the same, environment included, as applying the original to all of
/// them at once.
pub proof fn lemma_partial_application(
    env: EnvV,
    scope: int,
    formals: Seq<SymbolV>,
    body: ExprV,
    hmap: Seq<(SymbolV, ExprV)>,
    args: Seq<ExprV>,
    k: int,
    fuel: nat,
)
    requires
        0 <= k < formals.len(),
        args.len() == formals.len(),
        all_self_evaluating(args),
        fuel >= 2,
        !(formals.len() >= 2 && formals[formals.len() - 2] == rest_marker()),
    ensures
        ({
            let (env1, r1) = eval_lambda_s(env, scope, formals, body, hmap, args.take(k), fuel);
            &&& r1 matches Ok(f1)
            &&& f1 matches ExprV::Fun(FunV::Lambda(formals2, body2, hmap2)) && eval_lambda_s(
                env1,
                scope,
                formals2,
                *body2,
                hmap2,
                args.skip(k),
                fuel,
            ) == eval_lambda_s(env, scope, formals, body, hmap, args, fuel)
        }),
{
    reveal_with_fuel(crate::semantics::eval_lambda_s, 2);
    let a1 = args.take(k);
    assert(a1.len() == k < formals.len());
    lemma_bind_glue(env, scope, hmap, formals, args, k, 0, fuel);
    let (e1, n1, h1) = bind_formals_s(env, scope, hmap, formals.take(k), args.take(k), 0, fuel);
    assert(n1 is None);
    // the partial application returns the remaining lambda
    let f2 = formals.skip(k);
    assert(f2.len() == formals.len() - k);
    // the remaining formals hold no rest marker in marker position
    if f2.len() >= 2 {
        assert(f2[f2.len() - 2] == formals[formals.len() - 2]);
    }
    let (env1, r1) = eval_lambda_s(env, scope, formals, body, hmap, args.take(k), fuel);
    assert(env1 == e1 && r1 == Ok::<ExprV, ErrorV>(
        ExprV::Fun(FunV::Lambda(f2, Box::new(body), h1)),
    ));
    // applying the rest binds the remaining formals onto the same frame
    let a2 = args.skip(k);
    assert(a2.len() == f2.len());
    assert(all_self_evaluating(a2)) by {
        assert(forall|i: int|
            0 <= i < a2.len() ==> a2[i] == #[trigger] args[k + i] && self_evaluating(args[k + i]));
    }
    lemma_bind_glue(env, scope, hmap, formals, args, k, 0, fuel);
    let (e2, n2, h2) = bind_formals_s(e1, scope, h1, f2, a2, 0, fuel);
    let (ef, nf, hf) = bind_formals_s(env, scope, hmap, formals, args, 0, fuel);
    assert(e2 == ef && n2 == nf && h2 == hf);
}

} // verus!
