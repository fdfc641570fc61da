use alpa::environment::{self, Env};
use alpa::evaluator::eval;
use alpa::ntypes::Sankhya;
use alpa::types::{
    Boolean, Error, Expr, ExprsOp, Function, NumOp, QExprOp, QExprsOp, SExprOp, Symbol,
};

const FUEL: u64 = 9999;

fn fresh_env() -> Env {
    let mut env = environment::new(Vec::new());
    environment::load_core_fns(&mut env);
    env
}

fn num(n: i32) -> Expr {
    Expr::Num(Sankhya(n))
}

fn ident(s: &str) -> Expr {
    Expr::Sym(Symbol::Identifier(s.to_string()))
}

fn num_op(o: NumOp) -> Expr {
    Expr::Sym(Symbol::NumOp(o))
}

fn qexpr_op(o: QExprOp) -> Expr {
    Expr::Sym(Symbol::QExprOp(o))
}

fn qexprs_op(o: QExprsOp) -> Expr {
    Expr::Sym(Symbol::QExprsOp(o))
}

#[test]
fn test_env() {
    let mut store: Vec<(Symbol, Expr)> = Vec::new();
    let dus = Symbol::Identifier("दस".to_string());
    let ek = Symbol::Identifier("एक".to_string());
    store.push((dus.clone(), num(10)));

    let env = environment::new(store);
    assert_eq!(environment::lookup(&env, &ek), Err(Error::UnboundSymbol(ek)));
    assert_eq!(environment::lookup(&env, &dus), Ok(num(10)));
}

#[test]
fn test_eval_success() {
    let input = Expr::SExpr(vec![
        num_op(NumOp::Add),
        num(2),
        num(-5),
        Expr::SExpr(vec![num_op(NumOp::Multiply), num(4), num(5)]),
        Expr::SExpr(vec![num_op(NumOp::Divide), num(-10), num(2)]),
        Expr::SExpr(vec![num_op(NumOp::Subtract), num(-1), num(5)]),
    ]);
    let mut env = fresh_env();

    assert_eq!(eval(&mut env, &input, FUEL), Ok(num(6)));
}

#[test]
fn test_first_rest_len() {
    let mut env = fresh_env();
    let q123 = Expr::QExpr(vec![num(1), num(2), num(3)]);

    let first = Expr::SExpr(vec![qexpr_op(QExprOp::First), dup(&q123)]);
    assert_eq!(eval(&mut env, &first, FUEL), Ok(Expr::QExpr(vec![num(1)])));

    let rest = Expr::SExpr(vec![qexpr_op(QExprOp::Rest), dup(&q123)]);
    assert_eq!(eval(&mut env, &rest, FUEL), Ok(Expr::QExpr(vec![num(2), num(3)])));

    let len = Expr::SExpr(vec![qexpr_op(QExprOp::Len), dup(&q123)]);
    assert_eq!(eval(&mut env, &len, FUEL), Ok(num(3)));
}

fn dup(e: &Expr) -> Expr {
    alpa::types::expr_clone(e)
}

#[test]
fn test_def_then_lookup() {
    let mut env = fresh_env();
    let def = Expr::SExpr(vec![
        qexprs_op(QExprsOp::Def),
        Expr::QExpr(vec![ident("क")]),
        num(10),
    ]);
    assert_eq!(eval(&mut env, &def, FUEL), Ok(Expr::SExpr(vec![])));
    assert_eq!(eval(&mut env, &ident("क"), FUEL), Ok(num(10)));
}

#[test]
fn test_lambda_full_and_partial_application() {
    let mut env = fresh_env();
    // नामक '(जोड) (ल्याम्बडा '(अ ब) '(+ अ ब))
    let def = Expr::SExpr(vec![
        qexprs_op(QExprsOp::Def),
        Expr::QExpr(vec![ident("जोड")]),
        Expr::SExpr(vec![
            qexprs_op(QExprsOp::Lambda),
            Expr::QExpr(vec![ident("अ"), ident("ब")]),
            Expr::QExpr(vec![num_op(NumOp::Add), ident("अ"), ident("ब")]),
        ]),
    ]);
    assert_eq!(eval(&mut env, &def, FUEL), Ok(Expr::SExpr(vec![])));

    // जोड ३ ४ → ७
    let call = Expr::SExpr(vec![ident("जोड"), num(3), num(4)]);
    assert_eq!(eval(&mut env, &call, FUEL), Ok(num(7)));

    // जोड ३ → a lambda awaiting one formal; applied to ४ → ७
    let partial = Expr::SExpr(vec![ident("जोड"), num(3)]);
    let lam = eval(&mut env, &partial, FUEL).unwrap();
    match &lam {
        Expr::Fun(Function::Lambda(formals, _, _)) => assert_eq!(formals.len(), 1),
        other => panic!("expected a lambda, got {:?}", other),
    }
    let finish = Expr::SExpr(vec![lam, num(4)]);
    assert_eq!(eval(&mut env, &finish, FUEL), Ok(num(7)));
}

#[test]
fn test_too_many_lambda_arguments() {
    let mut env = fresh_env();
    let lam = Expr::SExpr(vec![
        qexprs_op(QExprsOp::Lambda),
        Expr::QExpr(vec![ident("अ")]),
        Expr::QExpr(vec![ident("अ")]),
    ]);
    let call = Expr::SExpr(vec![lam, num(1), num(2)]);
    assert_eq!(eval(&mut env, &call, FUEL), Err(Error::TooManyLambdaArguments(1, 2)));
}

#[test]
fn test_rest_marker_collects_tail() {
    let mut env = fresh_env();
    // (ल्याम्बडा '(अ ऽ ब) '(वटा ब)) १ २ ३ → वटा '(२ ३) → २
    let lam = Expr::SExpr(vec![
        qexprs_op(QExprsOp::Lambda),
        Expr::QExpr(vec![ident("अ"), ident("ऽ"), ident("ब")]),
        Expr::QExpr(vec![qexpr_op(QExprOp::Len), ident("ब")]),
    ]);
    let call = Expr::SExpr(vec![lam, num(1), num(2), num(3)]);
    assert_eq!(eval(&mut env, &call, FUEL), Ok(num(2)));
}

#[test]
fn test_if_branches() {
    let mut env = fresh_env();
    // यदि (> ५ ३) '(+ १ १) '(+ १०० १) → २
    let cond_gt = Expr::SExpr(vec![num_op(NumOp::GreaterThan), num(5), num(3)]);
    let ife = Expr::SExpr(vec![
        Expr::Sym(Symbol::ExprsOp(ExprsOp::If)),
        cond_gt,
        Expr::QExpr(vec![num_op(NumOp::Add), num(1), num(1)]),
        Expr::QExpr(vec![num_op(NumOp::Add), num(100), num(1)]),
    ]);
    assert_eq!(eval(&mut env, &ife, FUEL), Ok(num(2)));

    let cond_lt = Expr::SExpr(vec![num_op(NumOp::LessThan), num(5), num(3)]);
    let ife2 = Expr::SExpr(vec![
        Expr::Sym(Symbol::ExprsOp(ExprsOp::If)),
        cond_lt,
        Expr::QExpr(vec![num_op(NumOp::Add), num(1), num(1)]),
        Expr::QExpr(vec![num_op(NumOp::Add), num(100), num(1)]),
    ]);
    assert_eq!(eval(&mut env, &ife2, FUEL), Ok(num(101)));
}

#[test]
fn test_error_cases() {
    let mut env = fresh_env();

    let div0 = Expr::SExpr(vec![num_op(NumOp::Divide), num(10), num(0)]);
    assert_eq!(
        eval(&mut env, &div0, FUEL),
        Err(Error::DivideByZero(Sankhya(10), Sankhya(0)))
    );

    let first_empty = Expr::SExpr(vec![qexpr_op(QExprOp::First), Expr::QExpr(vec![])]);
    assert_eq!(
        eval(&mut env, &first_empty, FUEL),
        Err(Error::EmptyQExpr(Expr::QExpr(vec![])))
    );

    assert_eq!(
        eval(&mut env, &ident("क"), FUEL),
        Err(Error::UnboundSymbol(Symbol::Identifier("क".to_string())))
    );
}

#[test]
fn test_join_and_cons() {
    let mut env = fresh_env();
    let qa = Expr::QExpr(vec![num(1)]);
    let qb = Expr::QExpr(vec![num(2)]);
    let qc = Expr::QExpr(vec![num(3)]);

    // एकत्र (एकत्र a b) c == एकत्र a (एकत्र b c)
    let left = Expr::SExpr(vec![
        qexprs_op(QExprsOp::Join),
        Expr::SExpr(vec![qexprs_op(QExprsOp::Join), dup(&qa), dup(&qb)]),
        dup(&qc),
    ]);
    let right = Expr::SExpr(vec![
        qexprs_op(QExprsOp::Join),
        dup(&qa),
        Expr::SExpr(vec![qexprs_op(QExprsOp::Join), dup(&qb), dup(&qc)]),
    ]);
    let expected = Ok(Expr::QExpr(vec![num(1), num(2), num(3)]));
    assert_eq!(eval(&mut env, &left, FUEL), expected);
    assert_eq!(eval(&mut env, &right, FUEL), expected);

    // निर्माण ० '(१ २ ३) → '(० १ २ ३)
    let cons = Expr::SExpr(vec![
        qexprs_op(QExprsOp::Cons),
        num(0),
        Expr::QExpr(vec![num(1), num(2), num(3)]),
    ]);
    assert_eq!(
        eval(&mut env, &cons, FUEL),
        Ok(Expr::QExpr(vec![num(0), num(1), num(2), num(3)]))
    );

    // round trip: एकत्र (पहिलो q) (बाँकी q) == q
    let q = Expr::QExpr(vec![num(7), num(8), num(9)]);
    let round = Expr::SExpr(vec![
        qexprs_op(QExprsOp::Join),
        Expr::SExpr(vec![qexpr_op(QExprOp::First), dup(&q)]),
        Expr::SExpr(vec![qexpr_op(QExprOp::Rest), dup(&q)]),
    ]);
    assert_eq!(eval(&mut env, &round, FUEL), Ok(q));
}

#[test]
fn test_len_empty_and_cons_increment() {
    let mut env = fresh_env();
    let len_empty = Expr::SExpr(vec![qexpr_op(QExprOp::Len), Expr::QExpr(vec![])]);
    assert_eq!(eval(&mut env, &len_empty, FUEL), Ok(num(0)));

    let len_q = Expr::SExpr(vec![qexpr_op(QExprOp::Len), Expr::QExpr(vec![num(5), num(6)])]);
    let len_cons = Expr::SExpr(vec![
        qexpr_op(QExprOp::Len),
        Expr::SExpr(vec![
            qexprs_op(QExprsOp::Cons),
            num(4),
            Expr::QExpr(vec![num(5), num(6)]),
        ]),
    ]);
    assert_eq!(eval(&mut env, &len_q, FUEL), Ok(num(2)));
    assert_eq!(eval(&mut env, &len_cons, FUEL), Ok(num(3)));
}

#[test]
fn test_unquote_runs_children() {
    let mut env = fresh_env();
    // बिस्तार '(+ १ २) → ३
    let e = Expr::SExpr(vec![
        qexpr_op(QExprOp::Eval),
        Expr::QExpr(vec![num_op(NumOp::Add), num(1), num(2)]),
    ]);
    assert_eq!(eval(&mut env, &e, FUEL), Ok(num(3)));
}

#[test]
fn test_self_evaluating_values() {
    let mut env = fresh_env();
    assert_eq!(eval(&mut env, &Expr::Bool(Boolean(true)), FUEL), Ok(Expr::Bool(Boolean(true))));
    assert_eq!(eval(&mut env, &num(-7), FUEL), Ok(num(-7)));
    assert_eq!(
        eval(&mut env, &Expr::Str("नमस्ते".to_string()), FUEL),
        Ok(Expr::Str("नमस्ते".to_string()))
    );
    let q = Expr::QExpr(vec![num(1), ident("क")]);
    assert_eq!(eval(&mut env, &q, FUEL), Ok(Expr::QExpr(vec![num(1), ident("क")])));
    let empty = Expr::SExpr(vec![]);
    assert_eq!(eval(&mut env, &empty, FUEL), Ok(Expr::SExpr(vec![])));
}

#[test]
fn test_singleton_sexpr_flattens() {
    let mut env = fresh_env();
    let e = Expr::SExpr(vec![num(42)]);
    assert_eq!(eval(&mut env, &e, FUEL), Ok(num(42)));
}

#[test]
fn test_equality_builtin() {
    let mut env = fresh_env();
    let eq = |a: Expr, b: Expr| Expr::SExpr(vec![Expr::Sym(Symbol::ExprsOp(ExprsOp::Equal)), a, b]);
    assert_eq!(eval(&mut env, &eq(num(1), num(1)), FUEL), Ok(Expr::Bool(Boolean(true))));
    assert_eq!(eval(&mut env, &eq(num(1), num(2)), FUEL), Ok(Expr::Bool(Boolean(false))));
    // cross-variant comparison is false
    assert_eq!(
        eval(&mut env, &eq(num(1), Expr::Str("१".to_string())), FUEL),
        Ok(Expr::Bool(Boolean(false)))
    );
    // an S-expression operand is forced before comparing
    let sum = Expr::SExpr(vec![num_op(NumOp::Add), num(1), num(2)]);
    assert_eq!(eval(&mut env, &eq(sum, num(3)), FUEL), Ok(Expr::Bool(Boolean(true))));
    // not-equal negates
    let neq = Expr::SExpr(vec![Expr::Sym(Symbol::ExprsOp(ExprsOp::NotEqual)), num(1), num(2)]);
    assert_eq!(eval(&mut env, &neq, FUEL), Ok(Expr::Bool(Boolean(true))));
}

#[test]
fn test_comparison_chain_is_rejected() {
    let mut env = fresh_env();
    // (> १ २ ३): the fold turns boolean after one pair, the next pair fails
    let e = Expr::SExpr(vec![num_op(NumOp::GreaterThan), num(1), num(2), num(3)]);
    assert_eq!(eval(&mut env, &e, FUEL), Err(Error::NotANumber(num(3))));
}

#[test]
fn test_wrapping_arithmetic() {
    let mut env = fresh_env();
    let overflow = Expr::SExpr(vec![num_op(NumOp::Add), num(i32::MAX), num(1)]);
    assert_eq!(eval(&mut env, &overflow, FUEL), Ok(num(i32::MIN)));
    let div_min = Expr::SExpr(vec![num_op(NumOp::Divide), num(i32::MIN), num(-1)]);
    assert_eq!(eval(&mut env, &div_min, FUEL), Ok(num(i32::MIN)));
    let trunc = Expr::SExpr(vec![num_op(NumOp::Divide), num(-7), num(2)]);
    assert_eq!(eval(&mut env, &trunc, FUEL), Ok(num(-3)));
}

#[test]
fn test_quote_wraps_arguments() {
    let mut env = fresh_env();
    let e = Expr::SExpr(vec![Expr::Sym(Symbol::SExprOp(SExprOp::Quote)), num(1), ident("क")]);
    assert_eq!(eval(&mut env, &e, FUEL), Ok(Expr::QExpr(vec![num(1), ident("क")])));

    // with no arguments the builtin itself reports the arity error
    assert_eq!(
        alpa::builtins::sexpr_quote(&mut env, &[], FUEL),
        Err(Error::InvalidNumberOfSExprArguments(SExprOp::Quote, 0))
    );
}

#[test]
fn test_throw_error_builtin() {
    let mut env = fresh_env();
    let e = Expr::SExpr(vec![
        Expr::Sym(Symbol::ExprsOp(ExprsOp::Error)),
        Expr::Str("गडबड".to_string()),
    ]);
    assert_eq!(eval(&mut env, &e, FUEL), Err(Error::ThrowError("गडबड".to_string())));

    let bad = Expr::SExpr(vec![Expr::Sym(Symbol::ExprsOp(ExprsOp::Error)), num(1)]);
    assert_eq!(eval(&mut env, &bad, FUEL), Err(Error::NotAString(num(1))));
}

#[test]
fn test_print_appends_output() {
    let mut env = fresh_env();
    let e = Expr::SExpr(vec![Expr::Sym(Symbol::ExprsOp(ExprsOp::Print)), num(5)]);
    assert_eq!(eval(&mut env, &e, FUEL), Ok(Expr::QExpr(vec![])));
    assert_eq!(env.output, vec!["५".to_string()]);
}

#[test]
fn test_put_binds_locally_def_globally() {
    let mut env = fresh_env();
    // put in the frame active at the call site
    let put = Expr::SExpr(vec![
        qexprs_op(QExprsOp::Put),
        Expr::QExpr(vec![ident("ख")]),
        num(11),
    ]);
    assert_eq!(eval(&mut env, &put, FUEL), Ok(Expr::SExpr(vec![])));
    assert_eq!(eval(&mut env, &ident("ख"), FUEL), Ok(num(11)));

    // def from inside a lambda body reaches the root frame
    let lam = Expr::SExpr(vec![
        qexprs_op(QExprsOp::Lambda),
        Expr::QExpr(vec![ident("अ")]),
        Expr::QExpr(vec![
            qexprs_op(QExprsOp::Def),
            Expr::QExpr(vec![ident("ग")]),
            ident("अ"),
        ]),
    ]);
    let call = Expr::SExpr(vec![lam, num(21)]);
    assert_eq!(eval(&mut env, &call, FUEL), Ok(Expr::SExpr(vec![])));
    assert_eq!(eval(&mut env, &ident("ग"), FUEL), Ok(num(21)));
}

#[test]
fn test_import_reads_registered_source() {
    let mut env = fresh_env();
    env.files.push((
        "मोड्युल".to_string(),
        "(नामक '(क) १०)".to_string(),
    ));
    let imp = Expr::SExpr(vec![
        Expr::Sym(Symbol::ExprsOp(ExprsOp::Import)),
        ident("मोड्युल"),
    ]);
    assert_eq!(eval(&mut env, &imp, FUEL), Ok(Expr::QExpr(vec![])));
    assert_eq!(eval(&mut env, &ident("क"), FUEL), Ok(num(10)));

    let missing = Expr::SExpr(vec![
        Expr::Sym(Symbol::ExprsOp(ExprsOp::Import)),
        ident("छैन"),
    ]);
    assert_eq!(eval(&mut env, &missing, FUEL), Err(Error::ImportError(ident("छैन"))));
}

#[test]
fn test_fuel_exhaustion_is_reported() {
    let mut env = fresh_env();
    assert_eq!(eval(&mut env, &num(1), 0), Err(Error::RecursionLimit));

    // a self-application diverges; bounded depth reports the limit
    let def = Expr::SExpr(vec![
        qexprs_op(QExprsOp::Def),
        Expr::QExpr(vec![ident("फ")]),
        Expr::SExpr(vec![
            qexprs_op(QExprsOp::Lambda),
            Expr::QExpr(vec![ident("अ")]),
            Expr::QExpr(vec![ident("फ"), ident("अ")]),
        ]),
    ]);
    assert_eq!(eval(&mut env, &def, FUEL), Ok(Expr::SExpr(vec![])));
    let call = Expr::SExpr(vec![ident("फ"), num(1)]);
    // the exhaustion surfaces either bare or wrapped by the call that saw
    // its operator evaluation fail
    let r = eval(&mut env, &call, 300);
    assert!(matches!(r, Err(Error::RecursionLimit) | Err(Error::InvalidOp(_))));
}

#[test]
fn test_invalid_op_payload() {
    let mut env = fresh_env();
    let e = Expr::SExpr(vec![num(1), num(2)]);
    assert_eq!(eval(&mut env, &e, FUEL), Err(Error::InvalidOp(num(1))));
}

#[test]
fn test_arity_errors() {
    let mut env = fresh_env();
    let ife = Expr::SExpr(vec![Expr::Sym(Symbol::ExprsOp(ExprsOp::If)), num(1)]);
    assert_eq!(
        eval(&mut env, &ife, FUEL),
        Err(Error::InvalidNumberOfExprsArguments(ExprsOp::If, 1))
    );
    let firsts = Expr::SExpr(vec![
        qexpr_op(QExprOp::First),
        Expr::QExpr(vec![num(1)]),
        Expr::QExpr(vec![num(2)]),
    ]);
    assert_eq!(
        eval(&mut env, &firsts, FUEL),
        Err(Error::InvalidNumberOfQExprArguments(QExprOp::First, 2))
    );
    let def_mismatch = Expr::SExpr(vec![
        qexprs_op(QExprsOp::Def),
        Expr::QExpr(vec![ident("क"), ident("ख")]),
        num(1),
    ]);
    assert_eq!(
        eval(&mut env, &def_mismatch, FUEL),
        Err(Error::UnEqualDefList(
            Expr::QExpr(vec![ident("क"), ident("ख")]),
            vec![num(1)]
        ))
    );
}

#[test]
fn test_type_errors() {
    let mut env = fresh_env();

    // cons needs a Q-expression second
    let cons_bad = Expr::SExpr(vec![qexprs_op(QExprsOp::Cons), num(1), num(2)]);
    assert_eq!(eval(&mut env, &cons_bad, FUEL), Err(Error::NotAQExpr(num(2))));

    // the condition of यदि must be a boolean
    let if_bad = Expr::SExpr(vec![
        Expr::Sym(Symbol::ExprsOp(ExprsOp::If)),
        num(1),
        Expr::QExpr(vec![num(1)]),
        Expr::QExpr(vec![num(2)]),
    ]);
    assert_eq!(eval(&mut env, &if_bad, FUEL), Err(Error::NotABoolean(num(1))));

    // a lambda formal must be a symbol
    let lam_bad = Expr::SExpr(vec![
        qexprs_op(QExprsOp::Lambda),
        Expr::QExpr(vec![num(3)]),
        Expr::QExpr(vec![num(3)]),
    ]);
    assert_eq!(eval(&mut env, &lam_bad, FUEL), Err(Error::NotASymbol(num(3))));

    // arithmetic rejects a non-number argument
    let add_bad = Expr::SExpr(vec![
        num_op(NumOp::Add),
        num(1),
        Expr::Str("दुई".to_string()),
    ]);
    assert_eq!(
        eval(&mut env, &add_bad, FUEL),
        Err(Error::NotANumber(Expr::Str("दुई".to_string())))
    );

    // import takes an identifier
    let imp_bad = Expr::SExpr(vec![Expr::Sym(Symbol::ExprsOp(ExprsOp::Import)), num(1)]);
    assert_eq!(eval(&mut env, &imp_bad, FUEL), Err(Error::NotAnIdentifier(num(1))));

    // join of nothing is an arity error
    assert_eq!(
        alpa::builtins::qexprs_join(&mut env, &[], FUEL),
        Err(Error::InvalidNumberOfQExprsArguments(QExprsOp::Join, 0))
    );
    assert_eq!(
        alpa::builtins::nums_op(&mut env, NumOp::Add, &[], FUEL),
        Err(Error::InvalidNumberOfNumArguments(NumOp::Add, 0))
    );
}

#[test]
fn test_equality_forces_symbols_not_qexprs() {
    let mut env = fresh_env();
    let def = Expr::SExpr(vec![
        qexprs_op(QExprsOp::Def),
        Expr::QExpr(vec![ident("क"), ident("ख")]),
        num(4),
        num(4),
    ]);
    assert_eq!(eval(&mut env, &def, FUEL), Ok(Expr::SExpr(vec![])));

    // symbol operands are evaluated before comparing
    let eq_syms = Expr::SExpr(vec![
        Expr::Sym(Symbol::ExprsOp(ExprsOp::Equal)),
        ident("क"),
        ident("ख"),
    ]);
    assert_eq!(eval(&mut env, &eq_syms, FUEL), Ok(Expr::Bool(Boolean(true))));

    // Q-expression operands compare inert: '(क) and '(ख) stay different
    let eq_quoted = Expr::SExpr(vec![
        Expr::Sym(Symbol::ExprsOp(ExprsOp::Equal)),
        Expr::QExpr(vec![ident("क")]),
        Expr::QExpr(vec![ident("ख")]),
    ]);
    assert_eq!(eval(&mut env, &eq_quoted, FUEL), Ok(Expr::Bool(Boolean(false))));
}

#[test]
fn test_printenv_dumps_scope() {
    let mut env = fresh_env();
    let e = Expr::SExpr(vec![
        Expr::Sym(Symbol::SExprOp(SExprOp::PrintEnv)),
        num(1),
    ]);
    assert_eq!(eval(&mut env, &e, FUEL), Ok(Expr::QExpr(vec![])));
    assert_eq!(env.output.len(), 1);
    assert!(env.output[0].contains("नामक"));
}
