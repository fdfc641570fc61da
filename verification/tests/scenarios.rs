//! The concrete prompt-level scenarios, run through the same pipeline the
//! prompt uses: parse the line, evaluate the tree, look at the value.

use alpa::display::display_expr;
use alpa::environment::{self, Env};
use alpa::evaluator::eval;
use alpa::ntypes::Sankhya;
use alpa::parser::parse;
use alpa::types::{Error, Expr, Function, Symbol};

const FUEL: u64 = 9999;

fn fresh_env() -> Env {
    let mut env = environment::new(Vec::new());
    environment::load_core_fns(&mut env);
    env
}

fn run(env: &mut Env, line: &str) -> Result<Expr, Error> {
    let tree = parse(line).unwrap();
    eval(env, &tree, FUEL)
}

#[test]
fn test_scenario_arithmetic_line() {
    let mut env = fresh_env();
    let r = run(&mut env, "+ +२ -५ (* ४ ५) (/ -१० २) (- -१ ५)").unwrap();
    assert_eq!(r, Expr::Num(Sankhya(6)));
    assert_eq!(display_expr(&r), "६");
}

#[test]
fn test_scenario_list_primitives() {
    let mut env = fresh_env();
    let first = run(&mut env, "पहिलो '(१ २ ३)").unwrap();
    assert_eq!(display_expr(&first), "'(१)");
    let rest = run(&mut env, "बाँकी '(१ २ ३)").unwrap();
    assert_eq!(display_expr(&rest), "'(२ ३)");
    let len = run(&mut env, "वटा '(१ २ ३)").unwrap();
    assert_eq!(len, Expr::Num(Sankhya(3)));
    assert_eq!(display_expr(&len), "३");
}

#[test]
fn test_scenario_define_then_use() {
    let mut env = fresh_env();
    assert!(run(&mut env, "नामक '(क) १०").is_ok());
    assert_eq!(run(&mut env, "क"), Ok(Expr::Num(Sankhya(10))));
}

#[test]
fn test_scenario_lambda_and_partial_application() {
    let mut env = fresh_env();
    assert!(run(&mut env, "नामक '(जोड) (ल्याम्बडा '(अ ब) '(+ अ ब))").is_ok());
    assert_eq!(run(&mut env, "जोड ३ ४"), Ok(Expr::Num(Sankhya(7))));

    let lam = run(&mut env, "जोड ३").unwrap();
    assert!(matches!(&lam, Expr::Fun(Function::Lambda(formals, _, _)) if formals.len() == 1));
    let finish = Expr::SExpr(vec![lam, Expr::Num(Sankhya(4))]);
    assert_eq!(eval(&mut env, &finish, FUEL), Ok(Expr::Num(Sankhya(7))));
}

#[test]
fn test_scenario_conditionals() {
    let mut env = fresh_env();
    assert_eq!(
        run(&mut env, "यदि (> ५ ३) '(+ १ १) '(+ १०० १)"),
        Ok(Expr::Num(Sankhya(2)))
    );
    assert_eq!(
        run(&mut env, "यदि (< ५ ३) '(+ १ १) '(+ १०० १)"),
        Ok(Expr::Num(Sankhya(101)))
    );
}

#[test]
fn test_scenario_errors() {
    let mut env = fresh_env();
    assert_eq!(
        run(&mut env, "/ १० ०"),
        Err(Error::DivideByZero(Sankhya(10), Sankhya(0)))
    );
    assert_eq!(
        run(&mut env, "पहिलो '()"),
        Err(Error::EmptyQExpr(Expr::QExpr(vec![])))
    );
    assert_eq!(
        run(&mut env, "क"),
        Err(Error::UnboundSymbol(Symbol::Identifier("क".to_string())))
    );
}
