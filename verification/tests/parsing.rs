use alpa::display::{display_expr, sym_string};
use alpa::environment;
use alpa::evaluator::eval;
use alpa::ntypes::Sankhya;
use alpa::parser::parse;
use alpa::types::{Boolean, Error, Expr, ExprsOp, NumOp, QExprOp, QExprsOp, Symbol};

const FUEL: u64 = 9999;

#[test]
fn test_parse_success() {
    let input = "+ +२ -५ () (* ४ ५) (/ -१० २) (- -१ ५)";
    let expected = Expr::SExpr(vec![
        Expr::Sym(Symbol::NumOp(NumOp::Add)),
        Expr::Num(Sankhya(2)),
        Expr::Num(Sankhya(-5)),
        Expr::SExpr(vec![]),
        Expr::SExpr(vec![
            Expr::Sym(Symbol::NumOp(NumOp::Multiply)),
            Expr::Num(Sankhya(4)),
            Expr::Num(Sankhya(5)),
        ]),
        Expr::SExpr(vec![
            Expr::Sym(Symbol::NumOp(NumOp::Divide)),
            Expr::Num(Sankhya(-10)),
            Expr::Num(Sankhya(2)),
        ]),
        Expr::SExpr(vec![
            Expr::Sym(Symbol::NumOp(NumOp::Subtract)),
            Expr::Num(Sankhya(-1)),
            Expr::Num(Sankhya(5)),
        ]),
    ]);
    assert_eq!(parse(input), Ok(expected));
}

#[test]
fn test_parse_atoms() {
    assert_eq!(
        parse("सत्य गलत"),
        Ok(Expr::SExpr(vec![
            Expr::Bool(Boolean(true)),
            Expr::Bool(Boolean(false)),
        ]))
    );
    assert_eq!(
        parse("\"नमस्ते संसार\""),
        Ok(Expr::SExpr(vec![Expr::Str("नमस्ते संसार".to_string())]))
    );
    assert_eq!(
        parse("नाम"),
        Ok(Expr::SExpr(vec![Expr::Sym(Symbol::Identifier(
            "नाम".to_string()
        ))]))
    );
    assert_eq!(
        parse("पहिलो '(१)"),
        Ok(Expr::SExpr(vec![
            Expr::Sym(Symbol::QExprOp(QExprOp::First)),
            Expr::QExpr(vec![Expr::Num(Sankhya(1))]),
        ]))
    );
    assert_eq!(
        parse("= '(क) १"),
        Ok(Expr::SExpr(vec![
            Expr::Sym(Symbol::QExprsOp(QExprsOp::Put)),
            Expr::QExpr(vec![Expr::Sym(Symbol::Identifier("क".to_string()))]),
            Expr::Num(Sankhya(1)),
        ]))
    );
    assert_eq!(
        parse("== != >= <="),
        Ok(Expr::SExpr(vec![
            Expr::Sym(Symbol::ExprsOp(ExprsOp::Equal)),
            Expr::Sym(Symbol::ExprsOp(ExprsOp::NotEqual)),
            Expr::Sym(Symbol::NumOp(NumOp::GreaterThanOrEqual)),
            Expr::Sym(Symbol::NumOp(NumOp::LessThanOrEqual)),
        ]))
    );
}

#[test]
fn test_parse_failures() {
    let unclosed = "(+ १ २";
    assert_eq!(
        parse(unclosed),
        Err(Error::ParseError(unclosed.to_string()))
    );
    let stray = ")";
    assert_eq!(parse(stray), Err(Error::ParseError(stray.to_string())));
    let huge = "९९९९९९९९९९९९९९९";
    assert_eq!(parse(huge), Err(Error::ParseError(huge.to_string())));
    let unterminated = "\"खुला";
    assert_eq!(
        parse(unterminated),
        Err(Error::ParseError(unterminated.to_string()))
    );
}

#[test]
fn test_parse_then_eval_arithmetic() {
    // the first concrete scenario: the whole pipeline gives ६
    let input = "+ +२ -५ (* ४ ५) (/ -१० २) (- -१ ५)";
    let tree = parse(input).unwrap();
    let mut env = environment::new(Vec::new());
    environment::load_core_fns(&mut env);
    let result = eval(&mut env, &tree, FUEL).unwrap();
    assert_eq!(result, Expr::Num(Sankhya(6)));
    assert_eq!(display_expr(&result), "६");
}

#[test]
fn test_number_text_round_trip() {
    assert_eq!(Sankhya::from_text("१०"), Some(Sankhya(10)));
    assert_eq!(Sankhya::from_text("+२"), Some(Sankhya(2)));
    assert_eq!(Sankhya::from_text("-१०"), Some(Sankhya(-10)));
    assert_eq!(Sankhya::from_text("-२१४७४८३६४८"), Some(Sankhya(i32::MIN)));
    assert_eq!(Sankhya::from_text("२१४७४८३६४८"), None);
    assert_eq!(Sankhya::from_text("10"), None);
    assert_eq!(Sankhya::from_text(""), None);
    assert_eq!(Sankhya::from_text("-"), None);
    assert_eq!(Sankhya::from_text("१क"), None);

    assert_eq!(Sankhya(0).to_text(), "०");
    assert_eq!(Sankhya(2059).to_text(), "२०५९");
    assert_eq!(Sankhya(-10).to_text(), "-१०");
    assert_eq!(Sankhya(i32::MIN).to_text(), "-२१४७४८३६४८");
}

#[test]
fn test_display_forms() {
    assert_eq!(display_expr(&Expr::Bool(Boolean(true))), "बुलियन(सत्य)");
    assert_eq!(display_expr(&Expr::Bool(Boolean(false))), "बुलियन(गलत)");
    assert_eq!(display_expr(&Expr::Num(Sankhya(-42))), "-४२");
    assert_eq!(display_expr(&Expr::Str("अरे".to_string())), "\"अरे\"");
    assert_eq!(
        display_expr(&Expr::Sym(Symbol::QExprOp(QExprOp::First))),
        "पहिलो"
    );
    let se = Expr::SExpr(vec![
        Expr::Sym(Symbol::NumOp(NumOp::Add)),
        Expr::Num(Sankhya(1)),
        Expr::Num(Sankhya(2)),
    ]);
    assert_eq!(display_expr(&se), "(+ १ २)");
    let qe = Expr::QExpr(vec![Expr::Num(Sankhya(1)), Expr::Num(Sankhya(2))]);
    assert_eq!(display_expr(&qe), "'(१ २)");
    assert_eq!(
        sym_string(&Symbol::Identifier("नाम".to_string())),
        "नाम"
    );
}

#[test]
fn test_parse_rejects_lone_quote() {
    let lone = "' १";
    assert_eq!(parse(lone), Err(Error::ParseError(lone.to_string())));
}

#[test]
fn test_parse_rest_marker_as_identifier() {
    // the rest marker is an ordinary identifier to the reader
    assert_eq!(
        parse("ल्याम्बडा '(अ ऽ ब) '(ब)"),
        Ok(Expr::SExpr(vec![
            Expr::Sym(Symbol::QExprsOp(QExprsOp::Lambda)),
            Expr::QExpr(vec![
                Expr::Sym(Symbol::Identifier("अ".to_string())),
                Expr::Sym(Symbol::Identifier("ऽ".to_string())),
                Expr::Sym(Symbol::Identifier("ब".to_string())),
            ]),
            Expr::QExpr(vec![Expr::Sym(Symbol::Identifier("ब".to_string()))]),
        ]))
    );
}

#[test]
fn test_parse_nested_lists() {
    assert_eq!(
        parse("'(१ (+ २ ३) '())"),
        Ok(Expr::SExpr(vec![Expr::QExpr(vec![
            Expr::Num(Sankhya(1)),
            Expr::SExpr(vec![
                Expr::Sym(Symbol::NumOp(NumOp::Add)),
                Expr::Num(Sankhya(2)),
                Expr::Num(Sankhya(3)),
            ]),
            Expr::QExpr(vec![]),
        ])]))
    );
}
