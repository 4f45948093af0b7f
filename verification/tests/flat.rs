use tour::flat::{Parser, TemplStmt, parse, tokenize_expr};
use tour::tokenizer::Token;

#[test]
fn syn_basic() {
    assert!(matches!(tokenize_expr("if let Some(desc) = desc"), Ok(TemplStmt::If(_))));
    assert!(matches!(tokenize_expr("case Ok(4..) | Ok(0)"), Ok(TemplStmt::Case(_))));
    assert!(matches!(tokenize_expr(" end "), Ok(TemplStmt::End(_))));
}

#[test]
fn flat_statements() {
    assert!(matches!(tokenize_expr("else"), Ok(TemplStmt::Else(ref e)) if e.if_branch.is_none()));
    assert!(matches!(tokenize_expr("else if a"), Ok(TemplStmt::Else(ref e)) if e.if_branch.is_some()));
    assert!(matches!(tokenize_expr("match x"), Ok(TemplStmt::Match(_))));
    assert!(matches!(tokenize_expr("case Some(v) if v > 1"), Ok(TemplStmt::Case(ref c)) if c.guard.is_some()));
    assert!(matches!(tokenize_expr("for (a, b) in it"), Ok(TemplStmt::ForLoop(ref f)) if f.expr == "it"));
    assert!(matches!(tokenize_expr("while go"), Ok(TemplStmt::While(_))));
    assert!(matches!(tokenize_expr("loop"), Ok(TemplStmt::Loop(_))));
    assert!(matches!(tokenize_expr("break"), Ok(TemplStmt::Break(_))));
    assert!(matches!(tokenize_expr("continue"), Ok(TemplStmt::Continue(_))));
    assert!(matches!(tokenize_expr("const { 1 }"), Ok(TemplStmt::Const(_))));
    assert!(matches!(tokenize_expr("let x = 1"), Ok(TemplStmt::Let(_))));
    assert!(matches!(tokenize_expr("a.b()"), Ok(TemplStmt::Value(_))));
    assert_eq!(tokenize_expr("loop x").unwrap_err().message(), "failed to parse statement");
    assert!(tokenize_expr("for x").is_err());

    let stmts = parse(&vec![Token::Static("a"), Token::Expr("end")]).unwrap();
    assert!(matches!(&stmts[0], TemplStmt::Static(s) if s == "a"));
    assert!(matches!(&stmts[1], TemplStmt::End(_)));
    assert!(parse(&vec![Token::Expr("end now")]).is_err());

    let mut p = Parser::new(vec![Token::Expr("if a"), Token::Static("b")]);
    assert!(matches!(p.next(), Some(Ok(TemplStmt::If(_)))));
    assert!(matches!(p.next(), Some(Ok(TemplStmt::Static(_)))));
    assert!(p.next().is_none());
}
