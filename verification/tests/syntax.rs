use tour::syntax::{ItemTempl, RenderValue, StmtSyn, parse_stmt};

#[test]
fn stmt_layout_and_extends() {
    match parse_stmt(r#"layout "base.html""#).unwrap() {
        StmtSyn::Layout(l) => assert_eq!(l.path, "base.html"),
        other => panic!("{other:?}"),
    }
    assert!(matches!(parse_stmt(r#"extends "base.html""#), Ok(StmtSyn::Layout(_))));
    assert!(parse_stmt("layout base").is_err());
}

#[test]
fn stmt_use() {
    match parse_stmt(r#"use "nav.html" as Nav"#).unwrap() {
        StmtSyn::Use(u) => {
            assert_eq!(u.path, "nav.html");
            assert_eq!(u.ident, "Nav");
        },
        other => panic!("{other:?}"),
    }
}

#[test]
fn stmt_render() {
    match parse_stmt("render Title").unwrap() {
        StmtSyn::Render(r) => {
            assert!(matches!(r.value, RenderValue::Ident(ref i) if i == "Title"));
            assert!(r.block.is_none());
        },
        other => panic!("{other:?}"),
    }
    match parse_stmt(r#"render "nav.html" block Menu"#).unwrap() {
        StmtSyn::Render(r) => {
            assert!(matches!(r.value, RenderValue::Path(ref p) if p == "nav.html"));
            assert_eq!(r.block.as_deref(), Some("Menu"));
        },
        other => panic!("{other:?}"),
    }
}

#[test]
fn stmt_block() {
    match parse_stmt("pub static block Title").unwrap() {
        StmtSyn::Block(b) => {
            assert!(b.pub_token);
            assert!(b.static_token);
            assert_eq!(b.name, "Title");
        },
        other => panic!("{other:?}"),
    }
    match parse_stmt("block Body").unwrap() {
        StmtSyn::Block(b) => assert!(!b.pub_token && !b.static_token && b.name == "Body"),
        other => panic!("{other:?}"),
    }
}

#[test]
fn stmt_scopes() {
    assert!(matches!(parse_stmt("if *cond"), Ok(StmtSyn::If(_))));
    assert!(matches!(parse_stmt("else"), Ok(StmtSyn::Else(ref e)) if e.elif_branch.is_none()));
    assert!(matches!(parse_stmt("else if *n == 2"), Ok(StmtSyn::Else(ref e)) if e.elif_branch.is_some()));
    match parse_stmt("for i in it").unwrap() {
        StmtSyn::For(f) => {
            assert_eq!(f.pat, "i");
            assert_eq!(f.expr, "it");
        },
        other => panic!("{other:?}"),
    }
    assert!(matches!(parse_stmt("endblock"), Ok(StmtSyn::Endblock)));
    assert!(matches!(parse_stmt("endif"), Ok(StmtSyn::EndIf)));
    assert!(matches!(parse_stmt("endfor"), Ok(StmtSyn::EndFor)));
    assert!(matches!(parse_stmt("yield"), Ok(StmtSyn::Yield)));
}

#[test]
fn stmt_items_and_expressions() {
    assert!(matches!(parse_stmt("use std::iter::once;"), Ok(StmtSyn::Item(ItemTempl::Use(_)))));
    match parse_stmt("use std::iter::once").unwrap() {
        StmtSyn::Item(ItemTempl::Use(text)) => assert_eq!(text, "use std :: iter :: once;"),
        other => panic!("{other:?}"),
    }
    assert!(parse_stmt("use std::iter::once;;").is_err());
    assert!(matches!(parse_stmt("const N: usize = 1;"), Ok(StmtSyn::Item(ItemTempl::Const(_)))));
    match parse_stmt("a + b").unwrap() {
        StmtSyn::Expr(e) => assert_eq!(e, "a + b"),
        other => panic!("{other:?}"),
    }
}

#[test]
fn stmt_errors() {
    for src in ["endif now", "for i", "if", "1 +"] {
        let err = parse_stmt(src).unwrap_err();
        assert_eq!(err.message(), "failed to parse expr", "{src}");
    }
}

#[test]
fn group_text_is_built_from_its_tokens() {
    match parse_stmt("f( a ,b )").unwrap() {
        StmtSyn::Expr(e) => assert_eq!(e, "f (a , b)"),
        other => panic!("{other:?}"),
    }
    match parse_stmt("v[ x [0] ]").unwrap() {
        StmtSyn::Expr(e) => assert_eq!(e, "v [x [0]]"),
        other => panic!("{other:?}"),
    }
    match parse_stmt("{ a::b }").unwrap() {
        StmtSyn::Expr(e) => assert_eq!(e, "{a :: b}"),
        other => panic!("{other:?}"),
    }
}
