use tour::ast::{Scalar, Scope, StmtTempl};
use tour::visitor::SynVisitor;

fn build_err(src: &str) -> String {
    match SynVisitor::generate(src, 0) {
        Ok(_) => panic!("`{src}` should fail"),
        Err(e) => e.message().to_string(),
    }
}

#[test]
fn builds_statics_and_expressions() {
    let v = SynVisitor::generate("a{{ x }}b", 0).unwrap();
    let (layout, imports, blocks, statics, root) = v.into_parts();
    assert!(layout.is_none());
    assert!(imports.is_empty());
    assert!(blocks.is_empty());
    assert_eq!(statics, vec!["a", "b"]);
    assert_eq!(root.len(), 3);
    assert!(matches!(&root[0], StmtTempl::Scalar(Scalar::Static { value, index: 0 }) if value == "a"));
    assert!(matches!(&root[1], StmtTempl::Scalar(Scalar::Expr { expr, .. }) if expr == "x"));
    assert!(matches!(&root[2], StmtTempl::Scalar(Scalar::Static { value, index: 1 }) if value == "b"));
}

#[test]
fn builds_if_else_chain() {
    let v = SynVisitor::generate("{{ if a }}1{{ else if b }}2{{ else }}3{{ endif }}", 0).unwrap();
    let (_, _, _, statics, root) = v.into_parts();
    assert_eq!(statics, vec!["1", "2", "3"]);
    assert_eq!(root.len(), 1);
    match &root[0] {
        StmtTempl::Scope(Scope::If { templ, stmts, else_branch: Some(b) }) => {
            assert_eq!(templ.cond, "a");
            assert_eq!(stmts.len(), 1);
            match &**b {
                Scope::If { templ, else_branch: Some(b2), .. } => {
                    assert_eq!(templ.cond, "b");
                    assert!(matches!(&**b2, Scope::Root { stmts } if stmts.len() == 1));
                },
                other => panic!("{other:?}"),
            }
        },
        other => panic!("{other:?}"),
    }
}

#[test]
fn builds_blocks_and_renders() {
    let v = SynVisitor::generate("{{ block A }}x{{ endblock }}{{ static block B }}y{{ endblock }}", 0).unwrap();
    let (_, _, blocks, _, root) = v.into_parts();
    assert_eq!(blocks.len(), 2);
    assert_eq!(blocks[0].templ.name, "A");
    assert_eq!(blocks[1].templ.name, "B");
    // a block renders in place unless it is static
    assert_eq!(root.len(), 1);
    assert!(matches!(&root[0], StmtTempl::Scalar(Scalar::Render(_))));
}

#[test]
fn builds_imports_once() {
    let v = SynVisitor::generate(r#"{{ render "nav.html" }}{{ render "nav.html" }}{{ use "nav.html" as Nav }}{{ layout "base.html" }}"#, 7)
        .unwrap();
    let reqs = v.import_requests();
    assert_eq!(reqs.len(), 2);
    assert_eq!(reqs[0].path, "nav.html");
    assert_eq!(reqs[0].alias, "TourTemplate7");
    assert_eq!(reqs[1].path, "base.html");
    assert_eq!(reqs[1].alias, "TourTemplate9");
}

#[test]
fn build_errors() {
    assert_eq!(build_err(r#"{{ layout "a" }}{{ extends "b" }}"#), "cannot have 2 `extends` or `layout`");
    assert_eq!(build_err("{{ if a }}{{ else }}{{ else }}{{ endif }}"), "cannot have 2 `else`");
    assert_eq!(build_err("{{ for i in a }}{{ else }}{{ else }}{{ endfor }}"), "cannot have 2 `else` in `for` scope");
    assert_eq!(build_err("{{ else }}"), "cannot close `else` in toplevel");
    assert_eq!(build_err("{{ block A }}{{ else }}"), "cannot close `else` in `block` scope");
    assert_eq!(build_err("{{ endblock }}"), "cannot close `endblock` in toplevel");
    assert_eq!(build_err("{{ for i in a }}{{ endif }}"), "cannot close `endif` in `for` scope");
    assert_eq!(build_err("{{ if a }}{{ endfor }}"), "cannot close `endfor` in `if` scope");
    assert_eq!(build_err("{{ if a }}"), "unclosed `if` scope");
    assert_eq!(build_err("{{ 1 + }}"), "failed to parse expr");
    assert_eq!(build_err("{{ x"), "unclosed expression");
}

#[test]
fn build_statics_match_reload_statics() {
    // law: the statics a source builds are those a StaticVisitor reloads
    let src = "<h1>{{ title }}</h1>{{ if a }}yes{{ else }}no{{ endif }}";
    let built = SynVisitor::generate(src, 0).unwrap().into_parts().3;
    let reloaded = tour::parser::Parser::new(src, tour::parser::StaticVisitor::new()).parse().unwrap().statics;
    assert_eq!(built, reloaded);
}
