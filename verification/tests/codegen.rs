use tour::codegen::{
    Code, SourcesPlan, StaticSource, Wrap, escapes, generate, generate_block, sources_plan, static_source,
    trait_plan, wrap_of,
};
use tour::delimiter::Delimiter;
use tour::metadata::{Metadata, Reload, TemplKind};
use tour::template::{File, Template};
use tour::visitor::SynVisitor;

fn templ_kind(src: &str, kind: TemplKind) -> Template {
    let file = File::from_parts(SynVisitor::generate(src, 0).unwrap(), vec![]).unwrap();
    Template::new("T".to_string(), Metadata::new("/t".to_string(), None, Reload::Never, None, kind), file).unwrap()
}

fn templ(src: &str) -> Template {
    templ_kind(src, TemplKind::Main)
}

#[test]
fn delimiters_decide_display_and_escape() {
    assert_eq!(wrap_of(Delimiter::Brace), Wrap::Plain);
    assert_eq!(wrap_of(Delimiter::Percent), Wrap::Display);
    assert_eq!(wrap_of(Delimiter::Quest), Wrap::Debug);
    assert_eq!(wrap_of(Delimiter::Bang), Wrap::Plain);
    assert!(escapes(Delimiter::Brace));
    assert!(escapes(Delimiter::Hash));
    assert!(!escapes(Delimiter::Bang));
}

#[test]
fn lowers_statements() {
    let code = generate(&templ("a{{ x }}{! y !}{{ for i in it }}{{ i }}{{ else }}none{{ endfor }}")).unwrap();
    assert_eq!(code.len(), 4);
    assert!(matches!(&code[0], Code::Static { value, index: 0 } if value == "a"));
    assert!(matches!(&code[1], Code::Expr { expr, wrap: Wrap::Plain, escape: true } if expr == "x"));
    assert!(matches!(&code[2], Code::Expr { expr, escape: false, .. } if expr == "y"));
    match &code[3] {
        Code::For { pat, expr, body, else_branch: Some(e) } => {
            assert_eq!(pat, "i");
            assert_eq!(expr, "it");
            assert_eq!(body.len(), 1);
            assert!(matches!(&**e, Code::Group { body } if body.len() == 1));
        },
        other => panic!("{other:?}"),
    }
}

#[test]
fn lowers_blocks_in_place() {
    let t = templ("{{ block A }}x{{ endblock }}y");
    let code = generate(&t).unwrap();
    assert_eq!(code.len(), 2);
    assert!(matches!(&code[0], Code::Static { value, .. } if value == "x"));
    let block = generate_block(&t, "A").unwrap();
    assert_eq!(block.len(), 1);
    assert!(generate_block(&t, "B").is_none());
}

#[test]
fn lowering_stops_at_block_cycles() {
    let t = templ("{{ static block A }}{{ render A }}{{ endblock }}{{ render A }}");
    assert!(generate(&t).is_none());
}

#[test]
fn static_sources() {
    assert!(matches!(static_source(&Reload::Always, false), StaticSource::Reloaded));
    assert!(matches!(static_source(&Reload::Never, true), StaticSource::Value));
    assert!(matches!(static_source(&Reload::Debug, true), StaticSource::Reloaded));
    assert!(matches!(static_source(&Reload::Expr("c".into()), true), StaticSource::Either(e) if e == "c"));
    assert!(matches!(sources_plan(true, &Reload::Always, false, true), SourcesPlan::Read));
    assert!(matches!(sources_plan(true, &Reload::Never, false, true), SourcesPlan::Nothing));
    assert!(matches!(sources_plan(true, &Reload::Expr("c".into()), false, true), SourcesPlan::ReadIf(e) if e == "c"));
    assert!(matches!(sources_plan(false, &Reload::Always, false, true), SourcesPlan::Inline));
    assert!(matches!(sources_plan(false, &Reload::Always, false, false), SourcesPlan::Nothing));
}

#[test]
fn trait_plans() {
    let p = trait_plan(&templ("{{ pub block A }}x{{ endblock }}{{ block B }}y{{ endblock }}")).unwrap();
    assert_eq!(p.render_blocks, vec!["A".to_string()]);
    assert_eq!(p.contains_block, Some(vec!["A".to_string()]));
    assert_eq!(p.size_hint, Some((2, Some(2))));
    assert_eq!(p.size_hint_block, vec![((1, Some(1)), "A".to_string())]);
    assert!(p.display);

    let p = trait_plan(&templ("{{ pub block B }}abc{{ endblock }}")).unwrap();
    assert_eq!(p.size_hint_block, vec![((3, Some(3)), "B".to_string())]);

    let p = trait_plan(&templ("{{ x }}")).unwrap();
    assert_eq!(p.size_hint, None);
    assert_eq!(p.contains_block, None);

    let p = trait_plan(&templ_kind("abc", TemplKind::Import)).unwrap();
    assert_eq!(p.size_hint, None);
    assert!(!p.display);
}
