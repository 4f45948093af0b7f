use tour::ast::{Scalar, StmtTempl};
use tour::metadata::{Metadata, Reload, TemplKind};
use tour::syntax::RenderValue;
use tour::template::{AliasKind, File, Template, ValidateVisitor};
use tour::visitor::SynVisitor;

fn meta(path: &str, block: Option<&str>) -> Metadata {
    Metadata::new(path.to_string(), None, Reload::Never, block.map(|b| b.to_string()), TemplKind::Main)
}

fn import_meta(path: &str) -> Metadata {
    Metadata::new(path.to_string(), None, Reload::Never, None, TemplKind::Import)
}

/// A file with no imports.
fn leaf(src: &str) -> File {
    File::from_parts(SynVisitor::generate(src, 0).unwrap(), vec![]).unwrap()
}

fn file_err(src: &str, parts: Vec<(Metadata, File)>) -> String {
    match File::from_parts(SynVisitor::generate(src, 0).unwrap(), parts) {
        Ok(_) => panic!("`{src}` should fail"),
        Err(e) => e.message().to_string(),
    }
}

#[test]
fn file_getters() {
    let f = leaf("a{{ block A }}x{{ endblock }}");
    assert_eq!(f.statics().len(), 2);
    assert_eq!(f.blocks().len(), 1);
    assert!(f.get_block("A").is_some());
    assert!(f.get_block("B").is_none());
    assert!(f.layout().is_none());
    assert!(f.imports().is_empty());
    assert!(matches!(f.get_resolved_id("A"), Some(AliasKind::Block(_))));
    assert!(f.get_resolved_id("B").is_none());
    assert_eq!(f.stmts().len(), 2);
}

#[test]
fn file_with_imports() {
    let nav = leaf("<nav>{{ block Menu }}m{{ endblock }}</nav>");
    let f = File::from_parts(
        SynVisitor::generate(r#"{{ use "nav.html" as Nav }}{{ render Nav block Menu }}"#, 0).unwrap(),
        vec![(import_meta("/t/nav.html"), nav)],
    )
    .unwrap();
    assert_eq!(f.imports().len(), 1);
    let import = f.get_import_by_id("Nav").unwrap();
    assert_eq!(import.path(), "nav.html");
    assert_eq!(import.alias(), "Nav");
    assert_eq!(import.templ().name(), "Nav");
    assert!(f.get_import_by_path("nav.html").is_some());
    assert!(f.get_import_by_path("other.html").is_none());
    assert!(matches!(f.get_resolved_id("Nav"), Some(AliasKind::Import(_))));
}

#[test]
fn validate_errors() {
    assert_eq!(file_err("{{ render Missing }}", vec![]), "cannot find block/template `Missing`");
    assert_eq!(
        file_err("{{ static block A }}{{ endblock }}{{ render A block B }}", vec![]),
        "cannot render a block `A` from a block `B`"
    );
    assert_eq!(
        file_err(r#"{{ use "nav.html" as Nav }}{{ render Nav block B }}"#, vec![(import_meta("/nav.html"), leaf("nav"))]),
        "cannot find block `B` in `Nav`"
    );
    assert_eq!(
        file_err(r#"{{ render "nav.html" block B }}"#, vec![(import_meta("/nav.html"), leaf("nav"))]),
        "cannot find block `B` in `nav.html`"
    );
}

#[test]
fn validate_visitor_directly() {
    let f = leaf("{{ if a }}x{{ endif }}");
    assert!(ValidateVisitor::validate(&f).is_ok());
}

#[test]
fn template_new_and_getters() {
    let t = Template::new("Page".to_string(), meta("/t/page.html", None), leaf("a{{ block A }}b{{ endblock }}")).unwrap();
    assert_eq!(t.name(), "Page");
    assert_eq!(t.meta().path(), "/t/page.html");
    assert_eq!(t.all_stmts().len(), 2);
    assert_eq!(t.stmts().len(), 2);
    assert_eq!(t.file().blocks().len(), 1);
    let (m, f) = t.into_parts();
    assert_eq!(m.kind(), TemplKind::Main);
    assert_eq!(f.blocks().len(), 1);
}

#[test]
fn template_selected_block() {
    let t = Template::new("Page".to_string(), meta("/p", Some("A")), leaf("a{{ block A }}b{{ endblock }}")).unwrap();
    // only the block's statements are rendered
    assert_eq!(t.stmts().len(), 1);
}

#[test]
fn template_errors() {
    let e = Template::new("Page".to_string(), meta("/p", Some("X")), leaf("a")).unwrap_err();
    assert_eq!(e.message(), "cannot find `X` in `Page`");
    let e = Template::new("Page".to_string(), meta("/p", None), leaf("{{ block TourInner }}{{ endblock }}")).unwrap_err();
    assert_eq!(e.message(), "`TourInner` is reserved block name");
}

#[test]
fn template_with_layout() {
    let base = leaf("<main>{{ yield }}</main>");
    let file = File::from_parts(
        SynVisitor::generate(r#"{{ layout "base.html" }}body"#, 0).unwrap(),
        vec![(import_meta("/t/base.html"), base)],
    )
    .unwrap();
    let t = Template::new("Page".to_string(), meta("/t/page.html", None), file).unwrap();
    // the body moves to the `TourInner` block, and the layout is rendered
    let stmts = t.all_stmts();
    assert_eq!(stmts.len(), 1);
    assert!(matches!(&stmts[0], StmtTempl::Scalar(Scalar::Render(r)) if matches!(&r.value, RenderValue::Ident(i) if i == "TourTemplate0")));
    let inner = t.file().get_block("TourInner").unwrap();
    assert!(inner.templ.pub_token && inner.templ.static_token);
    assert_eq!(inner.stmts.len(), 1);
}
