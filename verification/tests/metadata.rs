use tour::metadata::{AttrPair, AttrValue, AttrVisitor, Metadata, Reload, TemplKind, dir_of};
use tour::path::Config;
use tour::syntax::LayoutTempl;

fn pair(name: &str, value: AttrValue, text: &str) -> AttrPair {
    AttrPair { name: Some(name.to_string()), value, text: text.to_string() }
}

fn s(v: &str) -> AttrValue {
    AttrValue::Str(v.to_string())
}

fn parse_err(pairs: Vec<AttrPair>) -> String {
    match AttrVisitor::parse(&pairs, &Config::new(), "/work") {
        Ok(_) => panic!("should fail"),
        Err(e) => e.message().to_string(),
    }
}

#[test]
fn attrs_path() {
    let m = AttrVisitor::parse(&vec![pair("path", s("index.html"), "\"index.html\"")], &Config::new(), "/work").unwrap();
    // templates are searched from the `templates` directory
    assert_eq!(m.path(), "/work/templates/index.html");
    assert!(m.inline().is_none());
    assert!(m.block().is_none());
    assert_eq!(m.kind(), TemplKind::Main);
    // templates reload by default in debug builds
    assert!(matches!(m.reload(), Reload::Debug));
}

#[test]
fn attrs_root_path() {
    let m = Metadata::from_attrs(&vec![pair("path", s("/tour/tests/a.html"), "")], &Config::new(), "/work").unwrap();
    assert_eq!(m.path(), "/work/tour/tests/a.html");
}

#[test]
fn attrs_root_key() {
    // `root` paths are resolved from the project root, the current directory
    let pairs = vec![pair("root", s("tour/tests/block/block.html"), "")];
    let m = Metadata::from_attrs(&pairs, &Config::new(), "/work").unwrap();
    assert_eq!(m.path(), "/work/tour/tests/block/block.html");
    assert!(m.inline().is_none());
    assert!(m.block().is_none());
    let pairs = vec![
        pair("root", s("tour/./tests/../block.html"), ""),
        AttrPair { name: Some("block".to_string()), value: AttrValue::Path(Some("Willie".to_string())), text: "Willie".to_string() },
    ];
    let m = Metadata::from_attrs(&pairs, &Config::new(), "/work").unwrap();
    assert_eq!(m.path(), "/work/tour/block.html");
    assert_eq!(m.block().map(|b| b.as_str()), Some("Willie"));
}

#[test]
fn attrs_source_block_reload() {
    let pairs = vec![
        pair("source", s("Hi {{ name }}"), ""),
        AttrPair { name: Some("block".to_string()), value: AttrValue::Path(Some("Body".to_string())), text: "Body".to_string() },
        pair("reload", s("always"), ""),
    ];
    let m = AttrVisitor::parse(&pairs, &Config::new(), "/work").unwrap();
    assert_eq!(m.path(), "/work");
    assert_eq!(m.inline(), Some("Hi {{ name }}"));
    assert_eq!(m.block().map(|b| b.as_str()), Some("Body"));
    assert!(matches!(m.reload(), Reload::Always));
}

#[test]
fn attrs_reload_expression() {
    let pairs = vec![pair("path", s("a"), ""), AttrPair { name: Some("reload".to_string()), value: AttrValue::Other, text: "cfg!(test)".to_string() }];
    let m = AttrVisitor::parse(&pairs, &Config::new(), "/w").unwrap();
    assert!(matches!(m.reload(), Reload::Expr(e) if e == "cfg!(test)"));
    assert_eq!(m.reload().as_bool(true), Err("cfg!(test)"));
}

#[test]
fn attrs_errors() {
    assert_eq!(parse_err(vec![]), "one of `path`, `root`, or `source` is required");
    assert_eq!(parse_err(vec![pair("path", s("./a"), "")]), "cannot get template file using relative path");
    assert_eq!(parse_err(vec![pair("path", s("a"), ""), pair("source", s("b"), "")]), "only single either of `path`, `root`, or `source` allowed");
    assert_eq!(parse_err(vec![pair("path", AttrValue::Other, "1")]), "expected string");
    assert_eq!(parse_err(vec![pair("block", AttrValue::Other, "1")]), "expected identifier");
    assert_eq!(parse_err(vec![pair("block", AttrValue::Path(None), "a::b")]), "expected this path to be an identifier");
    assert_eq!(parse_err(vec![pair("block", AttrValue::Path(Some("A".into())), "A"), pair("block", AttrValue::Path(Some("B".into())), "B")]), "duplicate `block` key");
    assert_eq!(parse_err(vec![pair("reload", s("sometimes"), "")]), "expected `debug`, `always`, `never`, or expression, found `sometimes`");
    assert_eq!(parse_err(vec![pair("reload", s("never"), ""), pair("reload", s("always"), "")]), "duplicate `reload` key");
    assert_eq!(parse_err(vec![pair("roots", s("a"), "")]), "no such key");
    assert_eq!(parse_err(vec![pair("root", s("a"), ""), pair("path", s("b"), "")]), "only single either of `path`, `root`, or `source` allowed");
    assert_eq!(parse_err(vec![pair("root", AttrValue::Other, "1")]), "expected string");
    assert_eq!(parse_err(vec![AttrPair { name: None, value: s("a"), text: String::new() }]), "expected this path to be an identifier");
}

#[test]
fn reload_as_bool() {
    assert_eq!(Reload::Debug.as_bool(true), Ok(true));
    assert_eq!(Reload::Debug.as_bool(false), Ok(false));
    assert_eq!(Reload::Always.as_bool(false), Ok(true));
    assert_eq!(Reload::Never.as_bool(true), Ok(false));
    assert!(matches!(Reload::default(), Reload::Debug));
}

#[test]
fn directories() {
    assert_eq!(dir_of("/a/b/c.html"), "/a/b");
    assert_eq!(dir_of("/a"), "/");
    assert_eq!(dir_of("a"), "");
    assert_eq!(dir_of(""), "/");
    assert_eq!(dir_of("/"), "/");
    assert_eq!(dir_of("a/b/"), "a");
}

#[test]
fn clones_for_imports_and_layouts() {
    let m = Metadata::new("/t/pages/index.html".to_string(), None, Reload::Always, Some("B".to_string()), TemplKind::Main);
    assert_eq!(m.dir_ref(), "/t/pages");
    let i = m.clone_as_import("../nav.html");
    assert_eq!(i.path(), "/t/nav.html");
    assert_eq!(i.kind(), TemplKind::Import);
    assert!(i.block().is_none());
    assert!(matches!(i.reload(), Reload::Always));
    let l = m.clone_as_layout(&LayoutTempl { path: "./base.html".to_string() });
    assert_eq!(l.path(), "/t/pages/base.html");
    assert_eq!(l.kind(), TemplKind::Layout);
}
