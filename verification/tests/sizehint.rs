use tour::metadata::{Metadata, Reload, TemplKind};
use tour::sizehint::{Visitor, add, add_size_hint, exact, is_empty, merge, merge_size_hint};
use tour::template::{File, Template};
use tour::visitor::SynVisitor;

fn templ(src: &str) -> Template {
    let file = File::from_parts(SynVisitor::generate(src, 0).unwrap(), vec![]).unwrap();
    Template::new("T".to_string(), Metadata::new("/t".to_string(), None, Reload::Never, None, TemplKind::Main), file).unwrap()
}

#[test]
fn hint_arithmetic() {
    assert_eq!(exact(3), (3, Some(3)));
    assert!(is_empty((0, None)));
    assert!(!is_empty((0, Some(0))));
    assert_eq!(add((1, Some(2)), (3, Some(4))), (4, Some(6)));
    assert_eq!(add((1, None), (3, Some(4))), (4, Some(4)));
    assert_eq!(add((1, None), (3, None)), (4, None));
    assert_eq!(merge((1, Some(2)), (3, Some(4))), (1, Some(4)));
    assert_eq!(merge((5, None), (3, Some(4))), (3, Some(4)));
    assert_eq!(add_size_hint((1, Some(1)), (2, Some(2))), (3, Some(3)));
    assert_eq!(merge_size_hint((1, Some(1)), (2, Some(2))), (1, Some(2)));
}

#[test]
fn hint_laws_on_values() {
    let (a, b, c) = ((1, Some(5)), (2, None), (0, Some(3)));
    assert_eq!(add(a, b), add(b, a));
    assert_eq!(add(add(a, b), c), add(a, add(b, c)));
    assert_eq!(add(a, (0, None)), a);
    assert_eq!(merge(a, b), merge(b, a));
    assert_eq!(merge(a, a), a);
}

#[test]
fn template_hints() {
    // statics count in bytes; expressions are unknown
    assert_eq!(Visitor::new(&templ("héllo")).calculate(), (6, Some(6)));
    assert_eq!(Visitor::new(&templ("ab{{ x }}cd")).calculate(), (4, Some(4)));
    // either branch of an if
    assert_eq!(Visitor::new(&templ("{{ if a }}abc{{ else }}d{{ endif }}")).calculate(), (1, Some(3)));
    assert_eq!(Visitor::new(&templ("{{ if a }}abc{{ endif }}")).calculate(), (0, Some(3)));
    // a block renders its statements in place
    let t = templ("{{ block A }}xy{{ endblock }}z");
    assert_eq!(Visitor::new(&t).calculate(), (3, Some(3)));
    assert_eq!(Visitor::new(&t).calculate_block("A"), (2, Some(2)));
    assert_eq!(Visitor::new(&t).try_calculate_block("B"), None);
}

#[test]
fn template_hint_of_block_cycle_is_undefined() {
    let t = templ("{{ static block A }}{{ render B }}{{ endblock }}{{ static block B }}{{ render A }}{{ endblock }}{{ render A }}");
    assert_eq!(Visitor::new(&t).try_calculate(), None);
}
