//! Templates from inline sources, built and lowered by the library, rendered
//! by walking the lowered render operations the way the generated
//! `render_into` does, with the value of each Rust expression given.
use tour::codegen::{Code, StaticSource, Wrap, generate, static_source, trait_plan};
use tour::metadata::{AttrPair, AttrValue, Metadata};
use tour::path::Config;
use tour::template::{File, Template as Templ};
use tour::visitor::SynVisitor;
use tour::{Error, Escape, TemplDisplay, TemplWrite, Template};

struct MyDisplay;

impl TemplDisplay for MyDisplay {
    fn display<W: TemplWrite>(&self, f: &mut W) -> Result<(), Error> {
        f.write_str("TemplDisplay trait")
    }
}

impl std::fmt::Display for MyDisplay {
    fn fmt(&self, f: &mut std::fmt::Formatter<'_>) -> std::fmt::Result {
        f.write_str("Display trait")
    }
}

impl std::fmt::Debug for MyDisplay {
    fn fmt(&self, f: &mut std::fmt::Formatter<'_>) -> std::fmt::Result {
        f.write_str("Debug trait")
    }
}

/// The value of a Rust expression of a template.
#[derive(Clone)]
enum Val {
    Text(&'static str),
    Mine,
    Flag(bool),
    List(Vec<&'static str>),
    Number(Option<i32>),
}

/// A template with the values of its expressions.
struct Rendered {
    templ: Templ,
    env: Vec<(String, Val)>,
}

/// The template `#[template(source = ..)]` describes.
fn inline(source: &str, env: Vec<(&str, Val)>) -> Rendered {
    let pairs = vec![AttrPair {
        name: Some("source".to_string()),
        value: AttrValue::Str(source.to_string()),
        text: format!("{source:?}"),
    }];
    let meta = Metadata::from_attrs(&pairs, &Config::new(), "/work").unwrap();
    let file = File::from_parts(SynVisitor::generate(source, 0).unwrap(), vec![]).unwrap();
    let templ = Templ::new("Inline".to_string(), meta, file).unwrap();
    Rendered { templ, env: env.into_iter().map(|(k, v)| (k.to_string(), v)).collect() }
}

fn lookup(env: &[(String, Val)], expr: &str) -> Val {
    env.iter().rev().find(|(k, _)| k == expr).map(|(_, v)| v.clone()).unwrap_or_else(|| panic!("no value for `{expr}`"))
}

fn show<W: TemplWrite>(value: &Val, wrap: Wrap, w: &mut W) -> Result<(), Error> {
    match (value, wrap) {
        (Val::Text(s), Wrap::Plain) => s.display(w),
        (Val::Mine, Wrap::Plain) => MyDisplay.display(w),
        (Val::Mine, Wrap::Display) => format!("{}", MyDisplay).display(w),
        (Val::Mine, Wrap::Debug) => format!("{:?}", MyDisplay).display(w),
        (Val::Number(n), Wrap::Debug) => format!("{n:?}").display(w),
        _ => panic!("unexpected display"),
    }
}

fn run<W: TemplWrite>(code: &[Code], env: &mut Vec<(String, Val)>, w: &mut W) -> Result<(), Error> {
    for op in code {
        match op {
            Code::Static { value, .. } => value.as_str().display(w)?,
            Code::Expr { expr, wrap, escape } => {
                let value = lookup(env, expr);
                if *escape {
                    show(&value, *wrap, &mut Escape(&mut *w))?
                } else {
                    show(&value, *wrap, w)?
                }
            },
            Code::Item { .. } => {},
            Code::Group { body } => run(body, env, w)?,
            Code::If { cond, body, else_branch } => match lookup(env, cond) {
                Val::Flag(true) => run(body, env, w)?,
                Val::Flag(false) => if let Some(e) = else_branch {
                    run(std::slice::from_ref(&**e), env, w)?
                },
                _ => panic!("condition `{cond}` is not a flag"),
            },
            Code::For { pat, expr, body, else_branch } => {
                let Val::List(items) = lookup(env, expr) else { panic!("`{expr}` is not a list") };
                for item in &items {
                    env.push((pat.clone(), Val::Text(item)));
                    run(body, env, w)?;
                    env.pop();
                }
                if let (true, Some(e)) = (items.is_empty(), else_branch) {
                    run(std::slice::from_ref(&**e), env, w)?
                }
            },
            Code::Yield | Code::Import { .. } => panic!("no layout or import here"),
        }
    }
    Ok(())
}

impl Template for Rendered {
    fn render_into<W: TemplWrite>(&self, writer: &mut W) -> Result<(), Error> {
        assert!(matches!(static_source(self.templ.meta().reload(), false), StaticSource::Value));
        let code = generate(&self.templ).unwrap();
        run(&code, &mut self.env.clone(), writer)
    }

    fn size_hint(&self) -> (usize, Option<usize>) {
        trait_plan(&self.templ).unwrap().size_hint.unwrap_or((0, None))
    }
}

#[test]
fn render() {
    let templ = inline("{{ input }}", vec![("input", Val::Mine)]);
    assert_eq!(templ.render().unwrap(), "TemplDisplay trait");
}

#[test]
fn render_std_display_delimiter() {
    let templ = inline("{% input %}", vec![("input", Val::Mine)]);
    assert_eq!(templ.render().unwrap(), "Display trait");
}

#[test]
fn render_std_debug() {
    let templ = inline("{? input ?}", vec![("input", Val::Mine)]);
    assert_eq!(templ.render().unwrap(), "Debug trait");
}

#[test]
fn escape() {
    let templ = inline("{{ input }}", vec![("input", Val::Text("<script></script>"))]);
    assert_eq!(templ.render().unwrap(), "&ltscript&gt&lt/script&gt");
}

#[test]
fn escape_opt_out() {
    let templ = inline("{! input !}", vec![("input", Val::Text("<script></script>"))]);
    assert_eq!(templ.render().unwrap(), "<script></script>");
}

#[test]
fn conditional() {
    let source = "<div>{{ if *cond }}Ok{{ endif }}</div>";
    let t1 = inline(source, vec![("* cond", Val::Flag(false))]);
    assert_eq!(t1.render().unwrap(), "<div></div>");

    let t2 = inline(source, vec![("* cond", Val::Flag(true))]);
    assert_eq!(t2.render().unwrap(), "<div>Ok</div>");

    let (min, Some(max)) = t1.size_hint() else { unreachable!() };

    assert_eq!(min, t1.render().unwrap().len());
    assert_eq!(max, t2.render().unwrap().len());
}

#[test]
fn conditional_2_branch() {
    let source = "<div>{{ if *cond }}Some{{ else }}None{{ endif }}</div>";
    let t1 = inline(source, vec![("* cond", Val::Flag(false))]);
    assert_eq!(t1.render().unwrap(), "<div>None</div>");

    let t2 = inline(source, vec![("* cond", Val::Flag(true))]);
    assert_eq!(t2.render().unwrap(), "<div>Some</div>");

    let (min, Some(max)) = t1.size_hint() else { unreachable!() };

    assert_eq!(min, t1.render().unwrap().len());
    assert_eq!(max, t2.render().unwrap().len());
}

#[test]
fn conditional_3_branch() {
    let source = "{{ if *n == 1 }}One{{ else if *n == 2 }}Two{{ else }}None{{ endif }}";
    let with = |n: i32| inline(source, vec![("* n == 1", Val::Flag(n == 1)), ("* n == 2", Val::Flag(n == 2))]);

    let t1 = with(1);
    assert_eq!(t1.render().unwrap(), "One");

    let t2 = with(2);
    assert_eq!(t2.render().unwrap(), "Two");

    let t3 = with(3);
    assert_eq!(t3.render().unwrap(), "None");

    let (min, Some(max)) = t1.size_hint() else { unreachable!() };

    assert_eq!(min, t1.render().unwrap().len());
    assert_eq!(max, t3.render().unwrap().len());
}

#[test]
fn iteration() {
    let source = "<div>{{ for i in it }}the: {{ i }} {{ endfor }}</div>";
    let templ = inline(source, vec![("it", Val::List(vec!["A", "B", "C"]))]);
    assert_eq!(templ.render().unwrap(), "<div>the: A the: B the: C </div>");

    // the upper bound counts one pass of the loop body, with no text for
    // its expressions
    let templ = inline(source, vec![("it", Val::List(vec!["A"]))]);
    let (min, Some(max)) = templ.size_hint() else { unreachable!() };

    let dynamic_size = "A".len();

    assert_eq!(min, "<div></div>".len());
    assert_eq!(max, templ.render().unwrap().len() - dynamic_size);
}

#[test]
fn iteration_2_branch() {
    let source = "<div>{{ for i in it }}the: {{ i }} {{ else }}None{{ endfor }}</div>";
    let t1 = inline(source, vec![("it", Val::List(vec!["A", "B", "C"]))]);
    assert_eq!(t1.render().unwrap(), "<div>the: A the: B the: C </div>");

    let t2 = inline(source, vec![("it", Val::List(vec![]))]);
    assert_eq!(t2.render().unwrap(), "<div>None</div>");

    let (min, Some(_max)) = t1.size_hint() else { unreachable!() };

    assert_eq!(min, t2.render().unwrap().len());
}

#[test]
fn using() {
    let templ = inline("{{ use std::iter::once }}{? once(1).next() ?}", vec![("once (1) . next ()", Val::Number(std::iter::once(1).next()))]);
    assert!(matches!(&generate(&templ.templ).unwrap()[0], Code::Item { text } if text == "use std :: iter :: once;"));
    assert_eq!(templ.render().unwrap(), "Some(1)");
}

#[test]
fn escape_owns_its_writer() {
    let mut out = Escape(String::new());
    out.write_str("a < b").unwrap();
    assert_eq!(out.0, "a &lt b");
}
