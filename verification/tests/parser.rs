use tour::delimiter::Delimiter;
use tour::parser::{ParseError, Parser, Segment, StaticVisitor, Visitor, scan};

fn statics(src: &str) -> Vec<String> {
    Parser::new(src, StaticVisitor::new()).parse().unwrap().statics
}

#[test]
fn scan_splits_statics_and_expressions() {
    let segs = scan("Hello {{ name }}!").unwrap();
    assert_eq!(
        segs,
        vec![
            Segment::Static { start: 0, end: 6 },
            Segment::Expr { start: 8, end: 14, delim: Delimiter::Brace },
            Segment::Static { start: 16, end: 17 },
        ]
    );
}

#[test]
fn scan_every_delimiter() {
    let segs = scan("{! a !}{% b %}{? c ?}{# d #}").unwrap();
    let delims: Vec<Delimiter> = segs
        .iter()
        .map(|s| match s {
            Segment::Expr { delim, .. } => *delim,
            Segment::Static { .. } => panic!("no static expected"),
        })
        .collect();
    assert_eq!(delims, vec![Delimiter::Bang, Delimiter::Percent, Delimiter::Quest, Delimiter::Hash]);
}

#[test]
fn scan_lone_brace_is_static() {
    let segs = scan("a { b } c").unwrap();
    assert_eq!(segs, vec![Segment::Static { start: 0, end: 9 }]);
}

#[test]
fn scan_expression_may_hold_closing_characters() {
    let segs = scan("{{ x } }}").unwrap();
    assert_eq!(segs, vec![Segment::Expr { start: 2, end: 7, delim: Delimiter::Brace }]);
}

#[test]
fn scan_mismatched_delimiters() {
    let err = scan("{{ x %}").unwrap_err();
    assert_eq!(err.message(), "delimiter shold be same, open `brace` closed with `%`");
}

#[test]
fn scan_unclosed_expression() {
    let err = scan("text {{ x").unwrap_err();
    assert_eq!(err.message(), "unclosed expression");
}

#[test]
fn scan_empty_source() {
    assert_eq!(scan("").unwrap(), vec![]);
}

#[test]
fn static_visitor_collects_statics() {
    assert_eq!(statics("a{{ x }}b{! y !}c"), vec!["a", "b", "c"]);
    assert_eq!(statics("{{ x }}{{ y }}"), Vec::<String>::new());
}

#[test]
fn parser_fails_on_scan_error() {
    assert!(Parser::new("{{ x", StaticVisitor::new()).parse().is_err());
}

#[test]
fn unscan_law_on_example() {
    // written back, the segments give the source again
    let src = "<p>{{ a }}</p>{! b !}{ c }";
    let chars: Vec<char> = src.chars().collect();
    let mut back = String::new();
    for seg in scan(src).unwrap() {
        match seg {
            Segment::Static { start, end } => back.extend(&chars[start..end]),
            Segment::Expr { start, end, delim } => {
                let (o, c) = match delim {
                    Delimiter::Brace => ('{', '}'),
                    Delimiter::Bang => ('!', '!'),
                    Delimiter::Percent => ('%', '%'),
                    Delimiter::Quest => ('?', '?'),
                    Delimiter::Hash => ('#', '#'),
                };
                back.push('{');
                back.push(o);
                back.extend(&chars[start..end]);
                back.push(c);
                back.push('}');
            },
        }
    }
    assert_eq!(back, src);
}

#[test]
fn delimiter_bytes() {
    assert_eq!(Delimiter::match_open(b'{'), Some(Delimiter::Brace));
    assert_eq!(Delimiter::match_open(b'%'), Some(Delimiter::Percent));
    assert_eq!(Delimiter::match_open(b'}'), None);
    assert_eq!(Delimiter::match_close(b'}'), Some(Delimiter::Brace));
    assert_eq!(Delimiter::match_close(b'?'), Some(Delimiter::Quest));
    assert_eq!(Delimiter::match_close(b'{'), None);
    assert_eq!(Delimiter::Bang.name(), "!");
}

#[test]
fn parser_stores_statics_and_passes_expressions() {
    // "Hello " is stored, the expression is handed on
    assert_eq!(statics("Hello {{ name.to_uppercase() }}"), vec!["Hello "]);
}

/// Records the calls it receives.
#[derive(Default)]
struct Recorder {
    calls: Vec<String>,
}

impl Visitor for Recorder {
    type Output = Vec<String>;

    fn visit_static(&mut self, source: &str) -> Result<(), ParseError> {
        self.calls.push(format!("static {source:?}"));
        Ok(())
    }

    fn visit_expr(&mut self, source: &str, delim: Delimiter) -> Result<(), ParseError> {
        self.calls.push(format!("expr {source:?} {delim:?}"));
        Ok(())
    }

    fn finish(mut self) -> Result<Vec<String>, ParseError> {
        self.calls.push("finish".to_string());
        Ok(self.calls)
    }
}

#[test]
fn parser_hands_each_piece_in_order() {
    let calls = Parser::new("Hello {{ name.to_uppercase() }}", Recorder::default()).parse().unwrap();
    assert_eq!(calls, vec!["static \"Hello \"", "expr \"name.to_uppercase()\" Brace", "finish"]);
    let calls = Parser::new("ab", Recorder::default()).parse().unwrap();
    assert_eq!(calls, vec!["static \"ab\"", "finish"]);
    let calls = Parser::new("{%x%}{? \ty ?}z", Recorder::default()).parse().unwrap();
    assert_eq!(calls, vec!["expr \"x\" Percent", "expr \"y\" Quest", "static \"z\"", "finish"]);
    assert!(Parser::new("a {{ b", Recorder::default()).parse().is_err());
}
