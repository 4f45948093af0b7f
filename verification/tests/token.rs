use tour::token::{Token, Tokenizer};

fn expect(tokens: &mut Tokenizer, src: &str, kind: &str, text: &str) {
    let next = tokens.next().unwrap();
    let ok = match (&next, kind) {
        (Token::Static(_), "Static") => true,
        (Token::Ident(_), "Ident") => true,
        (Token::Punct(_), "Punct") => true,
        (Token::LitStr(_), "LitStr") => true,
        (Token::LitNum(_), "LitNum") => true,
        _ => false,
    };
    assert!(ok, "expected {kind}, found {next:?}");
    assert_eq!(next.span().eval(src), text);
}

#[test]
fn token_basic() {
    let src = "Token {{ expr { object } }} once { ignored }";
    let mut tokens = Tokenizer::new(src);

    expect(&mut tokens, src, "Static", "Token ");
    expect(&mut tokens, src, "Ident", "expr");
    expect(&mut tokens, src, "Punct", "{");
    expect(&mut tokens, src, "Ident", "object");
    expect(&mut tokens, src, "Punct", "}");
    expect(&mut tokens, src, "Static", " once { ignored }");
    assert!(matches!(tokens.next(), None));
}

#[test]
fn lit_str() {
    let src = r#"Token {{ include "layout.html" }}"#;
    let mut tokens = Tokenizer::new(src);

    expect(&mut tokens, src, "Static", "Token ");
    expect(&mut tokens, src, "Ident", "include");
    expect(&mut tokens, src, "LitStr", "layout.html");
    assert!(matches!(tokens.next(), None));
}

#[test]
fn token_empty_expr() {
    let src = "Token {{}} once {{  \n }}";
    let mut tokens = Tokenizer::new(src);

    expect(&mut tokens, src, "Static", "Token ");
    expect(&mut tokens, src, "Static", " once ");
    assert!(matches!(tokens.next(), None));
}

#[test]
fn token_empty_static() {
    let src = "Token {{ expr1 }}{{ expr2 }}";
    let mut tokens = Tokenizer::new(src);

    expect(&mut tokens, src, "Static", "Token ");
    expect(&mut tokens, src, "Ident", "expr1");
    expect(&mut tokens, src, "Ident", "expr2");
    assert!(matches!(tokens.next(), None));
}

#[test]
fn token_numbers_and_spans() {
    let src = "{{ a 12 }}";
    let mut tokens = Tokenizer::new(src);
    expect(&mut tokens, src, "Ident", "a");
    expect(&mut tokens, src, "LitNum", "12");
    assert!(tokens.next().is_none());
}

#[test]
fn token_spans_are_byte_offsets() {
    let src = "é {{ ä1 }}x";
    let mut tokens = Tokenizer::new(src);
    let first = tokens.next().unwrap();
    assert!(matches!(first, Token::Static(_)));
    assert_eq!((first.span().start, first.span().end), (0, 3));
    assert_eq!(first.span().eval(src), "é ");
    // a non-ASCII byte inside an expression is skipped
    let num = tokens.next().unwrap();
    assert!(matches!(num, Token::LitNum(_)));
    assert_eq!((num.span().start, num.span().end), (8, 9));
    let last = tokens.next().unwrap();
    assert_eq!(last.span().eval(src), "x");
    assert!(tokens.next().is_none());
}
