use tour::tokenizer::{Token, Tokenizer};

#[test]
fn tokenizer_basic() {
    let src = "Token {{ expr { object } }} once { ignored }";
    let mut tokenizer = Tokenizer::new(src);
    assert_eq!(tokenizer.next(), Some(Token::Static("Token ")));
    assert_eq!(tokenizer.next(), Some(Token::Expr("expr { object }")));
    assert_eq!(tokenizer.next(), Some(Token::Static(" once { ignored }")));
    assert_eq!(tokenizer.next(), None);
}

#[test]
fn tokenizer_empty_expr() {
    let src = "Token {{}} once {{  \n }}";
    let mut tokenizer = Tokenizer::new(src);
    assert_eq!(tokenizer.next(), Some(Token::Static("Token ")));
    assert_eq!(tokenizer.next(), Some(Token::Static(" once ")));
    assert_eq!(tokenizer.next(), None);
}

#[test]
fn tokenizer_empty_static() {
    let src = "Token {{ expr1 }}{{ expr2 }}";
    let mut tokenizer = Tokenizer::new(src);
    assert_eq!(tokenizer.next(), Some(Token::Static("Token ")));
    assert_eq!(tokenizer.next(), Some(Token::Expr("expr1")));
    assert_eq!(tokenizer.next(), Some(Token::Expr("expr2")));
    assert_eq!(tokenizer.next(), None);
}
