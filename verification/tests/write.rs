use tour::display::TemplDisplay;
use tour::error::{Error, IoKind};
use tour::write::{Escape, TemplWrite};

#[test]
fn write_to_string() {
    let mut s = String::from("a");
    s.write_str("bc").unwrap();
    assert_eq!(s, "abc");
}

#[test]
fn write_to_bytes() {
    let mut v: Vec<u8> = vec![1];
    v.write_str("é").unwrap();
    assert_eq!(v, vec![1, 0xC3, 0xA9]);
}

#[test]
fn write_to_bytes_mut() {
    let mut b = bytes::BytesMut::new();
    b.write_str("ab").unwrap();
    b.write_str("c").unwrap();
    assert_eq!(&b[..], b"abc");
}

#[test]
fn escape_special_characters() {
    let mut s = String::new();
    Escape(&mut s).write_str("<script>alert('x' & \"y\")</script>").unwrap();
    assert_eq!(s, "&ltscript&gtalert(&#x27x&#x27 &amp &quoty&quot)&lt/script&gt");
}

#[test]
fn escape_plain_text_unchanged() {
    let mut s = String::new();
    Escape(&mut s).write_str("plain text, ünïcode").unwrap();
    assert_eq!(s, "plain text, ünïcode");
    Escape(&mut s).write_str("").unwrap();
    assert_eq!(s, "plain text, ünïcode");
}

#[test]
fn escape_output_is_safe() {
    // law: escaped text holds no `<`, `>`, `"` or `'`
    let mut s = String::new();
    Escape(&mut s).write_str("<<>>\"\"''&&").unwrap();
    assert!(!s.contains(['<', '>', '"', '\'']));
    assert_eq!(s, "&lt&lt&gt&gt&quot&quot&#x27&#x27&amp&amp");
}

#[test]
fn escape_into_bytes() {
    let mut v: Vec<u8> = Vec::new();
    Escape(&mut v).write_str("a<b").unwrap();
    assert_eq!(v, b"a&ltb".to_vec());
}

#[test]
fn display_values() {
    let mut s = String::new();
    "str".display(&mut s).unwrap();
    String::from("|String").display(&mut s).unwrap();
    '|'.display(&mut s).unwrap();
    42u8.display(&mut s).unwrap();
    '|'.display(&mut s).unwrap();
    (-7i32).display(&mut s).unwrap();
    '|'.display(&mut s).unwrap();
    i128::MIN.display(&mut s).unwrap();
    '|'.display(&mut s).unwrap();
    u128::MAX.display(&mut s).unwrap();
    '|'.display(&mut s).unwrap();
    0usize.display(&mut s).unwrap();
    Some(5i64).display(&mut s).unwrap();
    None::<u16>.display(&mut s).unwrap();
    Box::new(9isize).display(&mut s).unwrap();
    assert_eq!(
        s,
        "str|String|42|-7|-170141183460469231731687303715884105728|340282366920938463463374607431768211455|059"
    );
}

#[test]
fn display_escaped() {
    let mut s = String::new();
    "<b>".display(&mut Escape(&mut s)).unwrap();
    assert_eq!(s, "&ltb&gt");
}

#[test]
fn display_more_integers() {
    let mut s = String::new();
    1u16.display(&mut s).unwrap();
    2u32.display(&mut s).unwrap();
    3u64.display(&mut s).unwrap();
    (-4i8).display(&mut s).unwrap();
    (-5i16).display(&mut s).unwrap();
    (-6i64).display(&mut s).unwrap();
    assert_eq!(s, "123-4-5-6");
}

#[test]
fn error_messages_and_io() {
    let e = Error::NoBlock;
    assert_eq!(e.message(), Some("no such block"));
    assert_eq!(e.into_io().kind(), std::io::ErrorKind::NotFound);
    let e = Error::Parse(tour::parser::ParseError::Generic("bad".to_string()));
    assert_eq!(e.message(), Some("bad"));
    let io = e.into_io();
    assert_eq!(io.kind(), std::io::ErrorKind::InvalidData);
    assert_eq!(io.to_string(), "bad");
    let e = Error::Io(std::io::Error::other("x"));
    assert_eq!(e.message(), None);
    assert_eq!(e.into_io().to_string(), "x");
}

fn write_twice<W: TemplWrite>(mut w: W, value: &str) -> W {
    w.write_str(value).unwrap();
    w.write_str(value).unwrap();
    w
}

#[test]
fn writers_and_values_by_reference() {
    let mut s = String::new();
    write_twice(&mut s, "ab");
    assert_eq!(s, "abab");
    let value: &&String = &&String::from("<i>");
    value.display(&mut Escape(&mut s)).unwrap();
    TemplDisplay::display(&value, &mut s).unwrap();
    assert_eq!(s, "abab&lti&gt<i>");
    let escaped = write_twice(Escape(Vec::new()), "&");
    assert_eq!(escaped.0, b"&amp&amp".to_vec());
}

#[test]
fn errors_from_parse_and_io_errors() {
    let e: Error = tour::parser::ParseError::Generic("bad".to_string()).into();
    assert!(matches!(&e, Error::Parse(p) if p.message() == "bad"));
    let e = Error::from(std::io::Error::other("gone"));
    assert!(matches!(&e, Error::Io(io) if io.to_string() == "gone"));
}

#[test]
fn io_parts_of_errors() {
    let e = Error::Parse(tour::parser::ParseError::Generic("bad".to_string()));
    assert!(matches!(e.io_parts(), Some((IoKind::InvalidData, m)) if m == "bad"));
    assert!(matches!(Error::NoBlock.io_parts(), Some((IoKind::NotFound, m)) if m == "no such block"));
    assert!(Error::Io(std::io::Error::other("x")).io_parts().is_none());
    let io = Error::NoBlock.into_io();
    assert_eq!(io.kind(), std::io::ErrorKind::NotFound);
    assert_eq!(io.to_string(), "no such block");
}
