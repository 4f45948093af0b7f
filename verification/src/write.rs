//! The [`TemplWrite`] trait: where rendered text goes.
use vstd::prelude::*;
use vstd::utf8::encode_utf8;
use crate::error::Error;
use crate::text::{chars_of, slice};

verus! {

broadcast use vstd::string::group_string_axioms;

/// Analogous to `std::fmt::Write` without the `Formatter`.
pub trait TemplWrite {
    /// Whether the writer keeps track of what it was written: by default it
    /// does not.
    open spec fn tracks_writes() -> bool {
        false
    }

    /// The bytes written so far, for a writer that keeps track of them.
    open spec fn written(&self) -> Seq<u8> {
        Seq::empty()
    }

    /// Whether every write succeeds: by default that is not known.
    open spec fn infallible() -> bool {
        false
    }

    /// Writes `value`.
    fn write_str(&mut self, value: &str) -> (r: Result<(), Error>)
        ensures
            Self::tracks_writes() && r is Ok ==> (*final(self)).written() == (*old(self)).written() + encode_utf8(value@),
            Self::infallible() ==> r is Ok,
    ;
}

/// The UTF-8 encoding of `a + b` is the encoding of `a` followed by that of `b`.
pub proof fn lemma_encode_concat(a: Seq<char>, b: Seq<char>)
    ensures
        encode_utf8(a + b) == encode_utf8(a) + encode_utf8(b),
    decreases a.len(),
{
    if a.len() > 0 {
        assert((a + b).drop_first() =~= a.drop_first() + b);
        lemma_encode_concat(a.drop_first(), b);
        assert((a + b)[0] == a[0]);
    } else {
        assert(a + b =~= b);
    }
}

impl<'a, R: TemplWrite + ?Sized> TemplWrite for &'a mut R {
    open spec fn tracks_writes() -> bool {
        R::tracks_writes()
    }

    open spec fn written(&self) -> Seq<u8> {
        (**self).written()
    }

    open spec fn infallible() -> bool {
        R::infallible()
    }

    fn write_str(&mut self, value: &str) -> (r: Result<(), Error>) {
        (**self).write_str(value)
    }
}

impl TemplWrite for String {
    open spec fn tracks_writes() -> bool {
        true
    }

    open spec fn infallible() -> bool {
        true
    }

    open spec fn written(&self) -> Seq<u8> {
        encode_utf8(self@)
    }

    fn write_str(&mut self, value: &str) -> (r: Result<(), Error>)
        ensures
            r is Ok,
            final(self)@ == old(self)@ + value@,
    {
        self.append(value);
        proof {
            lemma_encode_concat(old(self)@, value@);
        }
        Ok(())
    }
}

impl TemplWrite for Vec<u8> {
    open spec fn tracks_writes() -> bool {
        true
    }

    open spec fn infallible() -> bool {
        true
    }

    open spec fn written(&self) -> Seq<u8> {
        self@
    }

    fn write_str(&mut self, value: &str) -> (r: Result<(), Error>)
        ensures
            r is Ok,
    {
        let bytes = value.as_bytes();
        self.extend_from_slice(bytes);
        assert(self@ =~= old(self)@ + encode_utf8(value@));
        Ok(())
    }
}

/// `bytes::BytesMut`, a growable byte buffer.
#[verifier::external_type_specification]
#[verifier::external_body]
pub struct ExBytesMut(bytes::BytesMut);

/// The bytes that a `bytes::BytesMut` holds.
pub uninterp spec fn bytes_of(b: bytes::BytesMut) -> Seq<u8>;

/// `bytes::BufMut::put_slice` on a `bytes::BytesMut`: appends `src` to the
/// bytes of `b`, growing it as needed.
#[verifier::external_body]
fn put_slice(b: &mut bytes::BytesMut, src: &[u8])
    ensures
        bytes_of(*final(b)) == bytes_of(*old(b)) + src@,
{
    bytes::BufMut::put_slice(b, src)
}

impl TemplWrite for bytes::BytesMut {
    open spec fn tracks_writes() -> bool {
        true
    }

    open spec fn infallible() -> bool {
        true
    }

    open spec fn written(&self) -> Seq<u8> {
        bytes_of(*self)
    }

    fn write_str(&mut self, value: &str) -> (r: Result<(), Error>)
        ensures
            r is Ok,
    {
        put_slice(self, value.as_bytes());
        Ok(())
    }
}

/// The escaped form of character `c`, after the OWASP recommendation.
pub open spec fn escape_char(c: char) -> Seq<char> {
    if c == '&' {
        seq!['&', 'a', 'm', 'p']
    } else if c == '<' {
        seq!['&', 'l', 't']
    } else if c == '>' {
        seq!['&', 'g', 't']
    } else if c == '"' {
        seq!['&', 'q', 'u', 'o', 't']
    } else if c == '\'' {
        seq!['&', '#', 'x', '2', '7']
    } else {
        seq![c]
    }
}

/// Whether character `c` is escaped.
pub open spec fn is_special(c: char) -> bool {
    c == '&' || c == '<' || c == '>' || c == '"' || c == '\''
}

/// The escaped form of `s`: each character escaped in turn.
pub open spec fn escape(s: Seq<char>) -> Seq<char>
    decreases s.len(),
{
    if s.len() == 0 {
        seq![]
    } else {
        escape(s.drop_last()) + escape_char(s.last())
    }
}

pub proof fn lemma_escape_concat(a: Seq<char>, b: Seq<char>)
    ensures
        escape(a + b) == escape(a) + escape(b),
    decreases b.len(),
{
    if b.len() == 0 {
        assert(a + b =~= a);
    } else {
        assert((a + b).drop_last() =~= a + b.drop_last());
        lemma_escape_concat(a, b.drop_last());
        assert((a + b).last() == b.last());
    }
}

/// Text without special characters is its own escaped form.
pub proof fn lemma_escape_plain(s: Seq<char>)
    requires
        forall|k: int| 0 <= k < s.len() ==> !is_special(#[trigger] s[k]),
    ensures
        escape(s) == s,
    decreases s.len(),
{
    if s.len() > 0 {
        lemma_escape_plain(s.drop_last());
        assert(s.drop_last().push(s.last()) =~= s);
    }
}

/// A character that may not appear in escaped text: `<`, `>`, `"` or `'`.
pub open spec fn is_unsafe(c: char) -> bool {
    c == '<' || c == '>' || c == '"' || c == '\''
}

/// Escaped text is safe inside HTML text and quoted attribute values: it
/// holds no `<`, `>`, `"` or `'`.
pub proof fn law_escape_safe(s: Seq<char>)
    ensures
        forall|k: int| 0 <= k < escape(s).len() ==> !is_unsafe(#[trigger] escape(s)[k]),
    decreases s.len(),
{
    if s.len() > 0 {
        law_escape_safe(s.drop_last());
        let a = escape(s.drop_last());
        let b = escape_char(s.last());
        assert forall|k: int| 0 <= k < escape(s).len() implies !is_unsafe(#[trigger] escape(s)[k]) by {
            if k < a.len() {
                assert(escape(s)[k] == a[k]);
            } else {
                assert(escape(s)[k] == b[k - a.len()]);
            }
        }
    }
}

/// The escaped form of special character `c`, if it is one.
fn escaped_of(c: char) -> (r: Option<&'static str>)
    ensures
        match r {
            Some(e) => is_special(c) && e@ == escape_char(c),
            None => !is_special(c),
        },
{
    proof {
        reveal_strlit("&amp");
        reveal_strlit("&lt");
        reveal_strlit("&gt");
        reveal_strlit("&quot");
        reveal_strlit("&#x27");
    }
    if c == '&' {
        Some("&amp")
    } else if c == '<' {
        Some("&lt")
    } else if c == '>' {
        Some("&gt")
    } else if c == '"' {
        Some("&quot")
    } else if c == '\'' {
        Some("&#x27")
    } else {
        None
    }
}

/// Wrap [`TemplWrite`] to escape input.
///
/// escape based on [OWASP recommendation][1]
///
/// [1]: <https://cheatsheetseries.owasp.org/cheatsheets/Cross_Site_Scripting_Prevention_Cheat_Sheet.html>
pub struct Escape<W>(pub W);

impl<W: TemplWrite> TemplWrite for Escape<W> {
    /// Escaping fails only where the wrapped writer does.
    open spec fn infallible() -> bool {
        W::infallible()
    }

    /// Writes `value` to the wrapped writer, escaping `&`, `<`, `>`, `"` and
    /// `'`: the text between special characters is written as it is, each
    /// special character as its escaped form.
    fn write_str(&mut self, value: &str) -> (r: Result<(), Error>)
        ensures
            W::tracks_writes() && r is Ok ==> final(self).0.written() == old(self).0.written()
                + encode_utf8(escape(value@)),
    {
        let chars = chars_of(value);
        let len = chars.len();
        let mut latest: usize = 0;
        let mut i: usize = 0;
        assert(value@.take(0) =~= Seq::<char>::empty());
        proof {
            assert(escape(Seq::<char>::empty()) =~= Seq::<char>::empty());
            assert(encode_utf8(Seq::<char>::empty()) =~= Seq::<u8>::empty());
            assert(old(self).0.written() + Seq::<u8>::empty() =~= old(self).0.written());
        }
        while i < len
            invariant
                chars@ == value@,
                len == value@.len(),
                latest <= i <= len,
                forall|k: int| latest <= k < i ==> !is_special(#[trigger] value@[k]),
                W::tracks_writes() ==> self.0.written() == old(self).0.written()
                    + encode_utf8(escape(value@.take(latest as int))),
            decreases len - i,
        {
            match escaped_of(chars[i]) {
                Some(escaped) => {
                    let plain = slice(value, latest, i);
                    self.0.write_str(plain)?;
                    self.0.write_str(escaped)?;
                    proof {
                        let head = value@.take(latest as int);
                        lemma_escape_plain(plain@);
                        assert(value@.take(i + 1) =~= head + plain@ + seq![value@[i as int]]);
                        lemma_escape_concat(head + plain@, seq![value@[i as int]]);
                        lemma_escape_concat(head, plain@);
                        assert(seq![value@[i as int]].drop_last() =~= Seq::<char>::empty());
                        assert(escape(Seq::<char>::empty()) =~= Seq::<char>::empty());
                        assert(seq![value@[i as int]].last() == value@[i as int]);
                        assert(escape(seq![value@[i as int]]) =~= escape_char(value@[i as int]));
                        lemma_encode_concat(escape(head), plain@);
                        lemma_encode_concat(escape(head) + plain@, escaped@);
                    }
                    latest = i + 1;
                },
                None => {},
            }
            i = i + 1;
        }
        if latest < len {
            let rest = slice(value, latest, len);
            self.0.write_str(rest)?;
            proof {
                let head = value@.take(latest as int);
                lemma_escape_plain(rest@);
                assert(value@ =~= head + rest@);
                lemma_escape_concat(head, rest@);
                lemma_encode_concat(escape(head), rest@);
            }
        } else {
            assert(value@.take(latest as int) =~= value@);
        }
        Ok(())
    }
}

} // verus!
