//! The [`TemplDisplay`] trait: values that render as text.
use vstd::prelude::*;
use vstd::utf8::encode_utf8;
use crate::error::Error;
use crate::text::{decimal, owned, push_char};
use crate::write::TemplWrite;

verus! {

/// A value that renders as text.
pub trait TemplDisplay {
    /// Whether the text this value renders as is known: by default it is
    /// not.
    open spec fn has_text() -> bool {
        false
    }

    /// The text this value renders as, when it is known.
    open spec fn text(&self) -> Seq<char> {
        seq![]
    }

    /// Writes the text of this value to `f`. A value whose text is known
    /// is written whole to a writer whose writes all succeed.
    fn display<W: TemplWrite>(&self, f: &mut W) -> (r: Result<(), Error>)
        ensures
            Self::has_text() && W::tracks_writes() && r is Ok ==> (*final(f)).written() == (*old(f)).written()
                + encode_utf8(self.text()),
            Self::has_text() && W::infallible() ==> r is Ok,
    ;
}

impl TemplDisplay for str {
    open spec fn has_text() -> bool {
        true
    }

    open spec fn text(&self) -> Seq<char> {
        self@
    }

    fn display<W: TemplWrite>(&self, f: &mut W) -> (r: Result<(), Error>) {
        f.write_str(self)
    }
}

impl TemplDisplay for String {
    open spec fn has_text() -> bool {
        true
    }

    open spec fn text(&self) -> Seq<char> {
        self@
    }

    fn display<W: TemplWrite>(&self, f: &mut W) -> (r: Result<(), Error>) {
        f.write_str(self.as_str())
    }
}

impl TemplDisplay for char {
    open spec fn has_text() -> bool {
        true
    }

    open spec fn text(&self) -> Seq<char> {
        seq![*self]
    }

    fn display<W: TemplWrite>(&self, f: &mut W) -> (r: Result<(), Error>) {
        let mut s = String::new();
        push_char(&mut s, *self);
        assert(s@ =~= seq![*self]);
        f.write_str(s.as_str())
    }
}

impl<T: TemplDisplay> TemplDisplay for Option<T> {
    open spec fn has_text() -> bool {
        T::has_text()
    }

    open spec fn text(&self) -> Seq<char> {
        match self {
            Some(t) => t.text(),
            None => seq![],
        }
    }

    /// Writes the value if there is one, nothing otherwise.
    fn display<W: TemplWrite>(&self, f: &mut W) -> (r: Result<(), Error>) {
        match self {
            Some(me) => me.display(f),
            None => {
                proof {
                    assert(encode_utf8(Seq::<char>::empty()) =~= Seq::<u8>::empty());
                    assert((*old(f)).written() + Seq::<u8>::empty() =~= (*old(f)).written());
                }
                Ok(())
            },
        }
    }
}

impl<'a, T: TemplDisplay + ?Sized> TemplDisplay for &'a T {
    open spec fn has_text() -> bool {
        T::has_text()
    }

    open spec fn text(&self) -> Seq<char> {
        (**self).text()
    }

    fn display<W: TemplWrite>(&self, f: &mut W) -> (r: Result<(), Error>) {
        (**self).display(f)
    }
}

impl<T: TemplDisplay> TemplDisplay for Box<T> {
    open spec fn has_text() -> bool {
        T::has_text()
    }

    open spec fn text(&self) -> Seq<char> {
        (**self).text()
    }

    fn display<W: TemplWrite>(&self, f: &mut W) -> (r: Result<(), Error>) {
        (**self).display(f)
    }
}

/// `itoa::Buffer::format` on a new `itoa::Buffer`: the decimal form of `n`.
#[verifier::external_body]
fn format_u128(n: u128) -> (r: String)
    ensures
        r@ == decimal(n as nat),
{
    let mut buffer = itoa::Buffer::new();
    String::from(buffer.format(n))
}

/// The decimal form of integer `n`, with a leading `-` when it is negative.
pub open spec fn signed_decimal(n: int) -> Seq<char> {
    if n < 0 {
        seq!['-'] + decimal((-n) as nat)
    } else {
        decimal(n as nat)
    }
}

/// The decimal form of `n`.
fn format_i128(n: i128) -> (r: String)
    ensures
        r@ == signed_decimal(n as int),
{
    if n < 0 {
        let m: u128 = ((-(n + 1)) as u128) + 1;
        let digits = format_u128(m);
        let mut s = String::new();
        push_char(&mut s, '-');
        s.append(digits.as_str());
        s
    } else {
        format_u128(n as u128)
    }
}

impl TemplDisplay for u8 {
    open spec fn has_text() -> bool {
        true
    }

    open spec fn text(&self) -> Seq<char> {
        decimal(*self as nat)
    }

    fn display<W: TemplWrite>(&self, f: &mut W) -> (r: Result<(), Error>) {
        let s = format_u128(*self as u128);
        f.write_str(s.as_str())
    }
}

impl TemplDisplay for u16 {
    open spec fn has_text() -> bool {
        true
    }

    open spec fn text(&self) -> Seq<char> {
        decimal(*self as nat)
    }

    fn display<W: TemplWrite>(&self, f: &mut W) -> (r: Result<(), Error>) {
        let s = format_u128(*self as u128);
        f.write_str(s.as_str())
    }
}

impl TemplDisplay for u32 {
    open spec fn has_text() -> bool {
        true
    }

    open spec fn text(&self) -> Seq<char> {
        decimal(*self as nat)
    }

    fn display<W: TemplWrite>(&self, f: &mut W) -> (r: Result<(), Error>) {
        let s = format_u128(*self as u128);
        f.write_str(s.as_str())
    }
}

impl TemplDisplay for u64 {
    open spec fn has_text() -> bool {
        true
    }

    open spec fn text(&self) -> Seq<char> {
        decimal(*self as nat)
    }

    fn display<W: TemplWrite>(&self, f: &mut W) -> (r: Result<(), Error>) {
        let s = format_u128(*self as u128);
        f.write_str(s.as_str())
    }
}

impl TemplDisplay for u128 {
    open spec fn has_text() -> bool {
        true
    }

    open spec fn text(&self) -> Seq<char> {
        decimal(*self as nat)
    }

    fn display<W: TemplWrite>(&self, f: &mut W) -> (r: Result<(), Error>) {
        let s = format_u128(*self as u128);
        f.write_str(s.as_str())
    }
}

impl TemplDisplay for usize {
    open spec fn has_text() -> bool {
        true
    }

    open spec fn text(&self) -> Seq<char> {
        decimal(*self as nat)
    }

    fn display<W: TemplWrite>(&self, f: &mut W) -> (r: Result<(), Error>) {
        let s = format_u128(*self as u128);
        f.write_str(s.as_str())
    }
}

impl TemplDisplay for i8 {
    open spec fn has_text() -> bool {
        true
    }

    open spec fn text(&self) -> Seq<char> {
        signed_decimal(*self as int)
    }

    fn display<W: TemplWrite>(&self, f: &mut W) -> (r: Result<(), Error>) {
        let s = format_i128(*self as i128);
        f.write_str(s.as_str())
    }
}

impl TemplDisplay for i16 {
    open spec fn has_text() -> bool {
        true
    }

    open spec fn text(&self) -> Seq<char> {
        signed_decimal(*self as int)
    }

    fn display<W: TemplWrite>(&self, f: &mut W) -> (r: Result<(), Error>) {
        let s = format_i128(*self as i128);
        f.write_str(s.as_str())
    }
}

impl TemplDisplay for i32 {
    open spec fn has_text() -> bool {
        true
    }

    open spec fn text(&self) -> Seq<char> {
        signed_decimal(*self as int)
    }

    fn display<W: TemplWrite>(&self, f: &mut W) -> (r: Result<(), Error>) {
        let s = format_i128(*self as i128);
        f.write_str(s.as_str())
    }
}

impl TemplDisplay for i64 {
    open spec fn has_text() -> bool {
        true
    }

    open spec fn text(&self) -> Seq<char> {
        signed_decimal(*self as int)
    }

    fn display<W: TemplWrite>(&self, f: &mut W) -> (r: Result<(), Error>) {
        let s = format_i128(*self as i128);
        f.write_str(s.as_str())
    }
}

impl TemplDisplay for i128 {
    open spec fn has_text() -> bool {
        true
    }

    open spec fn text(&self) -> Seq<char> {
        signed_decimal(*self as int)
    }

    fn display<W: TemplWrite>(&self, f: &mut W) -> (r: Result<(), Error>) {
        let s = format_i128(*self as i128);
        f.write_str(s.as_str())
    }
}

impl TemplDisplay for isize {
    open spec fn has_text() -> bool {
        true
    }

    open spec fn text(&self) -> Seq<char> {
        signed_decimal(*self as int)
    }

    fn display<W: TemplWrite>(&self, f: &mut W) -> (r: Result<(), Error>) {
        let s = format_i128(*self as i128);
        f.write_str(s.as_str())
    }
}

} // verus!
