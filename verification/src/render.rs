//! The [`Template`] trait: a value that renders as a template.
use vstd::prelude::*;
use vstd::utf8::{encode_utf8, encode_utf8_decode_utf8};
use crate::error::Error;
use crate::write::TemplWrite;

verus! {

/// `String::with_capacity`: an empty string with room for `capacity` bytes.
#[verifier::external_body]
fn string_with_capacity(capacity: usize) -> (r: String)
    ensures
        r@ == Seq::<char>::empty(),
{
    String::with_capacity(capacity)
}

/// The capacity to reserve for a size hint: its upper bound, else its lower
/// bound.
pub open spec fn hint_capacity(hint: (usize, Option<usize>)) -> usize {
    match hint.1 {
        Some(max) => max,
        None => hint.0,
    }
}

fn capacity_of(hint: (usize, Option<usize>)) -> (r: usize)
    ensures
        r == hint_capacity(hint),
{
    match hint.1 {
        Some(max) => max,
        None => hint.0,
    }
}

/// A template renderer.
///
/// Implementations are usually written by the derive macro.
pub trait Template {
    /// Whether the text the template renders as is known: by default it is
    /// not.
    open spec fn renders_text() -> bool {
        false
    }

    /// The text the template renders as, when it is known.
    open spec fn text(&self) -> Seq<char> {
        seq![]
    }

    /// The text block `block` renders as, when it is known and the template
    /// renders that block.
    open spec fn block_text(&self, block: Seq<char>) -> Option<Seq<char>> {
        None
    }

    /// Renders the template into `writer`.
    fn render_into<W: TemplWrite>(&self, writer: &mut W) -> (r: Result<(), Error>)
        ensures
            Self::renders_text() && W::tracks_writes() && r is Ok ==> (*final(writer)).written()
                == (*old(writer)).written() + encode_utf8(self.text()),
            Self::renders_text() && W::infallible() ==> r is Ok,
    ;

    /// Renders block `block` into `writer`; by default there is no block.
    fn render_block_into<W: TemplWrite>(&self, block: &str, writer: &mut W) -> (r: Result<(), Error>)
        ensures
            Self::renders_text() && W::tracks_writes() && r is Ok ==> (self.block_text(block@) matches Some(t)
                && (*final(writer)).written() == (*old(writer)).written() + encode_utf8(t)),
        default_ensures
            r matches Err(Error::NoBlock),
    {
        Err(Error::NoBlock)
    }

    /// Whether block `block` can be rendered; by default no block can.
    fn contains_block(&self, block: &str) -> (r: bool)
        ensures
            Self::renders_text() && r ==> self.block_text(block@) is Some,
        default_ensures
            !r,
    {
        false
    }

    /// Lower and upper bounds of the rendered length; by default unknown.
    /// The lower bound is no more than the length of the rendered text,
    /// when that text is known; the upper bound is a guess.
    fn size_hint(&self) -> (r: (usize, Option<usize>))
        ensures
            Self::renders_text() ==> r.0 <= encode_utf8(self.text()).len(),
        default_ensures
            r == (0usize, None::<usize>),
    {
        (0, None)
    }

    /// Lower and upper bounds of the rendered length of block `block`; by
    /// default unknown. The lower bound is no more than the length of the
    /// block's text, when that text is known.
    fn size_hint_block(&self, block: &str) -> (r: (usize, Option<usize>))
        ensures
            Self::renders_text() ==> (self.block_text(block@) matches Some(t) ==> r.0 <= encode_utf8(t).len()),
        default_ensures
            r == (0usize, None::<usize>),
    {
        (0, None)
    }

    /// Renders the template into a new string, sized by the size hint.
    fn render(&self) -> (r: Result<String, Error>)
        ensures
            Self::renders_text() ==> (r matches Ok(s) && s@ == self.text()),
    {
        let hint = self.size_hint();
        let mut buffer = string_with_capacity(capacity_of(hint));
        self.render_into(&mut buffer)?;
        proof {
            assert(encode_utf8(Seq::<char>::empty()) =~= Seq::<u8>::empty());
            assert(Seq::<u8>::empty() + encode_utf8(self.text()) =~= encode_utf8(self.text()));
            encode_utf8_decode_utf8(buffer@);
            encode_utf8_decode_utf8(self.text());
        }
        Ok(buffer)
    }

    /// Renders block `block` into a new string, sized by its size hint;
    /// [`Error::NoBlock`] when the template does not render it.
    fn render_block(&self, block: &str) -> (r: Result<String, Error>)
        ensures
            Self::renders_text() ==> (r matches Ok(s) ==> self.block_text(block@) == Some(s@)),
            Self::renders_text() && self.block_text(block@) is None ==> r matches Err(Error::NoBlock),
    {
        if !self.contains_block(block) {
            return Err(Error::NoBlock);
        }
        let hint = self.size_hint_block(block);
        let mut buffer = string_with_capacity(capacity_of(hint));
        self.render_block_into(block, &mut buffer)?;
        proof {
            if Self::renders_text() {
                let t = self.block_text(block@)->0;
                assert(encode_utf8(Seq::<char>::empty()) =~= Seq::<u8>::empty());
                assert(Seq::<u8>::empty() + encode_utf8(t) =~= encode_utf8(t));
                encode_utf8_decode_utf8(buffer@);
                encode_utf8_decode_utf8(t);
            }
        }
        Ok(buffer)
    }
}

} // verus!
