//! Expression delimiters.
use vstd::prelude::*;

verus! {

/// An expression delimiter.
///
/// Opening and closing delimiter must be equal.
#[derive(Clone, Copy, Debug, PartialEq, Eq, Structural)]
pub enum Delimiter {
    /// `{{ }}` escaped render.
    Brace,
    /// `{! !}` unescaped render.
    Bang,
    /// `{% %}` escaped render using `std::fmt::Display`.
    Percent,
    /// `{? ?}` escaped render using `std::fmt::Debug`.
    Quest,
    /// `{# #}` unused, same as [`Delimiter::Brace`].
    Hash,
}

/// The delimiter that byte `ch` opens, if any.
pub open spec fn spec_open_delim(ch: u8) -> Option<Delimiter> {
    if ch == 123 {
        Some(Delimiter::Brace)
    } else if ch == 33 {
        Some(Delimiter::Bang)
    } else if ch == 37 {
        Some(Delimiter::Percent)
    } else if ch == 63 {
        Some(Delimiter::Quest)
    } else if ch == 35 {
        Some(Delimiter::Hash)
    } else {
        None
    }
}

/// The delimiter that byte `ch` closes, if any.
pub open spec fn spec_close_delim(ch: u8) -> Option<Delimiter> {
    if ch == 125 {
        Some(Delimiter::Brace)
    } else if ch == 33 {
        Some(Delimiter::Bang)
    } else if ch == 37 {
        Some(Delimiter::Percent)
    } else if ch == 63 {
        Some(Delimiter::Quest)
    } else if ch == 35 {
        Some(Delimiter::Hash)
    } else {
        None
    }
}

/// The name of a delimiter in messages.
pub open spec fn delim_name(d: Delimiter) -> Seq<char> {
    match d {
        Delimiter::Brace => "brace"@,
        Delimiter::Bang => "!"@,
        Delimiter::Percent => "%"@,
        Delimiter::Quest => "?"@,
        Delimiter::Hash => "#"@,
    }
}

impl Delimiter {
    /// Returns [`Some`] if given byte considered as opening delimiter.
    pub fn match_open(ch: u8) -> (r: Option<Self>)
        ensures
            r == spec_open_delim(ch),
    {
        match ch {
            123u8 => Some(Self::Brace),
            33u8 => Some(Self::Bang),
            37u8 => Some(Self::Percent),
            63u8 => Some(Self::Quest),
            35u8 => Some(Self::Hash),
            _ => None,
        }
    }

    /// Returns [`Some`] if given byte considered as closing delimiter.
    pub fn match_close(ch: u8) -> (r: Option<Self>)
        ensures
            r == spec_close_delim(ch),
    {
        match ch {
            125u8 => Some(Self::Brace),
            33u8 => Some(Self::Bang),
            37u8 => Some(Self::Percent),
            63u8 => Some(Self::Quest),
            35u8 => Some(Self::Hash),
            _ => None,
        }
    }

    /// The name shown in error messages.
    pub fn name(&self) -> (r: &'static str)
        ensures
            r@ == delim_name(*self),
    {
        match self {
            Self::Brace => "brace",
            Self::Bang => "!",
            Self::Percent => "%",
            Self::Quest => "?",
            Self::Hash => "#",
        }
    }
}

} // verus!
