//! Template source parser: splits a template into static contents and
//! delimited expressions.
use vstd::prelude::*;
use crate::delimiter::{Delimiter, delim_name, spec_close_delim, spec_open_delim};
use crate::text::{ascii_code, ascii_of, chars_of, owned, slice};
use crate::tokenizer::{trim_bounds, trim_range};

verus! {

/// An error that may occur during parsing.
#[derive(Debug)]
pub enum ParseError {
    Generic(String),
}

impl ParseError {
    /// The error message.
    pub fn message(&self) -> (r: &str)
        ensures
            r@ == self.spec_message(),
    {
        match self {
            ParseError::Generic(s) => s.as_str(),
        }
    }

    pub open spec fn spec_message(&self) -> Seq<char> {
        match self {
            ParseError::Generic(s) => s@,
        }
    }
}

/// A piece of template source, as character positions `start..end`.
#[derive(Clone, Copy, Debug, PartialEq, Eq, Structural)]
pub enum Segment {
    /// Static content.
    Static { start: usize, end: usize },
    /// The content of an expression between its delimiters.
    Expr { start: usize, end: usize, delim: Delimiter },
}

/// Why scanning a template source fails.
#[derive(Clone, Copy, Debug, PartialEq, Eq, Structural)]
pub enum ScanError {
    /// An expression opened with `open` was closed with `close`.
    Mismatch { open: Delimiter, close: Delimiter },
    /// The source ends inside an expression.
    Unclosed,
}

/// Scanner state.
#[derive(Clone, Copy, Debug, PartialEq, Eq, Structural)]
pub enum ParseState {
    /// In static content that began at `start`.
    Static { start: usize },
    /// In an expression whose content began at `start`.
    Expr { start: usize, open_delim: Delimiter },
    /// Static content began at `start`, a `{` was seen at `brace`.
    OpenExpr { start: usize, brace: usize },
    /// Expression content began at `start`, a closing delimiter was seen at `brace`.
    CloseExpr { start: usize, brace: usize, open_delim: Delimiter, close_delim: Delimiter },
}

/// The delimiter that character `c` opens, if any.
pub open spec fn char_open(c: char) -> Option<Delimiter> {
    match ascii_code(c) {
        Some(b) => spec_open_delim(b),
        None => None,
    }
}

/// The delimiter that character `c` closes, if any.
pub open spec fn char_close(c: char) -> Option<Delimiter> {
    match ascii_code(c) {
        Some(b) => spec_close_delim(b),
        None => None,
    }
}

pub open spec fn state_rank(st: ParseState) -> int {
    match st {
        ParseState::OpenExpr { .. } | ParseState::CloseExpr { .. } => 1,
        _ => 0,
    }
}

/// `seg` followed by the segments of `r`, if `r` succeeds.
pub open spec fn prepend(seg: Segment, r: Result<Seq<Segment>, ScanError>) -> Result<
    Seq<Segment>,
    ScanError,
> {
    match r {
        Ok(s) => Ok(seq![seg] + s),
        Err(e) => Err(e),
    }
}

/// `start..brace` as static content, followed by `r`; nothing when empty.
pub open spec fn prepend_static(start: usize, brace: usize, r: Result<Seq<Segment>, ScanError>) -> Result<
    Seq<Segment>,
    ScanError,
> {
    if start < brace {
        prepend(Segment::Static { start, end: brace }, r)
    } else {
        r
    }
}

/// What is left when the source ends in state `st`.
pub open spec fn leftover(len: int, st: ParseState) -> Result<Seq<Segment>, ScanError> {
    match st {
        ParseState::Static { start } | ParseState::OpenExpr { start, .. } => if start < len {
            Ok(seq![Segment::Static { start, end: len as usize }])
        } else {
            Ok(seq![])
        },
        _ => Err(ScanError::Unclosed),
    }
}

/// The segments of `src` from position `i` on, in state `st`.
///
/// Static content runs until a `{` followed by an opening delimiter
/// (`{`, `!`, `%`, `?` or `#`); the expression then runs until a closing
/// delimiter followed by `}`, and both delimiters must be the same.
pub open spec fn scan_from(src: Seq<char>, i: int, st: ParseState) -> Result<Seq<Segment>, ScanError>
    decreases src.len() - i, state_rank(st),
{
    if i < 0 || i >= src.len() {
        leftover(src.len() as int, st)
    } else {
        let c = src[i];
        match st {
            ParseState::Static { start } => if c == '{' {
                scan_from(src, i + 1, ParseState::OpenExpr { start, brace: i as usize })
            } else {
                scan_from(src, i + 1, st)
            },
            ParseState::Expr { start, open_delim } => match char_close(c) {
                Some(close_delim) => scan_from(
                    src,
                    i + 1,
                    ParseState::CloseExpr { start, brace: i as usize, open_delim, close_delim },
                ),
                None => scan_from(src, i + 1, st),
            },
            ParseState::OpenExpr { start, brace } => match char_open(c) {
                Some(open_delim) => prepend_static(
                    start,
                    brace,
                    scan_from(src, i + 1, ParseState::Expr { start: (i + 1) as usize, open_delim }),
                ),
                None => scan_from(src, i, ParseState::Static { start }),
            },
            ParseState::CloseExpr { start, brace, open_delim, close_delim } => if c == '}' {
                if open_delim != close_delim {
                    Err(ScanError::Mismatch { open: open_delim, close: close_delim })
                } else {
                    prepend(
                        Segment::Expr { start, end: brace, delim: open_delim },
                        scan_from(src, i + 1, ParseState::Static { start: (i + 1) as usize }),
                    )
                }
            } else {
                scan_from(src, i, ParseState::Expr { start, open_delim })
            },
        }
    }
}

/// The segments of a whole template source.
pub open spec fn spec_scan(src: Seq<char>) -> Result<Seq<Segment>, ScanError> {
    scan_from(src, 0, ParseState::Static { start: 0 })
}

/// `done` followed by what `r` yields.
pub open spec fn after(done: Seq<Segment>, r: Result<Seq<Segment>, ScanError>) -> Result<
    Seq<Segment>,
    ScanError,
> {
    match r {
        Ok(s) => Ok(done + s),
        Err(e) => Err(e),
    }
}

/// The positions held by a state lie within `0..=i`.
pub open spec fn state_wf(st: ParseState, i: int) -> bool {
    match st {
        ParseState::Static { start } => start <= i,
        ParseState::Expr { start, .. } => start <= i,
        ParseState::OpenExpr { start, brace } => start <= brace < i,
        ParseState::CloseExpr { start, brace, .. } => start <= brace < i,
    }
}

/// Every segment lies within `0..len`, with `start <= end`.
pub open spec fn segments_wf(segs: Seq<Segment>, len: int) -> bool {
    forall|k: int|
        0 <= k < segs.len() ==> match #[trigger] segs[k] {
            Segment::Static { start, end } => start <= end <= len,
            Segment::Expr { start, end, .. } => start <= end <= len,
        }
}

/// One step of the scanner on character `c` at position `i`.
///
/// Returns the next state, whether `c` was consumed, and the segment completed,
/// if any; or the error.
pub fn step(st: ParseState, i: usize, c: char) -> (r: Result<(ParseState, bool, Option<Segment>), ScanError>)
    requires
        state_wf(st, i as int),
        i < usize::MAX,
    ensures
        match r {
            Ok((st2, consumed, seg)) => {
                &&& state_wf(st2, if consumed { i + 1 } else { i as int })
                &&& (!consumed ==> state_rank(st2) < state_rank(st))
                &&& match seg {
                    Some(Segment::Static { start, end }) => start <= end <= i,
                    Some(Segment::Expr { start, end, .. }) => start <= end <= i,
                    None => true,
                }
            },
            Err(_) => true,
        },
        forall|src: Seq<char>|
            #![trigger scan_from(src, i as int, st)]
            i < src.len() && src[i as int] == c ==> match r {
                Ok((st2, consumed, seg)) => {
                    let rest = scan_from(src, if consumed { i + 1 } else { i as int }, st2);
                    scan_from(src, i as int, st) == match seg {
                        Some(s) => prepend(s, rest),
                        None => rest,
                    }
                },
                Err(e) => scan_from(src, i as int, st) == Err::<Seq<Segment>, ScanError>(e),
            },
{
    match st {
        ParseState::Static { start } => {
            if c == '{' {
                Ok((ParseState::OpenExpr { start, brace: i }, true, None))
            } else {
                Ok((st, true, None))
            }
        },
        ParseState::Expr { start, open_delim } => {
            let close = match ascii_of(c) {
                Some(b) => Delimiter::match_close(b),
                None => None,
            };
            match close {
                Some(close_delim) => Ok(
                    (ParseState::CloseExpr { start, brace: i, open_delim, close_delim }, true, None),
                ),
                None => Ok((st, true, None)),
            }
        },
        ParseState::OpenExpr { start, brace } => {
            let open = match ascii_of(c) {
                Some(b) => Delimiter::match_open(b),
                None => None,
            };
            match open {
                Some(open_delim) => {
                    let seg = if start < brace {
                        Some(Segment::Static { start, end: brace })
                    } else {
                        None
                    };
                    Ok((ParseState::Expr { start: i + 1, open_delim }, true, seg))
                },
                None => Ok((ParseState::Static { start }, false, None)),
            }
        },
        ParseState::CloseExpr { start, brace, open_delim, close_delim } => {
            if c == '}' {
                if open_delim != close_delim {
                    Err(ScanError::Mismatch { open: open_delim, close: close_delim })
                } else {
                    Ok(
                        (
                            ParseState::Static { start: i + 1 },
                            true,
                            Some(Segment::Expr { start, end: brace, delim: open_delim }),
                        ),
                    )
                }
            } else {
                Ok((ParseState::Expr { start, open_delim }, false, None))
            }
        },
    }
}

/// What is left when the source of length `len` ends in state `st`.
pub fn finish_state(st: ParseState, len: usize) -> (r: Result<Option<Segment>, ScanError>)
    requires
        state_wf(st, len as int),
    ensures
        match r {
            Ok(Some(s)) => leftover(len as int, st) == Ok::<Seq<Segment>, ScanError>(seq![s]) && match s {
                Segment::Static { start, end } => start <= end <= len,
                Segment::Expr { start, end, .. } => start <= end <= len,
            },
            Ok(None) => leftover(len as int, st) == Ok::<Seq<Segment>, ScanError>(seq![]),
            Err(e) => leftover(len as int, st) == Err::<Seq<Segment>, ScanError>(e),
        },
{
    match st {
        ParseState::Static { start } | ParseState::OpenExpr { start, .. } => {
            if start < len {
                Ok(Some(Segment::Static { start, end: len }))
            } else {
                Ok(None)
            }
        },
        _ => Err(ScanError::Unclosed),
    }
}

/// The error message for a scan error.
pub open spec fn scan_error_message(e: ScanError) -> Seq<char> {
    match e {
        ScanError::Mismatch { open, close } => "delimiter shold be same, open `"@ + delim_name(open)
            + "` closed with `"@ + delim_name(close) + "`"@,
        ScanError::Unclosed => "unclosed expression"@,
    }
}

/// Converts a scan error into a [`ParseError`].
pub fn scan_error(e: ScanError) -> (r: ParseError)
    ensures
        r.spec_message() == scan_error_message(e),
{
    match e {
        ScanError::Mismatch { open, close } => {
            let mut s = String::from_str("delimiter shold be same, open `");
            s.append(open.name());
            s.append("` closed with `");
            s.append(close.name());
            s.append("`");
            ParseError::Generic(s)
        },
        ScanError::Unclosed => ParseError::Generic(String::from_str("unclosed expression")),
    }
}

/// Splits `chars` into static contents and expressions.
pub fn scan_chars(chars: &Vec<char>) -> (r: Result<Vec<Segment>, ScanError>)
    requires
        chars@.len() < usize::MAX,
    ensures
        match r {
            Ok(v) => spec_scan(chars@) == Ok::<Seq<Segment>, ScanError>(v@) && segments_wf(
                v@,
                chars@.len() as int,
            ),
            Err(e) => spec_scan(chars@) == Err::<Seq<Segment>, ScanError>(e),
        },
{
    let mut out: Vec<Segment> = Vec::new();
    let mut i: usize = 0;
    let mut st = ParseState::Static { start: 0 };
    let len = chars.len();
    while i < len
        invariant
            len == chars@.len() < usize::MAX,
            i <= len,
            state_wf(st, i as int),
            segments_wf(out@, i as int),
            spec_scan(chars@) == after(out@, scan_from(chars@, i as int, st)),
        decreases len - i, state_rank(st),
    {
        let c = chars[i];
        let ghost old_out = out@;
        let ghost here = scan_from(chars@, i as int, st);
        match step(st, i, c) {
            Ok((st2, consumed, seg)) => {
                let ghost rest = scan_from(chars@, if consumed { i + 1 } else { i as int }, st2);
                match seg {
                    Some(s) => {
                        out.push(s);
                        assert(after(out@, rest) == after(old_out, prepend(s, rest))) by {
                            match rest {
                                Ok(r) => {
                                    assert(old_out.push(s) + r =~= old_out + (seq![s] + r));
                                },
                                Err(_) => {},
                            }
                        }
                    },
                    None => {},
                }
                assert(segments_wf(out@, i as int));
                if consumed {
                    i = i + 1;
                }
                st = st2;
            },
            Err(e) => {
                return Err(e);
            },
        }
    }
    assert(scan_from(chars@, len as int, st) == leftover(len as int, st));
    let ghost old_out = out@;
    match finish_state(st, len) {
        Ok(Some(s)) => {
            out.push(s);
            assert(old_out + seq![s] =~= out@);
            Ok(out)
        },
        Ok(None) => Ok(out),
        Err(e) => Err(e),
    }
}

/// Splits a template source into static contents and expressions.
pub fn scan(source: &str) -> (r: Result<Vec<Segment>, ParseError>)
    requires
        source@.len() < usize::MAX,
    ensures
        match r {
            Ok(v) => spec_scan(source@) == Ok::<Seq<Segment>, ScanError>(v@) && segments_wf(
                v@,
                source@.len() as int,
            ),
            Err(e) => exists|se: ScanError|
                spec_scan(source@) == Err::<Seq<Segment>, ScanError>(se) && e.spec_message()
                    == scan_error_message(se),
        },
{
    let chars = chars_of(source);
    match scan_chars(&chars) {
        Ok(v) => Ok(v),
        Err(e) => Err(scan_error(e)),
    }
}

/// The text of segment `s` of `src` if it is static content: a sequence
/// of zero or one text.
pub open spec fn static_piece(src: Seq<char>, s: Segment) -> Seq<Seq<char>> {
    match s {
        Segment::Static { start, end } => seq![src.subrange(start as int, end as int)],
        Segment::Expr { .. } => seq![],
    }
}

/// The static contents of segments `segs` of `src`, in order.
pub open spec fn statics_of(src: Seq<char>, segs: Seq<Segment>) -> Seq<Seq<char>>
    decreases segs.len(),
{
    if segs.len() == 0 {
        seq![]
    } else {
        statics_of(src, segs.drop_last()) + static_piece(src, segs.last())
    }
}

pub proof fn lemma_statics_of_push(src: Seq<char>, segs: Seq<Segment>, s: Segment)
    ensures
        statics_of(src, segs.push(s)) == statics_of(src, segs) + static_piece(src, s),
{
    assert(segs.push(s).drop_last() =~= segs);
}

/// A call a [`Visitor`] receives: static content, or the text of an
/// expression, trimmed of white space, with its delimiter.
pub enum VisitV {
    Static(Seq<char>),
    Expr(Seq<char>, Delimiter),
}

/// `s` without the white space at its ends.
pub open spec fn trimmed(s: Seq<char>) -> Seq<char> {
    s.subrange(trim_bounds(s).0, trim_bounds(s).1)
}

/// The call a visitor receives for segment `s` of `src`.
pub open spec fn visit_piece(src: Seq<char>, s: Segment) -> VisitV {
    match s {
        Segment::Static { start, end } => VisitV::Static(src.subrange(start as int, end as int)),
        Segment::Expr { start, end, delim } => VisitV::Expr(trimmed(src.subrange(start as int, end as int)), delim),
    }
}

/// The calls a visitor receives for segments `segs` of `src`, in order.
pub open spec fn visits_of(src: Seq<char>, segs: Seq<Segment>) -> Seq<VisitV> {
    Seq::new(segs.len(), |k: int| visit_piece(src, segs[k]))
}

pub proof fn lemma_statics_of_prepend(src: Seq<char>, s: Segment, segs: Seq<Segment>)
    ensures
        statics_of(src, seq![s] + segs) == static_piece(src, s) + statics_of(src, segs),
    decreases segs.len(),
{
    if segs.len() == 0 {
        assert(seq![s] + segs =~= Seq::<Segment>::empty().push(s));
        lemma_statics_of_push(src, Seq::<Segment>::empty(), s);
        assert(static_piece(src, s) + Seq::<Seq<char>>::empty() =~= static_piece(src, s));
        assert(Seq::<Seq<char>>::empty() + static_piece(src, s) =~= static_piece(src, s));
    } else {
        let init = segs.drop_last();
        lemma_statics_of_prepend(src, s, init);
        assert((seq![s] + segs).drop_last() =~= seq![s] + init);
        assert((seq![s] + segs).last() == segs.last());
        assert(static_piece(src, s) + statics_of(src, init) + static_piece(src, segs.last())
            =~= static_piece(src, s) + (statics_of(src, init) + static_piece(src, segs.last())));
    }
}

/// An expression visitor, driven by [`Parser`].
pub trait Visitor: Sized {
    /// Finished visitor output.
    type Output;

    /// Whether the visitor keeps the static contents it is handed: by
    /// default it does not.
    open spec fn keeps_statics() -> bool {
        false
    }

    /// The static contents kept so far, in order.
    open spec fn kept(&self) -> Seq<Seq<char>> {
        seq![]
    }

    /// The static contents a finished output holds.
    open spec fn kept_in(out: Self::Output) -> Seq<Seq<char>> {
        seq![]
    }

    /// Whether every visit, and `finish`, succeed: by default that is not
    /// known.
    open spec fn accepts_all() -> bool {
        false
    }

    /// Whether the visitor records the calls it receives: by default it
    /// does not.
    open spec fn records_visits() -> bool {
        false
    }

    /// The calls received so far, in order.
    open spec fn visits(&self) -> Seq<VisitV> {
        seq![]
    }

    /// The calls a finished output records.
    open spec fn visits_in(out: Self::Output) -> Seq<VisitV> {
        seq![]
    }

    /// Collect static content.
    fn visit_static(&mut self, source: &str) -> (r: Result<(), ParseError>)
        ensures
            Self::keeps_statics() && r is Ok ==> final(self).kept() == old(self).kept().push(source@),
            Self::records_visits() && r is Ok ==> final(self).visits() == old(self).visits().push(VisitV::Static(source@)),
            Self::accepts_all() ==> r is Ok,
    ;

    /// Collect expression.
    fn visit_expr(&mut self, source: &str, delim: Delimiter) -> (r: Result<(), ParseError>)
        ensures
            Self::keeps_statics() && r is Ok ==> final(self).kept() == old(self).kept(),
            Self::records_visits() && r is Ok ==> final(self).visits() == old(self).visits().push(VisitV::Expr(source@, delim)),
            Self::accepts_all() ==> r is Ok,
    ;

    /// Visitor output.
    fn finish(self) -> (r: Result<Self::Output, ParseError>)
        ensures
            Self::keeps_statics() ==> (r matches Ok(o) ==> Self::kept_in(o) == self.kept()),
            Self::records_visits() ==> (r matches Ok(o) ==> Self::visits_in(o) == self.visits()),
            Self::accepts_all() ==> r is Ok,
    ;
}

/// [`Visitor`] implementation that only collects static contents.
///
/// This is used in runtime template reloading.
pub struct StaticVisitor {
    pub statics: Vec<String>,
}

/// The views of strings.
pub open spec fn texts(v: Seq<String>) -> Seq<Seq<char>> {
    Seq::new(v.len(), |i: int| v[i]@)
}

impl StaticVisitor {
    /// Create an empty [`StaticVisitor`].
    pub fn new() -> (r: Self)
        ensures
            r.statics@.len() == 0,
    {
        StaticVisitor { statics: Vec::new() }
    }
}

impl Visitor for StaticVisitor {
    type Output = StaticVisitor;

    open spec fn keeps_statics() -> bool {
        true
    }

    open spec fn kept(&self) -> Seq<Seq<char>> {
        texts(self.statics@)
    }

    open spec fn kept_in(out: StaticVisitor) -> Seq<Seq<char>> {
        texts(out.statics@)
    }

    open spec fn accepts_all() -> bool {
        true
    }

    fn visit_static(&mut self, source: &str) -> (r: Result<(), ParseError>)
        ensures
            r is Ok,
            final(self).statics@.len() == old(self).statics@.len() + 1,
            final(self).statics@.last()@ == source@,
            forall|k: int|
                0 <= k < old(self).statics@.len() ==> #[trigger] final(self).statics@[k]
                    == old(self).statics@[k],
    {
        self.statics.push(owned(source));
        assert(texts(self.statics@) =~= texts(old(self).statics@).push(source@));
        Ok(())
    }

    fn visit_expr(&mut self, source: &str, delim: Delimiter) -> (r: Result<(), ParseError>)
        ensures
            r is Ok,
            final(self).statics@ == old(self).statics@,
    {
        Ok(())
    }

    fn finish(self) -> (r: Result<StaticVisitor, ParseError>)
        ensures
            r matches Ok(v) && v.statics@ == self.statics@,
    {
        Ok(self)
    }
}

/// An expression parser.
pub trait ExprParser: Sized {
    /// Finished parser output.
    type Output;

    /// Collect static content.
    fn collect_static(&mut self, source: &str) -> Result<(), ParseError>;

    /// Collect expression.
    fn parse_expr(&mut self, source: &str, delim: Delimiter) -> Result<(), ParseError>;

    /// Parser output before consumed in codegen.
    fn finish(self) -> Result<Self::Output, ParseError>;
}

/// [`ExprParser`] implementation that does nothing.
pub struct NoopParser;

impl ExprParser for NoopParser {
    type Output = ();

    fn collect_static(&mut self, source: &str) -> (r: Result<(), ParseError>)
        ensures
            r is Ok,
    {
        Ok(())
    }

    fn parse_expr(&mut self, source: &str, delim: Delimiter) -> (r: Result<(), ParseError>)
        ensures
            r is Ok,
    {
        Ok(())
    }

    fn finish(self) -> (r: Result<(), ParseError>)
        ensures
            r is Ok,
    {
        Ok(())
    }
}

/// Template source code parser.
///
/// Static contents and expressions are handed to the [`Visitor`] in order.
pub struct Parser<'a, V> {
    source: &'a str,
    visitor: V,
}

impl<'a, V> Parser<'a, V> {
    /// The template source.
    pub closed spec fn spec_source(&self) -> &'a str {
        self.source
    }

    /// The visitor.
    pub closed spec fn spec_visitor(&self) -> V {
        self.visitor
    }

    /// Create new [`Parser`].
    pub fn new(source: &'a str, visitor: V) -> (r: Self)
        ensures
            r.spec_source() == source,
            r.spec_visitor() == visitor,
    {
        Parser { source, visitor }
    }
}

/// Hands segment `s` of `source` to `visitor`: static content as it is, an
/// expression trimmed of white space, with its delimiter.
fn hand<V: Visitor>(visitor: &mut V, source: &str, chars: &Vec<char>, s: Segment) -> (r: Result<(), ParseError>)
    requires
        chars@ == source@,
        match s {
            Segment::Static { start, end } => start <= end <= source@.len(),
            Segment::Expr { start, end, .. } => start <= end <= source@.len(),
        },
    ensures
        V::keeps_statics() && r is Ok ==> final(visitor).kept() == old(visitor).kept() + static_piece(source@, s),
        V::records_visits() && r is Ok ==> final(visitor).visits() == old(visitor).visits().push(visit_piece(source@, s)),
        V::accepts_all() ==> r is Ok,
{
    match s {
        Segment::Static { start, end } => {
            let r = visitor.visit_static(slice(source, start, end));
            proof {
                assert(old(visitor).kept().push(source@.subrange(start as int, end as int))
                    =~= old(visitor).kept() + static_piece(source@, s));
            }
            r
        },
        Segment::Expr { start, end, delim } => {
            let (a, b) = trim_range(chars, start, end);
            let text = slice(source, a, b);
            proof {
                let sub = source@.subrange(start as int, end as int);
                assert(trimmed(sub) =~= source@.subrange(a as int, b as int));
                assert(old(visitor).kept() + static_piece(source@, s) =~= old(visitor).kept());
            }
            visitor.visit_expr(text, delim)
        },
    }
}

impl<'a, V: Visitor> Parser<'a, V> {
    /// Start parsing.
    ///
    /// The visitor sees each static content and each expression, trimmed of
    /// white space, in order, then `finish`; parsing stops at the first
    /// error, the scanner's or the visitor's. With a visitor that accepts
    /// everything, parsing succeeds exactly when the source scans, and fails
    /// with the scanner's error otherwise.
    pub fn parse(self) -> (r: Result<V::Output, ParseError>)
        requires
            self.spec_source()@.len() < usize::MAX,
        ensures
            r is Ok ==> spec_scan(self.spec_source()@) is Ok,
            spec_scan(self.spec_source()@) is Err ==> r is Err,
            V::keeps_statics() ==> (r matches Ok(o) ==> V::kept_in(o) == self.spec_visitor().kept()
                + statics_of(self.spec_source()@, spec_scan(self.spec_source()@)->Ok_0)),
            V::records_visits() ==> (r matches Ok(o) ==> V::visits_in(o) == self.spec_visitor().visits()
                + visits_of(self.spec_source()@, spec_scan(self.spec_source()@)->Ok_0)),
            V::accepts_all() ==> match spec_scan(self.spec_source()@) {
                Ok(_) => r is Ok,
                Err(e) => r matches Err(pe) && pe.spec_message() == scan_error_message(e),
            },
    {
        let source = self.source;
        let mut visitor = self.visitor;
        let ghost v0 = visitor.kept();
        let ghost w0 = visitor.visits();
        let chars = chars_of(source);
        let len = chars.len();
        let mut i: usize = 0;
        let mut st = ParseState::Static { start: 0 };
        let ghost mut out: Seq<Segment> = seq![];
        while i < len
            invariant
                len == chars@.len() < usize::MAX,
                chars@ == source@,
                source@ == self.spec_source()@,
                i <= len,
                state_wf(st, i as int),
                spec_scan(chars@) == after(out, scan_from(chars@, i as int, st)),
                V::keeps_statics() ==> visitor.kept() == v0 + statics_of(chars@, out),
                V::records_visits() ==> visitor.visits() == w0 + visits_of(chars@, out),
            decreases len - i, state_rank(st),
        {
            let c = chars[i];
            let ghost old_out = out;
            let ghost here = scan_from(chars@, i as int, st);
            match step(st, i, c) {
                Ok((st2, consumed, seg)) => {
                    let ghost rest = scan_from(chars@, if consumed { i + 1 } else { i as int }, st2);
                    match seg {
                        Some(s) => {
                            proof {
                                out = out.push(s);
                                lemma_statics_of_push(chars@, old_out, s);
                                assert(visits_of(chars@, out) =~= visits_of(chars@, old_out).push(visit_piece(chars@, s)));
                                assert(after(out, rest) == after(old_out, prepend(s, rest))) by {
                                    match rest {
                                        Ok(r) => {
                                            assert(old_out.push(s) + r =~= old_out + (seq![s] + r));
                                        },
                                        Err(_) => {},
                                    }
                                }
                            }
                            hand(&mut visitor, source, &chars, s)?;
                            proof {
                                assert(w0 + visits_of(chars@, old_out).push(visit_piece(chars@, s))
                                    =~= w0 + visits_of(chars@, out));
                            }
                        },
                        None => {},
                    }
                    if consumed {
                        i = i + 1;
                    }
                    st = st2;
                },
                Err(e) => {
                    assert(spec_scan(chars@) == Err::<Seq<Segment>, ScanError>(e));
                    return Err(scan_error(e));
                },
            }
        }
        assert(scan_from(chars@, len as int, st) == leftover(len as int, st));
        match finish_state(st, len) {
            Ok(Some(s)) => {
                proof {
                    lemma_statics_of_push(chars@, out, s);
                    assert(out + seq![s] =~= out.push(s));
                    assert(v0 + statics_of(chars@, out) + static_piece(chars@, s)
                        =~= v0 + (statics_of(chars@, out) + static_piece(chars@, s)));
                    assert(visits_of(chars@, out.push(s)) =~= visits_of(chars@, out).push(visit_piece(chars@, s)));
                    assert(w0 + visits_of(chars@, out).push(visit_piece(chars@, s)) =~= w0 + visits_of(chars@, out.push(s)));
                }
                hand(&mut visitor, source, &chars, s)?;
            },
            Ok(None) => {
                assert(out + Seq::<Segment>::empty() =~= out);
            },
            Err(e) => {
                assert(spec_scan(chars@) == Err::<Seq<Segment>, ScanError>(e));
                return Err(scan_error(e));
            },
        }
        visitor.finish()
    }
}

/// Where a segment starts.
pub open spec fn seg_start(s: Segment) -> int {
    match s {
        Segment::Static { start, .. } => start as int,
        Segment::Expr { start, .. } => start as int,
    }
}

/// Where the content tracked by a state starts.
pub open spec fn state_start(st: ParseState) -> int {
    match st {
        ParseState::Static { start } => start as int,
        ParseState::Expr { start, .. } => start as int,
        ParseState::OpenExpr { start, .. } => start as int,
        ParseState::CloseExpr { start, .. } => start as int,
    }
}

/// Segment starts lie in `lo..=hi` and strictly increase.
pub open spec fn starts_increasing(segs: Seq<Segment>, lo: int, hi: int) -> bool {
    &&& forall|k: int| 0 <= k < segs.len() ==> lo <= #[trigger] seg_start(segs[k]) <= hi
    &&& forall|k: int, l: int|
        0 <= k < l < segs.len() ==> #[trigger] seg_start(segs[k]) < #[trigger] seg_start(segs[l])
}

pub proof fn lemma_scan_starts(src: Seq<char>, i: int, st: ParseState)
    requires
        0 <= i <= src.len(),
        src.len() < usize::MAX,
        state_wf(st, i),
    ensures
        scan_from(src, i, st) matches Ok(segs) ==> starts_increasing(segs, state_start(st), src.len() as int),
    decreases src.len() - i, state_rank(st),
{
    if i < src.len() {
        let c = src[i];
        match st {
            ParseState::Static { start } => if c == '{' {
                lemma_scan_starts(src, i + 1, ParseState::OpenExpr { start, brace: i as usize });
            } else {
                lemma_scan_starts(src, i + 1, st);
            },
            ParseState::Expr { start, open_delim } => match char_close(c) {
                Some(close_delim) => {
                    lemma_scan_starts(src, i + 1, ParseState::CloseExpr { start, brace: i as usize, open_delim, close_delim });
                },
                None => {
                    lemma_scan_starts(src, i + 1, st);
                },
            },
            ParseState::OpenExpr { start, brace } => match char_open(c) {
                Some(open_delim) => {
                    let st2 = ParseState::Expr { start: (i + 1) as usize, open_delim };
                    lemma_scan_starts(src, i + 1, st2);
                    if let Ok(rest) = scan_from(src, i + 1, st2) {
                        if start < brace {
                            let segs = seq![Segment::Static { start, end: brace }] + rest;
                            assert forall|k: int, l: int|
                                0 <= k < l < segs.len() implies #[trigger] seg_start(segs[k]) < #[trigger] seg_start(segs[l]) by {
                                if k > 0 {
                                    assert(segs[k] == rest[k - 1]);
                                }
                                assert(segs[l] == rest[l - 1]);
                            }
                            assert forall|k: int| 0 <= k < segs.len() implies start <= #[trigger] seg_start(segs[k]) <= src.len() by {
                                if k > 0 {
                                    assert(segs[k] == rest[k - 1]);
                                }
                            }
                        }
                    }
                },
                None => {
                    lemma_scan_starts(src, i, ParseState::Static { start });
                },
            },
            ParseState::CloseExpr { start, brace, open_delim, close_delim } => if c == '}' {
                if open_delim == close_delim {
                    let st2 = ParseState::Static { start: (i + 1) as usize };
                    lemma_scan_starts(src, i + 1, st2);
                    if let Ok(rest) = scan_from(src, i + 1, st2) {
                        let segs = seq![Segment::Expr { start, end: brace, delim: open_delim }] + rest;
                        assert forall|k: int, l: int|
                            0 <= k < l < segs.len() implies #[trigger] seg_start(segs[k]) < #[trigger] seg_start(segs[l]) by {
                            if k > 0 {
                                assert(segs[k] == rest[k - 1]);
                            }
                            assert(segs[l] == rest[l - 1]);
                        }
                        assert forall|k: int| 0 <= k < segs.len() implies start <= #[trigger] seg_start(segs[k]) <= src.len() by {
                            if k > 0 {
                                assert(segs[k] == rest[k - 1]);
                            }
                        }
                    }
                }
            } else {
                lemma_scan_starts(src, i, ParseState::Expr { start, open_delim });
            },
        }
    }
}

pub proof fn lemma_increasing_len(segs: Seq<Segment>, lo: int, hi: int)
    requires
        starts_increasing(segs, lo, hi),
        lo <= hi + 1,
    ensures
        segs.len() <= hi - lo + 1,
    decreases segs.len(),
{
    if segs.len() > 0 {
        let rest = segs.drop_first();
        assert(lo <= seg_start(segs[0]) <= hi);
        assert forall|k: int| 0 <= k < rest.len() implies seg_start(segs[0]) + 1 <= #[trigger] seg_start(rest[k]) <= hi by {
            assert(rest[k] == segs[k + 1]);
            assert(seg_start(segs[0]) < seg_start(segs[k + 1]));
        }
        assert forall|k: int, l: int| 0 <= k < l < rest.len() implies #[trigger] seg_start(rest[k]) < #[trigger] seg_start(rest[l]) by {
            assert(rest[k] == segs[k + 1]);
            assert(rest[l] == segs[l + 1]);
        }
        lemma_increasing_len(rest, seg_start(segs[0]) + 1, hi);
    }
}

/// A template source of `n` characters has at most `n + 1` segments.
pub proof fn lemma_scan_count(src: Seq<char>)
    requires
        src.len() < usize::MAX,
    ensures
        spec_scan(src) matches Ok(segs) ==> segs.len() <= src.len() + 1,
{
    lemma_scan_starts(src, 0, ParseState::Static { start: 0 });
    if let Ok(segs) = spec_scan(src) {
        lemma_increasing_len(segs, 0, src.len() as int);
    }
}

/// The character that opens an expression after `{` with delimiter `d`.
pub open spec fn open_char(d: Delimiter) -> char {
    match d {
        Delimiter::Brace => '{',
        Delimiter::Bang => '!',
        Delimiter::Percent => '%',
        Delimiter::Quest => '?',
        Delimiter::Hash => '#',
    }
}

/// The character that closes an expression before `}` with delimiter `d`.
pub open spec fn close_char(d: Delimiter) -> char {
    match d {
        Delimiter::Brace => '}',
        Delimiter::Bang => '!',
        Delimiter::Percent => '%',
        Delimiter::Quest => '?',
        Delimiter::Hash => '#',
    }
}

/// Segment `s` of `src` written back: static content as it is, an
/// expression between its delimiters.
pub open spec fn unscan_seg(src: Seq<char>, s: Segment) -> Seq<char> {
    match s {
        Segment::Static { start, end } => src.subrange(start as int, end as int),
        Segment::Expr { start, end, delim } => seq!['{', open_char(delim)] + src.subrange(start as int, end as int)
            + seq![close_char(delim), '}'],
    }
}

/// Segments `segs` of `src` written back, in order.
pub open spec fn unscan(src: Seq<char>, segs: Seq<Segment>) -> Seq<char>
    decreases segs.len(),
{
    if segs.len() == 0 {
        seq![]
    } else {
        unscan_seg(src, segs[0]) + unscan(src, segs.drop_first())
    }
}

pub proof fn lemma_char_open(c: char)
    ensures
        char_open(c) matches Some(d) ==> c == open_char(d),
{
}

pub proof fn lemma_char_close(c: char)
    ensures
        char_close(c) matches Some(d) ==> c == close_char(d),
{
}

/// What a scanner state has seen of its current segment: a static segment
/// from `start`; an expression whose delimiters are before `start`.
pub open spec fn scan_inv(src: Seq<char>, i: int, st: ParseState) -> bool {
    &&& 0 <= i <= src.len()
    &&& match st {
        ParseState::Static { start } => start <= i,
        ParseState::OpenExpr { start, brace } => start <= brace && brace + 1 == i && src[brace as int] == '{',
        ParseState::Expr { start, open_delim } => 2 <= start <= i && src[start - 2] == '{'
            && src[start - 1] == open_char(open_delim),
        ParseState::CloseExpr { start, brace, open_delim, close_delim } => 2 <= start <= brace && brace + 1 == i
            && src[start - 2] == '{' && src[start - 1] == open_char(open_delim) && src[brace as int] == close_char(close_delim),
    }
}

/// Where the source a scanner state accounts for begins.
pub open spec fn scan_origin(st: ParseState) -> int {
    match st {
        ParseState::Static { start } => start as int,
        ParseState::OpenExpr { start, .. } => start as int,
        ParseState::Expr { start, .. } => start - 2,
        ParseState::CloseExpr { start, .. } => start - 2,
    }
}

pub proof fn lemma_unscan_from(src: Seq<char>, i: int, st: ParseState)
    requires
        src.len() < usize::MAX,
        scan_inv(src, i, st),
    ensures
        scan_from(src, i, st) matches Ok(segs) ==> unscan(src, segs) == src.subrange(scan_origin(st), src.len() as int),
    decreases src.len() - i, state_rank(st),
{
    let len = src.len() as int;
    if i >= len {
        match st {
            ParseState::Static { start } | ParseState::OpenExpr { start, .. } => {
                if start < len {
                    let segs = seq![Segment::Static { start, end: len as usize }];
                    assert(segs.drop_first() =~= Seq::<Segment>::empty());
                    assert(unscan(src, Seq::<Segment>::empty()) =~= Seq::<char>::empty());
                    assert(unscan(src, segs) =~= src.subrange(start as int, len));
                } else {
                    assert(src.subrange(start as int, len) =~= Seq::<char>::empty());
                }
            },
            _ => {},
        }
    } else {
        let c = src[i];
        match st {
            ParseState::Static { start } => if c == '{' {
                lemma_unscan_from(src, i + 1, ParseState::OpenExpr { start, brace: i as usize });
            } else {
                lemma_unscan_from(src, i + 1, st);
            },
            ParseState::Expr { start, open_delim } => {
                lemma_char_close(c);
                match char_close(c) {
                    Some(close_delim) => {
                        lemma_unscan_from(
                            src,
                            i + 1,
                            ParseState::CloseExpr { start, brace: i as usize, open_delim, close_delim },
                        );
                    },
                    None => {
                        lemma_unscan_from(src, i + 1, st);
                    },
                }
            },
            ParseState::OpenExpr { start, brace } => {
                lemma_char_open(c);
                match char_open(c) {
                    Some(open_delim) => {
                        let st2 = ParseState::Expr { start: (i + 1) as usize, open_delim };
                        lemma_unscan_from(src, i + 1, st2);
                        if let Ok(rest) = scan_from(src, i + 1, st2) {
                            if start < brace {
                                let segs = seq![Segment::Static { start, end: brace }] + rest;
                                assert(segs[0] == Segment::Static { start, end: brace });
                                assert(segs.drop_first() =~= rest);
                                assert(src.subrange(start as int, brace as int) + src.subrange(brace as int, len)
                                    =~= src.subrange(start as int, len));
                            }
                        }
                    },
                    None => {
                        lemma_unscan_from(src, i, ParseState::Static { start });
                    },
                }
            },
            ParseState::CloseExpr { start, brace, open_delim, close_delim } => if c == '}' {
                if open_delim == close_delim {
                    let st2 = ParseState::Static { start: (i + 1) as usize };
                    lemma_unscan_from(src, i + 1, st2);
                    if let Ok(rest) = scan_from(src, i + 1, st2) {
                        let seg = Segment::Expr { start, end: brace, delim: open_delim };
                        let segs = seq![seg] + rest;
                        assert(segs[0] == seg);
                        assert(segs.drop_first() =~= rest);
                        assert(unscan_seg(src, seg) + src.subrange(i + 1, len) =~= src.subrange(start - 2, len));
                    }
                }
            } else {
                lemma_unscan_from(src, i, ParseState::Expr { start, open_delim });
            },
        }
    }
}

/// Scanning loses nothing: the segments of a source, each static content
/// as it is and each expression between its delimiters, written back in
/// order, give the source again.
pub proof fn law_scan_unscan(src: Seq<char>)
    requires
        src.len() < usize::MAX,
    ensures
        spec_scan(src) matches Ok(segs) ==> unscan(src, segs) == src,
{
    lemma_unscan_from(src, 0, ParseState::Static { start: 0 });
    assert(src.subrange(0, src.len() as int) =~= src);
}

/// Segments that are tidy: no static content is empty, and no two static
/// contents follow each other.
pub open spec fn segs_tidy(segs: Seq<Segment>) -> bool {
    &&& forall|k: int| 0 <= k < segs.len() ==> (#[trigger] segs[k] matches Segment::Static { start, end } ==> start < end)
    &&& forall|k: int| 0 <= k < segs.len() - 1 ==> !(#[trigger] segs[k] is Static && segs[k + 1] is Static)
}

proof fn lemma_tidy_prepend(s: Segment, r: Seq<Segment>)
    requires
        segs_tidy(r),
        s matches Segment::Static { start, end } ==> start < end && r.len() > 0 && r[0] is Expr,
    ensures
        segs_tidy(seq![s] + r),
{
    let t = seq![s] + r;
    assert forall|k: int| 0 <= k < t.len() implies (#[trigger] t[k] matches Segment::Static { start, end } ==> start < end) by {
        if k > 0 {
            assert(t[k] == r[k - 1]);
        }
    }
    assert forall|k: int| 0 <= k < t.len() - 1 implies !(#[trigger] t[k] is Static && t[k + 1] is Static) by {
        if k > 0 {
            assert(t[k] == r[k - 1]);
            assert(t[k + 1] == r[k]);
        } else {
            assert(t[1] == r[0]);
        }
    }
}

proof fn lemma_scan_tidy(src: Seq<char>, i: int, st: ParseState)
    requires
        src.len() < usize::MAX,
    ensures
        scan_from(src, i, st) matches Ok(segs) ==> segs_tidy(segs) && ((st is Expr || st is CloseExpr) ==> segs.len()
            > 0 && segs[0] is Expr),
    decreases src.len() - i, state_rank(st),
{
    if i < 0 || i >= src.len() {
        match st {
            ParseState::Static { start } | ParseState::OpenExpr { start, .. } => {
                if start < src.len() {
                    let segs = seq![Segment::Static { start, end: src.len() as usize }];
                    assert(segs_tidy(segs));
                }
            },
            _ => {},
        }
    } else {
        let c = src[i];
        match st {
            ParseState::Static { start } => if c == '{' {
                lemma_scan_tidy(src, i + 1, ParseState::OpenExpr { start, brace: i as usize });
            } else {
                lemma_scan_tidy(src, i + 1, st);
            },
            ParseState::Expr { start, open_delim } => match char_close(c) {
                Some(close_delim) => {
                    lemma_scan_tidy(src, i + 1, ParseState::CloseExpr { start, brace: i as usize, open_delim, close_delim });
                },
                None => {
                    lemma_scan_tidy(src, i + 1, st);
                },
            },
            ParseState::OpenExpr { start, brace } => match char_open(c) {
                Some(open_delim) => {
                    let next = ParseState::Expr { start: (i + 1) as usize, open_delim };
                    lemma_scan_tidy(src, i + 1, next);
                    if start < brace {
                        if let Ok(r) = scan_from(src, i + 1, next) {
                            lemma_tidy_prepend(Segment::Static { start, end: brace }, r);
                        }
                    }
                },
                None => {
                    lemma_scan_tidy(src, i, ParseState::Static { start });
                },
            },
            ParseState::CloseExpr { start, brace, open_delim, close_delim } => if c == '}' {
                if open_delim == close_delim {
                    let next = ParseState::Static { start: (i + 1) as usize };
                    lemma_scan_tidy(src, i + 1, next);
                    if let Ok(r) = scan_from(src, i + 1, next) {
                        lemma_tidy_prepend(Segment::Expr { start, end: brace, delim: open_delim }, r);
                        assert((seq![Segment::Expr { start, end: brace, delim: open_delim }] + r)[0] is Expr);
                    }
                }
            } else {
                lemma_scan_tidy(src, i, ParseState::Expr { start, open_delim });
            },
        }
    }
}

/// The static contents a source splits into are never empty, and an
/// expression stands between any two of them.
pub proof fn law_scan_tidy(src: Seq<char>)
    requires
        src.len() < usize::MAX,
    ensures
        spec_scan(src) matches Ok(segs) ==> segs_tidy(segs),
{
    lemma_scan_tidy(src, 0, ParseState::Static { start: 0 });
}

} // verus!
