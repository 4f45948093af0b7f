//! A one dimensional template token unit.
//!
//! ```html
//! Token {{ include "layout.html" }}
//! ```
//!
//! Static content is one token; inside `{{ }}` the tokenizer yields
//! identifiers, punctuation, string literals and number literals.
//! Positions are byte offsets in the source.
use vstd::prelude::*;
use vstd::slice::slice_to_vec;
use vstd::string::StringSliceAdditionalSpecFns;
use vstd::utf8::{
    encode_utf8_valid_utf8, is_char_boundary, is_char_boundary_iff_is_leading_byte,
    is_char_boundary_start_end_of_seq, valid_utf8_split,
};

verus! {

/// Source map of a token: the bytes `start..end` of the source.
#[derive(Clone, Copy, Debug, PartialEq, Eq, Structural)]
pub struct Span {
    pub start: usize,
    pub end: usize,
}

impl Span {
    /// The source text of this span; its ends must fall on character
    /// boundaries.
    pub fn eval<'a>(&self, source: &'a str) -> (r: &'a str)
        requires
            self.start <= self.end <= source.spec_bytes().len(),
            is_char_boundary(source.spec_bytes(), self.start as int),
            is_char_boundary(source.spec_bytes(), self.end as int),
        ensures
            r.spec_bytes() == source.spec_bytes().subrange(self.start as int, self.end as int),
    {
        let ghost bytes = source.spec_bytes();
        let (head, _) = source.split_at(self.end);
        proof {
            encode_utf8_valid_utf8(source@);
            valid_utf8_split(bytes, self.end as int);
            let prefix = bytes.subrange(0, self.end as int);
            assert(head.spec_bytes() == prefix);
            if self.start < self.end {
                is_char_boundary_iff_is_leading_byte(bytes, self.start as int);
                is_char_boundary_iff_is_leading_byte(prefix, self.start as int);
                assert(prefix[self.start as int] == bytes[self.start as int]);
            } else {
                is_char_boundary_start_end_of_seq(prefix);
            }
        }
        let (_, r) = head.split_at(self.start);
        assert(r.spec_bytes() =~= bytes.subrange(self.start as int, self.end as int));
        r
    }

    /// The span `start..end`.
    pub fn range(start: usize, end: usize) -> (r: Self)
        ensures
            r == (Span { start, end }),
    {
        Span { start, end }
    }

    /// The span of the single byte at `offset`.
    pub fn offset(offset: usize) -> (r: Self)
        requires
            offset < usize::MAX,
        ensures
            r == (Span { start: offset, end: (offset + 1) as usize }),
    {
        Span { start: offset, end: offset + 1 }
    }

    /// Returns `true` if this span covers exactly `start..end`.
    pub fn eq_range(&self, start: usize, end: usize) -> (r: bool)
        ensures
            r == (self.start == start && self.end == end),
    {
        self.start == start && self.end == end
    }
}

/// Token emitted by [`Tokenizer`].
#[derive(Clone, Copy, Debug, PartialEq, Eq, Structural)]
pub enum Token {
    /// Static template content.
    Static(Span),
    /// Word identifier.
    Ident(Span),
    /// Punctuation.
    Punct(Span),
    /// Literal string, without its quotes.
    LitStr(Span),
    /// Literal number.
    LitNum(Span),
}

pub open spec fn token_span(t: Token) -> Span {
    match t {
        Token::Static(s) | Token::Ident(s) | Token::Punct(s) | Token::LitStr(s) | Token::LitNum(
            s,
        ) => s,
    }
}

impl Token {
    /// The source map of this token.
    pub fn span(&self) -> (r: &Span)
        ensures
            *r == token_span(*self),
    {
        match self {
            Token::Static(span) | Token::Ident(span) | Token::Punct(span) | Token::LitStr(span)
            | Token::LitNum(span) => span,
        }
    }

    /// Returns `true` if this token's source map is `span`.
    pub fn eq_span(&self, span: &Span) -> (r: bool)
        ensures
            r == (token_span(*self) == *span),
    {
        let s = self.span();
        s.start == span.start && s.end == span.end
    }
}

/// Tokenizer state.
#[derive(Clone, Copy, Debug, PartialEq, Eq, Structural)]
pub enum TokenizerState {
    Static { start: usize },
    OpenExpr { start: usize, brace: usize },
    CloseExpr { start: usize },
    Expr,
    End,
}

/// ASCII letter, as `u8::is_ascii_alphabetic`.
pub open spec fn byte_alpha(b: u8) -> bool {
    (97 <= b && b <= 122) || (65 <= b && b <= 90)
}

/// ASCII digit, as `u8::is_ascii_digit`.
pub open spec fn byte_digit(b: u8) -> bool {
    48 <= b && b <= 57
}

/// ASCII white space, as `u8::is_ascii_whitespace`: space, tab, line
/// feed, form feed and carriage return.
pub open spec fn byte_space(b: u8) -> bool {
    b == 32 || b == 9 || b == 10 || b == 12 || b == 13
}

/// ASCII punctuation, as `u8::is_ascii_punctuation`.
pub open spec fn byte_punct(b: u8) -> bool {
    (33 <= b && b <= 47) || (58 <= b && b <= 64) || (91 <= b && b <= 96) || (123 <= b && b <= 126)
}

fn is_alpha_byte(b: u8) -> (r: bool)
    ensures
        r == byte_alpha(b),
{
    (97 <= b && b <= 122) || (65 <= b && b <= 90)
}

fn is_digit_byte(b: u8) -> (r: bool)
    ensures
        r == byte_digit(b),
{
    48 <= b && b <= 57
}

fn is_space_byte(b: u8) -> (r: bool)
    ensures
        r == byte_space(b),
{
    b == 32 || b == 9 || b == 10 || b == 12 || b == 13
}

fn is_punct_byte(b: u8) -> (r: bool)
    ensures
        r == byte_punct(b),
{
    (33 <= b && b <= 47) || (58 <= b && b <= 64) || (91 <= b && b <= 96) || (123 <= b && b <= 126)
}

/// A byte that continues an identifier.
pub open spec fn is_ident_char(c: u8) -> bool {
    byte_alpha(c) || byte_digit(c) || c == 95
}

/// A byte that continues a number literal.
pub open spec fn is_num_char(c: u8) -> bool {
    byte_digit(c) || c == 46
}

/// The end of the identifier bytes starting at `i`.
pub open spec fn ident_end(src: Seq<u8>, i: int) -> int
    decreases src.len() - i,
{
    if 0 <= i < src.len() && is_ident_char(src[i]) {
        ident_end(src, i + 1)
    } else {
        i
    }
}

/// The end of the number bytes starting at `i`.
pub open spec fn num_end(src: Seq<u8>, i: int) -> int
    decreases src.len() - i,
{
    if 0 <= i < src.len() && is_num_char(src[i]) {
        num_end(src, i + 1)
    } else {
        i
    }
}

/// The position after the first `"` at or after `i`, or the end of the source.
pub open spec fn quote_end(src: Seq<u8>, i: int) -> int
    decreases src.len() - i,
{
    if 0 <= i < src.len() {
        if src[i] == 34 {
            i + 1
        } else {
            quote_end(src, i + 1)
        }
    } else {
        i
    }
}

pub proof fn lemma_ident_end(src: Seq<u8>, i: int)
    requires
        0 <= i <= src.len(),
    ensures
        i <= ident_end(src, i) <= src.len(),
    decreases src.len() - i,
{
    if i < src.len() && is_ident_char(src[i]) {
        lemma_ident_end(src, i + 1);
    }
}

pub proof fn lemma_num_end(src: Seq<u8>, i: int)
    requires
        0 <= i <= src.len(),
    ensures
        i <= num_end(src, i) <= src.len(),
    decreases src.len() - i,
{
    if i < src.len() && is_num_char(src[i]) {
        lemma_num_end(src, i + 1);
    }
}

pub proof fn lemma_quote_end(src: Seq<u8>, i: int)
    requires
        0 <= i <= src.len(),
    ensures
        i <= quote_end(src, i) <= src.len(),
    decreases src.len() - i,
{
    if i < src.len() && src[i] != 34 {
        lemma_quote_end(src, i + 1);
    }
}

/// One step of the tokenizer at position `off` in state `st`: the next
/// position, the next state, whether the step ends the call of
/// [`Tokenizer::next`], and the token yielded, if any.
pub open spec fn tok_step(src: Seq<u8>, off: int, st: TokenizerState) -> (int, TokenizerState, bool, Option<Token>) {
    let len = src.len() as int;
    match st {
        TokenizerState::Static { start } => if off < len {
            if src[off] == 123 {
                (off + 1, TokenizerState::OpenExpr { start, brace: off as usize }, false, None)
            } else {
                (off + 1, st, false, None)
            }
        } else if start < off {
            (off + 1, TokenizerState::End, true, Some(Token::Static(Span { start, end: off as usize })))
        } else {
            (off + 1, TokenizerState::End, true, None)
        },
        TokenizerState::OpenExpr { start, brace } => if off < len {
            if src[off] == 123 {
                if start < brace {
                    (off + 1, TokenizerState::Expr, true, Some(Token::Static(Span { start, end: brace })))
                } else {
                    (off + 1, TokenizerState::Expr, false, None)
                }
            } else {
                (off + 1, TokenizerState::Static { start }, false, None)
            }
        } else if start < off {
            (off + 1, TokenizerState::End, true, Some(Token::Static(Span { start, end: off as usize })))
        } else {
            (off + 1, TokenizerState::End, true, None)
        },
        TokenizerState::Expr => if off < len {
            let c = src[off];
            if c == 125 {
                (off + 1, TokenizerState::CloseExpr { start: off as usize }, false, None)
            } else if c == 34 {
                let end = quote_end(src, off + 1);
                (end, st, true, Some(Token::LitStr(Span { start: (off + 1) as usize, end: (end - 1) as usize })))
            } else if byte_space(c) {
                (off + 1, st, false, None)
            } else if byte_alpha(c) || c == 95 {
                let end = ident_end(src, off + 1);
                (end, st, true, Some(Token::Ident(Span { start: off as usize, end: end as usize })))
            } else if byte_digit(c) {
                let end = num_end(src, off + 1);
                (end, st, true, Some(Token::LitNum(Span { start: off as usize, end: end as usize })))
            } else if byte_punct(c) {
                (off + 1, st, true, Some(Token::Punct(Span { start: off as usize, end: (off + 1) as usize })))
            } else {
                (off + 1, st, false, None)
            }
        } else {
            (off, TokenizerState::End, true, None)
        },
        TokenizerState::CloseExpr { start } => if off < len {
            if src[off] == 125 {
                (off + 1, TokenizerState::Static { start: (off + 1) as usize }, false, None)
            } else {
                (off, TokenizerState::Expr, true, Some(Token::Punct(Span { start, end: (start + 1) as usize })))
            }
        } else {
            (off, TokenizerState::End, true, Some(Token::Punct(Span { start, end: (start + 1) as usize })))
        },
        TokenizerState::End => (off, TokenizerState::End, true, None),
    }
}

/// One call of [`Tokenizer::next`]: from position `off` in state `st`, the
/// next position, the next state and the token yielded, if any.
pub open spec fn tok_next(src: Seq<u8>, off: int, st: TokenizerState) -> (int, TokenizerState, Option<Token>)
    decreases src.len() + 1 - off,
{
    if st is End || off < 0 || off > src.len() {
        (off, TokenizerState::End, None)
    } else {
        let (off2, st2, done, tok) = tok_step(src, off, st);
        if done || off2 <= off {
            (off2, st2, tok)
        } else {
            tok_next(src, off2, st2)
        }
    }
}

/// The positions held by a tokenizer state are sound at position `off`.
pub open spec fn tok_state_wf(st: TokenizerState, off: int, len: int) -> bool {
    match st {
        TokenizerState::Static { start } => start <= off <= len,
        TokenizerState::OpenExpr { start, brace } => start <= brace < off <= len,
        TokenizerState::CloseExpr { start } => start < off <= len,
        TokenizerState::Expr => 0 <= off <= len,
        TokenizerState::End => 0 <= off <= len + 1,
    }
}

/// A tokenizer over a template source.
pub struct Tokenizer<'a> {
    /// raw source code
    source: &'a str,
    bytes: Vec<u8>,
    offset: usize,
    state: TokenizerState,
}

impl<'a> Tokenizer<'a> {
    /// The tokenized source.
    pub closed spec fn spec_source(&self) -> &'a str {
        self.source
    }

    /// The current position.
    pub closed spec fn spec_offset(&self) -> int {
        self.offset as int
    }

    /// The current state.
    pub closed spec fn spec_state(&self) -> TokenizerState {
        self.state
    }

    /// The tokenizer's internal invariant.
    pub closed spec fn wf(&self) -> bool {
        &&& self.bytes@ == self.source.spec_bytes()
        &&& self.bytes@.len() + 2 < usize::MAX
        &&& tok_state_wf(self.state, self.offset as int, self.bytes@.len() as int)
    }

    /// Create a tokenizer at the start of `source`.
    pub fn new(source: &'a str) -> (r: Self)
        requires
            source.spec_bytes().len() + 2 < usize::MAX,
        ensures
            r.wf(),
            r.spec_source() == source,
            r.spec_offset() == 0,
            r.spec_state() == (TokenizerState::Static { start: 0 }),
    {
        Tokenizer { source, bytes: slice_to_vec(source.as_bytes()), offset: 0, state: TokenizerState::Static { start: 0 } }
    }

    /// Collect an identifier starting at the current position.
    fn identifier(&mut self) -> (r: Span)
        requires
            old(self).wf(),
            old(self).state == TokenizerState::Expr,
            (old(self).offset as int) < old(self).bytes@.len(),
        ensures
            final(self).wf(),
            final(self).source == old(self).source,
            final(self).bytes@ == old(self).bytes@,
            final(self).state == old(self).state,
            final(self).offset == ident_end(old(self).bytes@, old(self).offset + 1),
            r == (Span { start: old(self).offset, end: final(self).offset }),
    {
        let start = self.offset;
        self.offset = self.offset + 1;
        proof {
            lemma_ident_end(self.bytes@, self.offset as int);
        }
        while self.offset < self.bytes.len() && (is_alpha_byte(self.bytes[self.offset])
            || is_digit_byte(self.bytes[self.offset]) || self.bytes[self.offset] == 95u8)
            invariant
                self.bytes@ == old(self).bytes@,
                self.source == old(self).source,
                self.state == old(self).state,
                old(self).offset < self.offset <= self.bytes@.len(),
                ident_end(self.bytes@, self.offset as int) == ident_end(
                    self.bytes@,
                    old(self).offset + 1,
                ),
                self.bytes@.len() + 2 < usize::MAX,
            decreases self.bytes@.len() - self.offset,
        {
            self.offset = self.offset + 1;
        }
        Span { start, end: self.offset }
    }

    /// Collect a literal string starting at the current `"`.
    fn litstr(&mut self) -> (r: Span)
        requires
            old(self).wf(),
            old(self).state == TokenizerState::Expr,
            (old(self).offset as int) < old(self).bytes@.len(),
        ensures
            final(self).wf(),
            final(self).source == old(self).source,
            final(self).bytes@ == old(self).bytes@,
            final(self).state == old(self).state,
            final(self).offset == quote_end(old(self).bytes@, old(self).offset + 1),
            r == (Span { start: (old(self).offset + 1) as usize, end: (final(self).offset - 1) as usize }),
    {
        let start = self.offset;
        self.offset = self.offset + 1;
        proof {
            lemma_quote_end(self.bytes@, self.offset as int);
        }
        loop
            invariant_except_break
                old(self).offset < self.offset <= self.bytes@.len(),
                quote_end(self.bytes@, self.offset as int) == quote_end(
                    self.bytes@,
                    old(self).offset + 1,
                ),
            invariant
                self.bytes@ == old(self).bytes@,
                self.source == old(self).source,
                self.state == old(self).state,
                self.bytes@.len() + 2 < usize::MAX,
            ensures
                old(self).offset < self.offset <= self.bytes@.len(),
                self.offset == quote_end(self.bytes@, old(self).offset + 1),
            decreases self.bytes@.len() - self.offset,
        {
            if self.offset < self.bytes.len() {
                if self.bytes[self.offset] == 34u8 {
                    self.offset = self.offset + 1;
                    break;
                } else {
                    self.offset = self.offset + 1;
                }
            } else {
                break;
            }
        }
        Span { start: start + 1, end: self.offset - 1 }
    }

    /// Collect a literal number starting at the current digit.
    fn digit(&mut self) -> (r: Span)
        requires
            old(self).wf(),
            old(self).state == TokenizerState::Expr,
            (old(self).offset as int) < old(self).bytes@.len(),
        ensures
            final(self).wf(),
            final(self).source == old(self).source,
            final(self).bytes@ == old(self).bytes@,
            final(self).state == old(self).state,
            final(self).offset == num_end(old(self).bytes@, old(self).offset + 1),
            r == (Span { start: old(self).offset, end: final(self).offset }),
    {
        let start = self.offset;
        self.offset = self.offset + 1;
        proof {
            lemma_num_end(self.bytes@, self.offset as int);
        }
        while self.offset < self.bytes.len() && (is_digit_byte(self.bytes[self.offset])
            || self.bytes[self.offset] == 46u8)
            invariant
                self.bytes@ == old(self).bytes@,
                self.source == old(self).source,
                self.state == old(self).state,
                old(self).offset < self.offset <= self.bytes@.len(),
                num_end(self.bytes@, self.offset as int) == num_end(self.bytes@, old(self).offset + 1),
                self.bytes@.len() + 2 < usize::MAX,
            decreases self.bytes@.len() - self.offset,
        {
            self.offset = self.offset + 1;
        }
        Span { start, end: self.offset }
    }

    /// One step of the tokenizer.
    fn step(&mut self) -> (r: (bool, Option<Token>))
        requires
            old(self).wf(),
            !(old(self).state is End),
        ensures
            final(self).wf(),
            final(self).source == old(self).source,
            final(self).bytes@ == old(self).bytes@,
            tok_step(old(self).bytes@, old(self).offset as int, old(self).state) == (
            final(self).offset as int, final(self).state, r.0, r.1),
            !r.0 ==> final(self).offset > old(self).offset,
    {
        let current = self.offset;
        let len = self.bytes.len();
        match self.state {
            TokenizerState::Static { start } => {
                self.offset = self.offset + 1;
                if current < len {
                    if self.bytes[current] == 123u8 {
                        self.state = TokenizerState::OpenExpr { start, brace: current };
                    }
                    (false, None)
                } else {
                    self.state = TokenizerState::End;
                    if start < current {
                        (true, Some(Token::Static(Span { start, end: current })))
                    } else {
                        (true, None)
                    }
                }
            },
            TokenizerState::OpenExpr { start, brace } => {
                self.offset = self.offset + 1;
                if current < len {
                    if self.bytes[current] == 123u8 {
                        self.state = TokenizerState::Expr;
                        if start < brace {
                            (true, Some(Token::Static(Span { start, end: brace })))
                        } else {
                            (false, None)
                        }
                    } else {
                        self.state = TokenizerState::Static { start };
                        (false, None)
                    }
                } else {
                    self.state = TokenizerState::End;
                    if start < current {
                        (true, Some(Token::Static(Span { start, end: current })))
                    } else {
                        (true, None)
                    }
                }
            },
            TokenizerState::Expr => {
                if current < len {
                    let c = self.bytes[current];
                    if c == 125 {
                        self.offset = self.offset + 1;
                        self.state = TokenizerState::CloseExpr { start: current };
                        (false, None)
                    } else if c == 34 {
                        (true, Some(Token::LitStr(self.litstr())))
                    } else if is_space_byte(c) {
                        self.offset = self.offset + 1;
                        (false, None)
                    } else if is_alpha_byte(c) || c == 95u8 {
                        (true, Some(Token::Ident(self.identifier())))
                    } else if is_digit_byte(c) {
                        (true, Some(Token::LitNum(self.digit())))
                    } else if is_punct_byte(c) {
                        self.offset = self.offset + 1;
                        (true, Some(Token::Punct(Span { start: current, end: current + 1 })))
                    } else {
                        // an invalid character is skipped
                        self.offset = self.offset + 1;
                        (false, None)
                    }
                } else {
                    self.state = TokenizerState::End;
                    (true, None)
                }
            },
            TokenizerState::CloseExpr { start } => {
                if current < len {
                    if self.bytes[current] == 125u8 {
                        self.offset = self.offset + 1;
                        self.state = TokenizerState::Static { start: self.offset };
                        (false, None)
                    } else {
                        self.state = TokenizerState::Expr;
                        (true, Some(Token::Punct(Span { start, end: start + 1 })))
                    }
                } else {
                    self.state = TokenizerState::End;
                    (true, Some(Token::Punct(Span { start, end: start + 1 })))
                }
            },
            TokenizerState::End => (true, None),
        }
    }

    /// The next token, or [`None`] at the end of the source.
    pub fn next(&mut self) -> (r: Option<Token>)
        requires
            old(self).wf(),
        ensures
            final(self).wf(),
            final(self).spec_source() == old(self).spec_source(),
            tok_next(old(self).spec_source().spec_bytes(), old(self).spec_offset(), old(self).spec_state()) == (
            final(self).spec_offset(), final(self).spec_state(), r),
    {
        let ghost target = tok_next(self.bytes@, self.offset as int, self.state);
        assert(target == tok_next(old(self).spec_source().spec_bytes(), old(self).spec_offset(), old(self).spec_state()));
        let mut result: Option<Token> = None;
        loop
            invariant_except_break
                tok_next(self.bytes@, self.offset as int, self.state) == target,
            invariant
                self.wf(),
                self.source == old(self).source,
                self.bytes@ == old(self).bytes@,
            ensures
                target == (self.offset as int, self.state, result),
            decreases self.bytes@.len() + 1 - self.offset,
        {
            let ghost here = tok_next(self.bytes@, self.offset as int, self.state);
            if let TokenizerState::End = self.state {
                result = None;
                break;
            }
            let (done, tok) = self.step();
            if done {
                result = tok;
                break;
            }
        }
        result
    }
}

/// Every token the tokenizer yields lies inside the source, with its start
/// no later than its end, except a string literal whose opening quote is the
/// last byte of the source: its span then starts at the end of the source
/// and ends one before. Static tokens are never empty, and once no
/// token is yielded the tokenizer has ended.
pub proof fn law_token_spans(src: Seq<u8>, off: int, st: TokenizerState)
    requires
        tok_state_wf(st, off, src.len() as int),
        src.len() + 2 < usize::MAX,
    ensures
        tok_next(src, off, st).2 matches Some(t) ==> token_span(t).end <= src.len() && (token_span(t).start
            <= token_span(t).end || (t is LitStr && token_span(t).start == src.len() && token_span(t).end
            == src.len() - 1)),
        tok_next(src, off, st).2 matches Some(Token::Static(sp)) ==> sp.start < sp.end,
        tok_next(src, off, st).2 is None ==> tok_next(src, off, st).1 is End,
    decreases src.len() + 1 - off,
{
    if !(st is End || off < 0 || off > src.len()) {
        if off < src.len() {
            lemma_quote_end(src, off + 1);
            lemma_ident_end(src, off + 1);
            lemma_num_end(src, off + 1);
        }
        let (off2, st2, done, tok) = tok_step(src, off, st);
        let len = src.len() as int;
        match st {
            TokenizerState::Static { start } => {
                assert(start <= off <= len);
            },
            TokenizerState::OpenExpr { start, brace } => {
                assert(start <= brace < off <= len);
            },
            TokenizerState::CloseExpr { start } => {
                assert(start < off <= len);
            },
            TokenizerState::Expr => {
                if off < len {
                    let c = src[off];
                    if c == 34 {
                        assert(off + 1 <= quote_end(src, off + 1) <= len);
                        if off + 1 < len {
                            lemma_quote_end(src, off + 2);
                            assert(quote_end(src, off + 1) >= off + 2);
                        }
                    }
                }
            },
            TokenizerState::End => {},
        }
        if !(done || off2 <= off) {
            assert(tok_state_wf(st2, off2, len));
            law_token_spans(src, off2, st2);
            assert(tok_next(src, off, st) == tok_next(src, off2, st2));
        } else {
            assert(tok_next(src, off, st) == (off2, st2, tok));
        }
    }
}

/// An ASCII letter, digit or underscore: a byte of a Rust word.
pub open spec fn word_byte(b: u8) -> bool {
    (48 <= b && b <= 57) || (65 <= b && b <= 90) || (97 <= b && b <= 122) || b == 95
}

/// The identifier bytes from `i` run up to [`ident_end`], and the byte there,
/// if any, does not continue the identifier.
proof fn lemma_ident_end_run(src: Seq<u8>, i: int)
    requires
        0 <= i <= src.len(),
    ensures
        forall|k: int| i <= k < ident_end(src, i) ==> is_ident_char(#[trigger] src[k]),
        ident_end(src, i) < src.len() ==> !is_ident_char(src[ident_end(src, i)]),
    decreases src.len() - i,
{
    if i < src.len() && is_ident_char(src[i]) {
        lemma_ident_end_run(src, i + 1);
    }
}

/// An identifier token is a whole word: it starts with a letter or an
/// underscore, every byte of it is an ASCII letter, digit or underscore, and
/// the byte after it, if any, is none of these.
pub proof fn law_ident_tokens(src: Seq<u8>, off: int, st: TokenizerState)
    requires
        tok_state_wf(st, off, src.len() as int),
        src.len() + 2 < usize::MAX,
    ensures
        tok_next(src, off, st).2 matches Some(Token::Ident(sp)) ==> {
            &&& sp.start < sp.end <= src.len()
            &&& !(48 <= src[sp.start as int] && src[sp.start as int] <= 57)
            &&& forall|k: int| sp.start <= k < sp.end ==> word_byte(#[trigger] src[k])
            &&& (sp.end < src.len() ==> !word_byte(src[sp.end as int]))
        },
    decreases src.len() + 1 - off,
{
    if !(st is End || off < 0 || off > src.len()) {
        if off < src.len() {
            lemma_ident_end(src, off + 1);
            lemma_ident_end_run(src, off + 1);
        }
        let (off2, st2, done, tok) = tok_step(src, off, st);
        let len = src.len() as int;
        match st {
            TokenizerState::Static { start } => {
                assert(start <= off <= len);
            },
            TokenizerState::OpenExpr { start, brace } => {
                assert(start <= brace < off <= len);
            },
            TokenizerState::CloseExpr { start } => {
                assert(start < off <= len);
            },
            _ => {},
        }
        if !(done || off2 <= off) {
            assert(tok_state_wf(st2, off2, len));
            law_ident_tokens(src, off2, st2);
            assert(tok_next(src, off, st) == tok_next(src, off2, st2));
        } else {
            assert(tok_next(src, off, st) == (off2, st2, tok));
        }
    }
}

proof fn lemma_num_end_run(src: Seq<u8>, i: int)
    requires
        0 <= i <= src.len(),
    ensures
        forall|k: int| i <= k < num_end(src, i) ==> is_num_char(#[trigger] src[k]),
        num_end(src, i) < src.len() ==> !is_num_char(src[num_end(src, i)]),
    decreases src.len() - i,
{
    if i < src.len() && is_num_char(src[i]) {
        lemma_num_end_run(src, i + 1);
    }
}

proof fn lemma_quote_end_run(src: Seq<u8>, i: int)
    requires
        0 <= i <= src.len(),
    ensures
        forall|k: int| i <= k < quote_end(src, i) - 1 ==> #[trigger] src[k] != 34,
        (i < quote_end(src, i) && src[quote_end(src, i) - 1] == 34) || (quote_end(src, i) == src.len()
            && forall|k: int| i <= k < src.len() ==> #[trigger] src[k] != 34),
    decreases src.len() - i,
{
    if i < src.len() && src[i] != 34 {
        lemma_quote_end_run(src, i + 1);
    }
}

/// A string literal token holds the bytes after its opening `"` up to its
/// closing `"`, none of them a `"`; when no `"` closes it, it runs to the
/// byte before the end of the source. A number token is a whole run of ASCII
/// digits and `.`, starting with a digit.
pub proof fn law_literal_tokens(src: Seq<u8>, off: int, st: TokenizerState)
    requires
        tok_state_wf(st, off, src.len() as int),
        src.len() + 2 < usize::MAX,
    ensures
        tok_next(src, off, st).2 matches Some(Token::LitStr(sp)) ==> {
            &&& 1 <= sp.start <= src.len()
            &&& src[sp.start - 1] == 34
            &&& ((sp.end < src.len() && src[sp.end as int] == 34 && forall|k: int| sp.start <= k < sp.end ==> #[trigger] src[k] != 34)
                || (sp.end + 1 == src.len() && forall|k: int| sp.start <= k < src.len() ==> #[trigger] src[k] != 34))
        },
        tok_next(src, off, st).2 matches Some(Token::LitNum(sp)) ==> {
            &&& sp.start < sp.end <= src.len()
            &&& 48 <= src[sp.start as int] <= 57
            &&& forall|k: int| sp.start <= k < sp.end ==> ((48 <= #[trigger] src[k] && src[k] <= 57) || src[k] == 46)
            &&& (sp.end < src.len() ==> !((48 <= src[sp.end as int] && src[sp.end as int] <= 57) || src[sp.end as int] == 46))
        },
    decreases src.len() + 1 - off,
{
    if !(st is End || off < 0 || off > src.len()) {
        if off < src.len() {
            lemma_quote_end(src, off + 1);
            lemma_quote_end_run(src, off + 1);
            lemma_num_end(src, off + 1);
            lemma_num_end_run(src, off + 1);
        }
        let (off2, st2, done, tok) = tok_step(src, off, st);
        let len = src.len() as int;
        match st {
            TokenizerState::Static { start } => {
                assert(start <= off <= len);
            },
            TokenizerState::OpenExpr { start, brace } => {
                assert(start <= brace < off <= len);
            },
            TokenizerState::CloseExpr { start } => {
                assert(start < off <= len);
            },
            _ => {},
        }
        if !(done || off2 <= off) {
            assert(tok_state_wf(st2, off2, len));
            law_literal_tokens(src, off2, st2);
            assert(tok_next(src, off, st) == tok_next(src, off2, st2));
        } else {
            assert(tok_next(src, off, st) == (off2, st2, tok));
        }
    }
}

} // verus!
