//! Splits a template into static contents and trimmed expressions.
//!
//! ```text
//! "Token {{ expr { object } }} once { ignored }"
//!   => Static("Token "), Expr("expr { object }"), Static(" once { ignored }")
//! ```
use vstd::prelude::*;
use crate::text::{char_is_space, chars_of, is_space, owned, slice};

verus! {

/// Tokenizer state.
#[derive(Clone, Copy, Debug, PartialEq, Eq, Structural)]
pub enum TokenizeState {
    /// last item is a static value
    Static(usize),
    /// last item is a '{'
    OpenExpr(usize),
    /// state after [`TokenizeState::OpenExpr`] which the index still point to '{'
    StartExpr,
    /// last item is an expression
    Expr(usize),
    /// last item is a '}'
    CloseExpr(usize),
    /// state after [`TokenizeState::CloseExpr`] which the index still point to '}'
    EndExpr,
    /// end of iterator
    Eof,
}

/// A token borrowed from the source.
#[derive(Debug, PartialEq, Eq)]
pub enum Token<'a> {
    Static(&'a str),
    Expr(&'a str),
}

/// An owned token.
#[derive(Debug, PartialEq, Eq)]
pub enum TokenOwned {
    Static(String),
    Expr(String),
}

/// The view of a token: whether it is static content, and its text.
pub open spec fn token_view(t: Token) -> (bool, Seq<char>) {
    match t {
        Token::Static(s) => (true, s@),
        Token::Expr(s) => (false, s@),
    }
}

impl TokenOwned {
    /// Converts a borrowed token into an owned one.
    pub fn from(value: Token<'_>) -> (r: TokenOwned)
        ensures
            match r {
                TokenOwned::Static(s) => token_view(value) == (true, s@),
                TokenOwned::Expr(s) => token_view(value) == (false, s@),
            },
    {
        match value {
            Token::Static(val) => TokenOwned::Static(owned(val)),
            Token::Expr(val) => TokenOwned::Expr(owned(val)),
        }
    }
}

/// The first position at or after `i` that does not hold whitespace.
pub open spec fn skip_space(s: Seq<char>, i: int) -> int
    decreases s.len() - i,
{
    if 0 <= i < s.len() && is_space(s[i]) {
        skip_space(s, i + 1)
    } else {
        i
    }
}

/// The last position at or before `j`, and after `lo`, that follows no whitespace.
pub open spec fn back_space(s: Seq<char>, lo: int, j: int) -> int
    decreases j - lo,
{
    if lo < j && j <= s.len() && is_space(s[j - 1]) {
        back_space(s, lo, j - 1)
    } else {
        j
    }
}

/// `s` without leading and trailing whitespace, as `str::trim`: the bounds of
/// the result within `s`.
pub open spec fn trim_bounds(s: Seq<char>) -> (int, int) {
    let a = skip_space(s, 0);
    (a, back_space(s, a, s.len() as int))
}

pub proof fn lemma_skip_space(s: Seq<char>, i: int)
    requires
        0 <= i <= s.len(),
    ensures
        i <= skip_space(s, i) <= s.len(),
        forall|k: int| i <= k < skip_space(s, i) ==> is_space(#[trigger] s[k]),
        skip_space(s, i) < s.len() ==> !is_space(s[skip_space(s, i)]),
    decreases s.len() - i,
{
    if i < s.len() && is_space(s[i]) {
        lemma_skip_space(s, i + 1);
    }
}

pub proof fn lemma_back_space(s: Seq<char>, lo: int, j: int)
    requires
        0 <= lo <= j <= s.len(),
    ensures
        lo <= back_space(s, lo, j) <= j,
        forall|k: int| back_space(s, lo, j) <= k < j ==> is_space(#[trigger] s[k]),
        lo < back_space(s, lo, j) ==> !is_space(s[back_space(s, lo, j) - 1]),
    decreases j - lo,
{
    if lo < j && is_space(s[j - 1]) {
        lemma_back_space(s, lo, j - 1);
    }
}

/// The bounds, within `src`, of `src[from..to]` trimmed of whitespace.
pub fn trim_range(src: &Vec<char>, from: usize, to: usize) -> (r: (usize, usize))
    requires
        from <= to <= src@.len(),
    ensures
        trim_bounds(src@.subrange(from as int, to as int)) == (r.0 - from, r.1 - from),
        from <= r.0 <= r.1 <= to,
{
    let ghost s = src@.subrange(from as int, to as int);
    let mut a = from;
    proof {
        lemma_skip_space(s, 0);
    }
    while a < to && char_is_space(src[a])
        invariant
            from <= a <= to <= src@.len(),
            s == src@.subrange(from as int, to as int),
            skip_space(s, a - from) == skip_space(s, 0),
        decreases to - a,
    {
        a = a + 1;
    }
    let mut b = to;
    proof {
        lemma_back_space(s, a - from, to - from);
    }
    while a < b && char_is_space(src[b - 1])
        invariant
            from <= a <= b <= to <= src@.len(),
            s == src@.subrange(from as int, to as int),
            skip_space(s, 0) == a - from,
            back_space(s, a - from, b - from) == back_space(s, a - from, to - from),
        decreases b - a,
    {
        b = b - 1;
    }
    (a, b)
}

/// One step of the tokenizer: reads the character at `pos`, if any.
///
/// Returns the next position, the next state, whether the call of
/// [`Tokenizer::next`] ends, and the token yielded as
/// `(is_static, start, end)` positions in `src`.
pub open spec fn tz_step(src: Seq<char>, pos: int, st: TokenizeState) -> (int, TokenizeState, bool, Option<(bool, int, int)>) {
    let len = src.len() as int;
    if pos >= len {
        // the iterator is exhausted
        match st {
            TokenizeState::Static(start) | TokenizeState::OpenExpr(start) => if start < len {
                (pos, TokenizeState::Eof, true, Some((true, start as int, len)))
            } else {
                (pos, st, true, None)
            },
            TokenizeState::Expr(start) => if start < len {
                (pos, TokenizeState::Eof, true, Some((false, start as int, len)))
            } else {
                (pos, st, true, None)
            },
            TokenizeState::CloseExpr(start) => {
                let (a, b) = trim_bounds(src.subrange(start as int, len));
                if a < b {
                    (pos, TokenizeState::Eof, true, Some((false, start + a, start + b)))
                } else {
                    (pos, st, true, None)
                }
            },
            _ => (pos, st, true, None),
        }
    } else {
        let c = src[pos];
        let next = pos + 1;
        match st {
            TokenizeState::Static(start) => if c == '{' {
                (next, TokenizeState::OpenExpr(start), false, None)
            } else {
                (next, st, false, None)
            },
            TokenizeState::Expr(start) => if c == '}' {
                (next, TokenizeState::CloseExpr(start), false, None)
            } else {
                (next, st, false, None)
            },
            TokenizeState::OpenExpr(start) => if c == '{' {
                if start < pos - 1 {
                    (next, TokenizeState::StartExpr, true, Some((true, start as int, pos - 1)))
                } else {
                    (next, TokenizeState::StartExpr, false, None)
                }
            } else {
                (next, TokenizeState::Static(start), false, None)
            },
            TokenizeState::CloseExpr(start) => if c == '}' {
                let (a, b) = trim_bounds(src.subrange(start as int, pos - 1));
                if a < b {
                    (next, TokenizeState::EndExpr, true, Some((false, start + a, start + b)))
                } else {
                    (next, TokenizeState::EndExpr, false, None)
                }
            } else {
                (next, TokenizeState::Expr(start), false, None)
            },
            TokenizeState::StartExpr => if c == '}' {
                (next, TokenizeState::CloseExpr(pos as usize), false, None)
            } else {
                (next, TokenizeState::Expr(pos as usize), false, None)
            },
            TokenizeState::EndExpr => if c == '{' {
                (next, TokenizeState::OpenExpr(pos as usize), false, None)
            } else {
                (next, TokenizeState::Static(pos as usize), false, None)
            },
            TokenizeState::Eof => (pos, st, true, None),
        }
    }
}

/// One call of [`Tokenizer::next`] from position `pos` in state `st`.
pub open spec fn tz_next(src: Seq<char>, pos: int, st: TokenizeState) -> (int, TokenizeState, Option<(bool, int, int)>)
    decreases src.len() - pos,
{
    let (pos2, st2, done, tok) = tz_step(src, pos, st);
    if done || pos2 <= pos || pos < 0 {
        (pos2, st2, tok)
    } else {
        tz_next(src, pos2, st2)
    }
}

/// The positions held by a state are sound at position `pos`.
pub open spec fn tz_state_wf(st: TokenizeState, pos: int) -> bool {
    match st {
        TokenizeState::Static(start) | TokenizeState::Expr(start) => start <= pos,
        TokenizeState::OpenExpr(start) => start < pos,
        TokenizeState::CloseExpr(start) => start < pos,
        _ => 0 < pos,
    }
}

/// A tokenizer where the source ownership is held by the caller.
pub struct Tokenizer<'a> {
    source: &'a str,
    chars: Vec<char>,
    pos: usize,
    state: TokenizeState,
}

impl<'a> Tokenizer<'a> {
    pub closed spec fn spec_source(&self) -> &'a str {
        self.source
    }

    pub closed spec fn spec_pos(&self) -> int {
        self.pos as int
    }

    pub closed spec fn spec_state(&self) -> TokenizeState {
        self.state
    }

    pub closed spec fn wf(&self) -> bool {
        &&& self.chars@ == self.source@
        &&& self.chars@.len() < usize::MAX
        &&& self.pos <= self.chars@.len()
        &&& (self.state is Eof || tz_state_wf(self.state, self.pos as int))
    }

    /// Create new [`Tokenizer`].
    pub fn new(source: &'a str) -> (r: Tokenizer<'a>)
        requires
            source@.len() < usize::MAX,
        ensures
            r.wf(),
            r.spec_source() == source,
            r.spec_pos() == 0,
            r.spec_state() == TokenizeState::Static(0),
    {
        Tokenizer { source, chars: chars_of(source), pos: 0, state: TokenizeState::Static(0) }
    }

    /// The token for positions `start..end` of the source.
    fn make(&self, is_static: bool, start: usize, end: usize) -> (r: Token<'a>)
        requires
            self.wf(),
            start <= end <= self.chars@.len(),
        ensures
            token_view(r) == (is_static, self.source@.subrange(start as int, end as int)),
    {
        let text = slice(self.source, start, end);
        if is_static {
            Token::Static(text)
        } else {
            Token::Expr(text)
        }
    }

    fn step(&mut self) -> (r: (bool, Option<Token<'a>>))
        requires
            old(self).wf(),
        ensures
            final(self).wf(),
            final(self).source == old(self).source,
            final(self).chars@ == old(self).chars@,
            ({
                let (pos2, st2, done, tok) = tz_step(old(self).chars@, old(self).pos as int, old(self).state);
                &&& pos2 == final(self).pos
                &&& st2 == final(self).state
                &&& done == r.0
                &&& match (tok, r.1) {
                    (Some((k, a, b)), Some(t)) => 0 <= a <= b <= old(self).chars@.len() && token_view(t) == (k, old(self).chars@.subrange(a, b)),
                    (None, None) => true,
                    _ => false,
                }
            }),
            !r.0 ==> final(self).pos > old(self).pos,
    {
        let len = self.chars.len();
        let pos = self.pos;
        if pos >= len {
            match self.state {
                TokenizeState::Static(start) | TokenizeState::OpenExpr(start) => {
                    if start < len {
                        self.state = TokenizeState::Eof;
                        (true, Some(self.make(true, start, len)))
                    } else {
                        (true, None)
                    }
                },
                TokenizeState::Expr(start) => {
                    if start < len {
                        self.state = TokenizeState::Eof;
                        (true, Some(self.make(false, start, len)))
                    } else {
                        (true, None)
                    }
                },
                TokenizeState::CloseExpr(start) => {
                    let (a, b) = trim_range(&self.chars, start, len);
                    if a < b {
                        self.state = TokenizeState::Eof;
                        (true, Some(self.make(false, a, b)))
                    } else {
                        (true, None)
                    }
                },
                _ => (true, None),
            }
        } else {
            let c = self.chars[pos];
            match self.state {
                TokenizeState::Static(start) => {
                    self.pos = pos + 1;
                    if c == '{' {
                        self.state = TokenizeState::OpenExpr(start);
                    }
                    (false, None)
                },
                TokenizeState::Expr(start) => {
                    self.pos = pos + 1;
                    if c == '}' {
                        self.state = TokenizeState::CloseExpr(start);
                    }
                    (false, None)
                },
                TokenizeState::OpenExpr(start) => {
                    self.pos = pos + 1;
                    if c == '{' {
                        self.state = TokenizeState::StartExpr;
                        if start < pos - 1 {
                            (true, Some(self.make(true, start, pos - 1)))
                        } else {
                            (false, None)
                        }
                    } else {
                        self.state = TokenizeState::Static(start);
                        (false, None)
                    }
                },
                TokenizeState::CloseExpr(start) => {
                    self.pos = pos + 1;
                    if c == '}' {
                        self.state = TokenizeState::EndExpr;
                        let (a, b) = trim_range(&self.chars, start, pos - 1);
                        if a < b {
                            (true, Some(self.make(false, a, b)))
                        } else {
                            (false, None)
                        }
                    } else {
                        self.state = TokenizeState::Expr(start);
                        (false, None)
                    }
                },
                TokenizeState::StartExpr => {
                    self.pos = pos + 1;
                    if c == '}' {
                        self.state = TokenizeState::CloseExpr(pos);
                    } else {
                        self.state = TokenizeState::Expr(pos);
                    }
                    (false, None)
                },
                TokenizeState::EndExpr => {
                    self.pos = pos + 1;
                    if c == '{' {
                        self.state = TokenizeState::OpenExpr(pos);
                    } else {
                        self.state = TokenizeState::Static(pos);
                    }
                    (false, None)
                },
                TokenizeState::Eof => (true, None),
            }
        }
    }

    /// The next token, or [`None`] when the source is exhausted.
    pub fn next(&mut self) -> (r: Option<Token<'a>>)
        requires
            old(self).wf(),
        ensures
            final(self).wf(),
            final(self).spec_source() == old(self).spec_source(),
            ({
                let (pos2, st2, tok) = tz_next(old(self).spec_source()@, old(self).spec_pos(), old(self).spec_state());
                &&& pos2 == final(self).spec_pos()
                &&& st2 == final(self).spec_state()
                &&& match (tok, r) {
                    (Some((k, a, b)), Some(t)) => 0 <= a <= b <= old(self).spec_source()@.len() && token_view(t) == (k, old(self).spec_source()@.subrange(a, b)),
                    (None, None) => true,
                    _ => false,
                }
            }),
    {
        let ghost target = tz_next(self.chars@, self.pos as int, self.state);
        let mut result: Option<Token<'a>> = None;
        loop
            invariant_except_break
                tz_next(self.chars@, self.pos as int, self.state) == target,
            invariant
                self.wf(),
                self.source == old(self).source,
                self.chars@ == old(self).chars@,
            ensures
                target.0 == self.pos,
                target.1 == self.state,
                match (target.2, result) {
                    (Some((k, a, b)), Some(t)) => 0 <= a <= b <= self.chars@.len() && token_view(t) == (k, self.chars@.subrange(a, b)),
                    (None, None) => true,
                    _ => false,
                },
            decreases self.chars@.len() - self.pos,
        {
            let ghost here = tz_next(self.chars@, self.pos as int, self.state);
            let (done, tok) = self.step();
            if done {
                result = tok;
                break;
            }
        }
        result
    }
}

} // verus!
