//! Flat, one dimensional template statements: each `{{ }}` on its own,
//! without scopes.
//!
//! ```text
//! {{ if <Expr> }} {{ else [if <Expr>] }}
//! {{ match <Expr> }} {{ case <Pat> [if <Expr>] }}
//! {{ for <Pat> in <Expr> }} {{ while <Expr> }} {{ loop }}
//! {{ break .. }} {{ continue .. }} {{ const { .. } }} {{ let <Pat> = <Expr> }}
//! {{ end }} {{ <Expr> }}
//! ```
use vstd::prelude::*;
use crate::lexer::{
    AtomV, Tok, TokKind, TokV, is_rust_expr, is_rust_pat, join, lex, parses_as_expr, parses_as_pat,
    span_atoms, toks_ok, toks_view,
};
use crate::parser::ParseError;
use crate::syntax::{find_word, is_word, opt_view, text_of};
use crate::text::owned;
use crate::tokenizer::Token;

verus! {

/// `if <Expr>`
#[derive(Debug)]
pub struct TemplIf {
    pub cond: String,
}

/// `else [if <Expr>]`
#[derive(Debug)]
pub struct TemplElse {
    pub if_branch: Option<String>,
}

/// `match <Expr>`
#[derive(Debug)]
pub struct TemplMatch {
    pub expr: String,
}

/// `case <Pat> [if <Expr>]`
#[derive(Debug)]
pub struct TemplCase {
    pub pat: String,
    pub guard: Option<String>,
}

/// `for <Pat> in <Expr>`
#[derive(Debug)]
pub struct TemplForLoop {
    pub pat: String,
    pub expr: String,
}

/// `while <Expr>`
#[derive(Debug)]
pub struct TemplWhile {
    pub cond: String,
}

/// `loop`
#[derive(Debug)]
pub struct TemplLoop;

/// `end`
#[derive(Debug)]
pub struct End;

/// Single statement inside a `{{ }}` block, or a static template.
#[derive(Debug)]
pub enum TemplStmt {
    Static(String),
    // if branching
    If(TemplIf),
    Else(TemplElse),
    // match branching
    Match(TemplMatch),
    Case(TemplCase),
    // iterations
    ForLoop(TemplForLoop),
    While(TemplWhile),
    Loop(TemplLoop),
    // control flow, by source text
    Break(String),
    Continue(String),
    // declarations, by source text
    Const(String),
    Let(String),
    // renderable value
    Value(String),
    // termination
    End(End),
}

/// The view of a flat statement.
pub enum FlatV {
    Static(Seq<char>),
    If(Seq<char>),
    Else(Option<Seq<char>>),
    Match(Seq<char>),
    Case(Seq<char>, Option<Seq<char>>),
    ForLoop(Seq<char>, Seq<char>),
    While(Seq<char>),
    Loop,
    Break(Seq<char>),
    Continue(Seq<char>),
    Const(Seq<char>),
    Let(Seq<char>),
    Value(Seq<char>),
    End,
}

impl View for TemplStmt {
    type V = FlatV;

    open spec fn view(&self) -> FlatV {
        match self {
            TemplStmt::Static(s) => FlatV::Static(s@),
            TemplStmt::If(t) => FlatV::If(t.cond@),
            TemplStmt::Else(t) => FlatV::Else(opt_view(t.if_branch)),
            TemplStmt::Match(t) => FlatV::Match(t.expr@),
            TemplStmt::Case(t) => FlatV::Case(t.pat@, opt_view(t.guard)),
            TemplStmt::ForLoop(t) => FlatV::ForLoop(t.pat@, t.expr@),
            TemplStmt::While(t) => FlatV::While(t.cond@),
            TemplStmt::Loop(_) => FlatV::Loop,
            TemplStmt::Break(s) => FlatV::Break(s@),
            TemplStmt::Continue(s) => FlatV::Continue(s@),
            TemplStmt::Const(s) => FlatV::Const(s@),
            TemplStmt::Let(s) => FlatV::Let(s@),
            TemplStmt::Value(s) => FlatV::Value(s@),
            TemplStmt::End(_) => FlatV::End,
        }
    }
}

/// Whether `syn` parses tokens `a` as a pattern without a top-level `|`
/// (`syn::Pat::parse_single`).
pub uninterp spec fn is_single_pat(a: Seq<AtomV>) -> bool;

/// Whether `syn` parses tokens `a` as a `break` expression (`syn::ExprBreak`).
pub uninterp spec fn is_expr_break(a: Seq<AtomV>) -> bool;

/// Whether `syn` parses tokens `a` as a `continue` expression (`syn::ExprContinue`).
pub uninterp spec fn is_expr_continue(a: Seq<AtomV>) -> bool;

/// Whether `syn` parses tokens `a` as a `const` block (`syn::ExprConst`).
pub uninterp spec fn is_expr_const(a: Seq<AtomV>) -> bool;

/// Whether `syn` parses tokens `a` as a `let` expression (`syn::ExprLet`).
pub uninterp spec fn is_expr_let(a: Seq<AtomV>) -> bool;

/// `syn::Pat::parse_single` on the stream of trees `toks[from..to]`; named
/// by [`is_single_pat`].
#[verifier::external_body]
fn parses_as_single_pat(toks: &Vec<Tok>, from: usize, to: usize) -> (r: bool)
    requires
        from <= to <= toks@.len(),
    ensures
        r == is_single_pat(span_atoms(toks_view(toks@), from as int, to as int)),
{
    let stream: proc_macro2::TokenStream = toks[from..to].iter().map(|t| t.tree.clone()).collect();
    syn::parse::Parser::parse2(syn::Pat::parse_single, stream).is_ok()
}

/// `syn::parse2::<syn::ExprBreak>` on the stream of trees `toks[from..to]`;
/// named by [`is_expr_break`].
#[verifier::external_body]
fn parses_as_break(toks: &Vec<Tok>, from: usize, to: usize) -> (r: bool)
    requires
        from <= to <= toks@.len(),
    ensures
        r == is_expr_break(span_atoms(toks_view(toks@), from as int, to as int)),
{
    syn::parse2::<syn::ExprBreak>(toks[from..to].iter().map(|t| t.tree.clone()).collect()).is_ok()
}

/// `syn::parse2::<syn::ExprContinue>` on the stream of trees `toks[from..to]`;
/// named by [`is_expr_continue`].
#[verifier::external_body]
fn parses_as_continue(toks: &Vec<Tok>, from: usize, to: usize) -> (r: bool)
    requires
        from <= to <= toks@.len(),
    ensures
        r == is_expr_continue(span_atoms(toks_view(toks@), from as int, to as int)),
{
    syn::parse2::<syn::ExprContinue>(toks[from..to].iter().map(|t| t.tree.clone()).collect()).is_ok()
}

/// `syn::parse2::<syn::ExprConst>` on the stream of trees `toks[from..to]`;
/// named by [`is_expr_const`].
#[verifier::external_body]
fn parses_as_const(toks: &Vec<Tok>, from: usize, to: usize) -> (r: bool)
    requires
        from <= to <= toks@.len(),
    ensures
        r == is_expr_const(span_atoms(toks_view(toks@), from as int, to as int)),
{
    syn::parse2::<syn::ExprConst>(toks[from..to].iter().map(|t| t.tree.clone()).collect()).is_ok()
}

/// `syn::parse2::<syn::ExprLet>` on the stream of trees `toks[from..to]`;
/// named by [`is_expr_let`].
#[verifier::external_body]
fn parses_as_let(toks: &Vec<Tok>, from: usize, to: usize) -> (r: bool)
    requires
        from <= to <= toks@.len(),
    ensures
        r == is_expr_let(span_atoms(toks_view(toks@), from as int, to as int)),
{
    syn::parse2::<syn::ExprLet>(toks[from..to].iter().map(|t| t.tree.clone()).collect()).is_ok()
}

/// A statement that holds all of tokens `ts` when `ok` holds.
pub open spec fn whole(ok: bool, s: FlatV) -> Option<FlatV> {
    if ok {
        Some(s)
    } else {
        None
    }
}

/// The flat statement that tokens `ts` form, or `None` when they form none.
pub open spec fn spec_flat(ts: Seq<TokV>) -> Option<FlatV> {
    let n = ts.len() as int;
    if n >= 1 && is_word(ts[0], "if"@) {
        whole(is_rust_expr(span_atoms(ts, 1, n)), FlatV::If(text_of(ts, 1, n)))
    } else if n >= 1 && is_word(ts[0], "else"@) {
        if n == 1 {
            Some(FlatV::Else(None))
        } else if is_word(ts[1], "if"@) && is_rust_expr(span_atoms(ts, 2, n)) {
            Some(FlatV::Else(Some(text_of(ts, 2, n))))
        } else {
            None
        }
    } else if n >= 1 && is_word(ts[0], "match"@) {
        whole(is_rust_expr(span_atoms(ts, 1, n)), FlatV::Match(text_of(ts, 1, n)))
    } else if n >= 1 && is_word(ts[0], "case"@) {
        let k = find_word(ts, 1, "if"@);
        if k < n {
            whole(
                is_rust_pat(span_atoms(ts, 1, k)) && is_rust_expr(span_atoms(ts, k + 1, n)),
                FlatV::Case(text_of(ts, 1, k), Some(text_of(ts, k + 1, n))),
            )
        } else {
            whole(is_rust_pat(span_atoms(ts, 1, n)), FlatV::Case(text_of(ts, 1, n), None))
        }
    } else if n >= 1 && is_word(ts[0], "for"@) {
        let k = find_word(ts, 1, "in"@);
        whole(
            k < n && is_single_pat(span_atoms(ts, 1, k)) && is_rust_expr(span_atoms(ts, k + 1, n)),
            FlatV::ForLoop(text_of(ts, 1, k), text_of(ts, k + 1, n)),
        )
    } else if n >= 1 && is_word(ts[0], "while"@) {
        whole(is_rust_expr(span_atoms(ts, 1, n)), FlatV::While(text_of(ts, 1, n)))
    } else if n >= 1 && is_word(ts[0], "loop"@) {
        whole(n == 1, FlatV::Loop)
    } else if n >= 1 && is_word(ts[0], "break"@) {
        whole(is_expr_break(span_atoms(ts, 0, n)), FlatV::Break(text_of(ts, 0, n)))
    } else if n >= 1 && is_word(ts[0], "continue"@) {
        whole(is_expr_continue(span_atoms(ts, 0, n)), FlatV::Continue(text_of(ts, 0, n)))
    } else if n >= 1 && is_word(ts[0], "const"@) {
        whole(is_expr_const(span_atoms(ts, 0, n)), FlatV::Const(text_of(ts, 0, n)))
    } else if n >= 1 && is_word(ts[0], "let"@) {
        whole(is_expr_let(span_atoms(ts, 0, n)), FlatV::Let(text_of(ts, 0, n)))
    } else if n >= 1 && is_word(ts[0], "end"@) {
        whole(n == 1, FlatV::End)
    } else {
        whole(is_rust_expr(span_atoms(ts, 0, n)), FlatV::Value(text_of(ts, 0, n)))
    }
}

/// Whether flat statement `f` is the statement of some tokens that lexing
/// can give back.
pub open spec fn lexed_flat(f: FlatV) -> bool {
    exists|ts: Seq<TokV>| toks_ok(ts) && spec_flat(ts) == Some(f)
}

/// The message of an expression that forms no statement.
pub open spec fn flat_error_message() -> Seq<char> {
    "failed to parse statement"@
}

fn word(t: &Tok, w: &str) -> (r: bool)
    ensures
        r == is_word(t@, w@),
{
    t.kind == TokKind::Ident && crate::text::str_eq(t.text.as_str(), w)
}

fn find_word_in(toks: &Vec<Tok>, from: usize, w: &str) -> (r: usize)
    requires
        from <= toks@.len(),
    ensures
        r == find_word(toks_view(toks@), from as int, w@),
        from <= r <= toks@.len(),
{
    let mut i = from;
    while i < toks.len()
        invariant
            from <= i <= toks@.len(),
            find_word(toks_view(toks@), i as int, w@) == find_word(toks_view(toks@), from as int, w@),
        decreases toks@.len() - i,
    {
        if word(&toks[i], w) {
            return i;
        }
        i = i + 1;
    }
    i
}

fn when(ok: bool, s: TemplStmt) -> (r: Option<TemplStmt>)
    ensures
        match r {
            Some(x) => ok && x@ == s@,
            None => !ok,
        },
{
    if ok {
        Some(s)
    } else {
        None
    }
}

/// The flat statement that tokens `toks` form.
pub fn parse_toks(toks: &Vec<Tok>) -> (r: Option<TemplStmt>)
    ensures
        match r {
            Some(s) => spec_flat(toks_view(toks@)) == Some(s@),
            None => spec_flat(toks_view(toks@)) is None,
        },
{
    let n = toks.len();
    if n >= 1 && word(&toks[0], "if") {
        let cond = join(toks, 1, n);
        let ok = parses_as_expr(toks, 1, n);
        return when(ok, TemplStmt::If(TemplIf { cond }));
    }
    if n >= 1 && word(&toks[0], "else") {
        if n == 1 {
            return Some(TemplStmt::Else(TemplElse { if_branch: None }));
        }
        if word(&toks[1], "if") {
            let cond = join(toks, 2, n);
            if parses_as_expr(toks, 2, n) {
                return Some(TemplStmt::Else(TemplElse { if_branch: Some(cond) }));
            }
        }
        return None;
    }
    if n >= 1 && word(&toks[0], "match") {
        let expr = join(toks, 1, n);
        let ok = parses_as_expr(toks, 1, n);
        return when(ok, TemplStmt::Match(TemplMatch { expr }));
    }
    if n >= 1 && word(&toks[0], "case") {
        let k = find_word_in(toks, 1, "if");
        if k < n {
            let pat = join(toks, 1, k);
            let guard = join(toks, k + 1, n);
            let ok = parses_as_pat(toks, 1, k) && parses_as_expr(toks, k + 1, n);
            return when(ok, TemplStmt::Case(TemplCase { pat, guard: Some(guard) }));
        } else {
            let pat = join(toks, 1, n);
            let ok = parses_as_pat(toks, 1, n);
            return when(ok, TemplStmt::Case(TemplCase { pat, guard: None }));
        }
    }
    if n >= 1 && word(&toks[0], "for") {
        let k = find_word_in(toks, 1, "in");
        if k < n {
            let pat = join(toks, 1, k);
            let expr = join(toks, k + 1, n);
            let ok = parses_as_single_pat(toks, 1, k) && parses_as_expr(toks, k + 1, n);
            return when(ok, TemplStmt::ForLoop(TemplForLoop { pat, expr }));
        }
        return None;
    }
    if n >= 1 && word(&toks[0], "while") {
        let cond = join(toks, 1, n);
        let ok = parses_as_expr(toks, 1, n);
        return when(ok, TemplStmt::While(TemplWhile { cond }));
    }
    if n >= 1 && word(&toks[0], "loop") {
        return when(n == 1, TemplStmt::Loop(TemplLoop));
    }
    let text = join(toks, 0, n);
    if n >= 1 && word(&toks[0], "break") {
        let ok = parses_as_break(toks, 0, n);
        return when(ok, TemplStmt::Break(text));
    }
    if n >= 1 && word(&toks[0], "continue") {
        let ok = parses_as_continue(toks, 0, n);
        return when(ok, TemplStmt::Continue(text));
    }
    if n >= 1 && word(&toks[0], "const") {
        let ok = parses_as_const(toks, 0, n);
        return when(ok, TemplStmt::Const(text));
    }
    if n >= 1 && word(&toks[0], "let") {
        let ok = parses_as_let(toks, 0, n);
        return when(ok, TemplStmt::Let(text));
    }
    if n >= 1 && word(&toks[0], "end") {
        return when(n == 1, TemplStmt::End(End));
    }
    let ok = parses_as_expr(toks, 0, n);
    when(ok, TemplStmt::Value(text))
}

/// Parses the source of an expression as a flat statement: lexes it with
/// `proc_macro2`, then reads the statement the tokens form
/// ([`parse_toks`]). What the lexer gives back depends on the process, so
/// the statement is stated to be one that some lexed tokens form.
pub fn tokenize_expr(source: &str) -> (r: Result<TemplStmt, ParseError>)
    ensures
        match r {
            Ok(s) => lexed_flat(s@),
            Err(e) => e.spec_message() == flat_error_message(),
        },
{
    match lex(source) {
        Some(toks) => match parse_toks(&toks) {
            Some(s) => {
                assert(toks_ok(toks_view(toks@)) && spec_flat(toks_view(toks@)) == Some(s@));
                Ok(s)
            },
            None => Err(ParseError::Generic(String::from_str("failed to parse statement"))),
        },
        None => Err(ParseError::Generic(String::from_str("failed to parse statement"))),
    }
}

/// Whether `f` can be the flat statement of token `t`: static content as it
/// is, for an expression a statement some lexed tokens form.
pub open spec fn token_stmt(t: (bool, Seq<char>), f: FlatV) -> bool {
    if t.0 {
        f == FlatV::Static(t.1)
    } else {
        lexed_flat(f)
    }
}

/// Parses every token in order; fails at the first expression that forms no
/// statement.
pub fn parse(tokens: &Vec<Token<'_>>) -> (r: Result<Vec<TemplStmt>, ParseError>)
    ensures
        match r {
            Ok(v) => v@.len() == tokens@.len() && forall|k: int| 0 <= k < tokens@.len()
                ==> token_stmt(crate::tokenizer::token_view(#[trigger] tokens@[k]), v@[k]@),
            Err(e) => e.spec_message() == flat_error_message() && exists|k: int| 0 <= k < tokens@.len()
                && !(#[trigger] crate::tokenizer::token_view(tokens@[k])).0,
        },
{
    let mut output: Vec<TemplStmt> = Vec::new();
    let mut k: usize = 0;
    while k < tokens.len()
        invariant
            k <= tokens@.len(),
            output@.len() == k,
            forall|j: int| 0 <= j < k ==> token_stmt(crate::tokenizer::token_view(#[trigger] tokens@[j]), output@[j]@),
        decreases tokens@.len() - k,
    {
        match &tokens[k] {
            Token::Static(val) => {
                output.push(TemplStmt::Static(owned(val)));
            },
            Token::Expr(val) => {
                let stmt = match tokenize_expr(val) {
                    Ok(s) => s,
                    Err(e) => {
                        assert(!crate::tokenizer::token_view(tokens@[k as int]).0);
                        return Err(e);
                    },
                };
                output.push(stmt);
            },
        }
        k = k + 1;
    }
    Ok(output)
}

/// Parses tokens one by one.
pub struct Parser<'a> {
    tokens: Vec<Token<'a>>,
    pos: usize,
}

impl<'a> Parser<'a> {
    /// A parser over `tokens`.
    pub fn new(tokens: Vec<Token<'a>>) -> (r: Parser<'a>)
        ensures
            r.spec_tokens() == tokens@,
            r.spec_pos() == 0,
    {
        Parser { tokens, pos: 0 }
    }

    pub closed spec fn spec_tokens(&self) -> Seq<Token<'a>> {
        self.tokens@
    }

    pub closed spec fn spec_pos(&self) -> int {
        self.pos as int
    }

    /// The statement of the next token, if any is left.
    pub fn next(&mut self) -> (r: Option<Result<TemplStmt, ParseError>>)
        requires
            old(self).spec_pos() <= old(self).spec_tokens().len(),
        ensures
            final(self).spec_tokens() == old(self).spec_tokens(),
            final(self).spec_pos() <= final(self).spec_tokens().len(),
            old(self).spec_pos() == old(self).spec_tokens().len() ==> r is None && final(self).spec_pos() == old(self).spec_pos(),
            old(self).spec_pos() < old(self).spec_tokens().len() ==> final(self).spec_pos() == old(self).spec_pos() + 1
                && match r {
                    Some(Ok(s)) => token_stmt(crate::tokenizer::token_view(old(self).spec_tokens()[old(self).spec_pos()]), s@),
                    Some(Err(e)) => !crate::tokenizer::token_view(old(self).spec_tokens()[old(self).spec_pos()]).0
                        && e.spec_message() == flat_error_message(),
                    None => false,
                },
    {
        if self.pos >= self.tokens.len() {
            return None;
        }
        let k = self.pos;
        self.pos = self.pos + 1;
        match &self.tokens[k] {
            Token::Static(val) => Some(Ok(TemplStmt::Static(owned(val)))),
            Token::Expr(val) => Some(tokenize_expr(val)),
        }
    }
}

} // verus!
