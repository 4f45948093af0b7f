//! Syntax of template statements, the contents of `{{ }}`.
//!
//! ```text
//! {{ layout "path" }} | {{ extends "path" }}
//! {{ use "path" as Ident }}
//! {{ render Ident | "path" [block Ident] }}
//! {{ [pub] [static] block Ident }} ... {{ endblock }}
//! {{ if Expr }} ... {{ else if Expr }} ... {{ else }} ... {{ endif }}
//! {{ for Pat in Expr }} ... {{ else }} ... {{ endfor }}
//! {{ yield }}
//! {{ use ...[;] }} | {{ const ...; }}
//! {{ Expr }}
//! ```
use vstd::prelude::*;
use crate::lexer::{
    TokKind, Tok, TokV, is_item_const, is_item_use, is_rust_expr, is_rust_pat, is_use_tree, join,
    join_toks, lex, lit_str_value, parse_lit_str, parses_as_expr, parses_as_item_const,
    parses_as_item_use, parses_as_pat, parses_as_use_tree, span_atoms, toks_ok, toks_view,
};
use crate::parser::ParseError;
use crate::text::{copy_string, push_char, str_eq};

verus! {

/// `{{ <layout | extends> <"path"> }}`
#[derive(Debug)]
pub struct LayoutTempl {
    pub path: String,
}

/// `{{ use <"path"> as <Ident> }}`
#[derive(Debug)]
pub struct UseTempl {
    pub path: String,
    pub ident: String,
}

/// `<Ident> | "path"`
#[derive(Debug)]
pub enum RenderValue {
    Ident(String),
    Path(String),
}

/// `{{ render <<Ident> | "path"> [block <Ident>] }}`
#[derive(Debug)]
pub struct RenderTempl {
    pub value: RenderValue,
    pub block: Option<String>,
}

/// `{{ [pub] [static] block <Ident> }}`
#[derive(Debug)]
pub struct BlockTempl {
    pub pub_token: bool,
    pub static_token: bool,
    pub name: String,
}

/// `{{ if <Expr> }}`
#[derive(Debug)]
pub struct IfTempl {
    pub cond: String,
}

/// `{{ else [if <Expr>] }}`
#[derive(Debug)]
pub struct ElseTempl {
    pub elif_branch: Option<String>,
}

/// `{{ for <Pat> in <Expr> }}`
#[derive(Debug)]
pub struct ForTempl {
    pub pat: String,
    pub expr: String,
}

/// `{{ <ItemTempl> }}`: a Rust `use` or `const` item. The `;` that ends a
/// `use` item may be left out: the item then holds it.
#[derive(Debug)]
pub enum ItemTempl {
    Use(String),
    Const(String),
}

/// Template statements.
#[derive(Debug)]
pub enum StmtSyn {
    /// `{{ <layout | extends> <"path"> }}`
    Layout(LayoutTempl),
    /// `{{ use <"path"> as <Ident> }}`
    Use(UseTempl),
    /// `{{ render <<Ident> | "path"> [block <Ident>] }}`
    Render(RenderTempl),
    /// `{{ [pub] [static] block <Ident> }}`
    Block(BlockTempl),
    /// `{{ if <Expr> }}`
    If(IfTempl),
    /// `{{ else [if <Expr>] }}`
    Else(ElseTempl),
    /// `{{ for <Pat> in <Expr> }}`
    For(ForTempl),
    /// `{{ endblock }}`
    Endblock,
    /// `{{ endif }}`
    EndIf,
    /// `{{ endfor }}`
    EndFor,
    /// `{{ yield }}`
    Yield,
    /// `{{ <ItemTempl> }}`
    Item(ItemTempl),
    /// `{{ <Expr> }}`
    Expr(String),
}

/// The view of a render target.
pub enum RenderValueV {
    Ident(Seq<char>),
    Path(Seq<char>),
}

/// The view of a template statement.
pub enum StmtV {
    Layout(Seq<char>),
    Use(Seq<char>, Seq<char>),
    Render(RenderValueV, Option<Seq<char>>),
    Block(bool, bool, Seq<char>),
    If(Seq<char>),
    Else(Option<Seq<char>>),
    For(Seq<char>, Seq<char>),
    Endblock,
    EndIf,
    EndFor,
    Yield,
    ItemUse(Seq<char>),
    ItemConst(Seq<char>),
    Expr(Seq<char>),
}

pub open spec fn opt_view(o: Option<String>) -> Option<Seq<char>> {
    match o {
        Some(s) => Some(s@),
        None => None,
    }
}

impl View for RenderValue {
    type V = RenderValueV;

    open spec fn view(&self) -> RenderValueV {
        match self {
            RenderValue::Ident(s) => RenderValueV::Ident(s@),
            RenderValue::Path(s) => RenderValueV::Path(s@),
        }
    }
}

impl View for StmtSyn {
    type V = StmtV;

    open spec fn view(&self) -> StmtV {
        match self {
            StmtSyn::Layout(l) => StmtV::Layout(l.path@),
            StmtSyn::Use(u) => StmtV::Use(u.path@, u.ident@),
            StmtSyn::Render(r) => StmtV::Render(r.value@, opt_view(r.block)),
            StmtSyn::Block(b) => StmtV::Block(b.pub_token, b.static_token, b.name@),
            StmtSyn::If(i) => StmtV::If(i.cond@),
            StmtSyn::Else(e) => StmtV::Else(opt_view(e.elif_branch)),
            StmtSyn::For(f) => StmtV::For(f.pat@, f.expr@),
            StmtSyn::Endblock => StmtV::Endblock,
            StmtSyn::EndIf => StmtV::EndIf,
            StmtSyn::EndFor => StmtV::EndFor,
            StmtSyn::Yield => StmtV::Yield,
            StmtSyn::Item(ItemTempl::Use(s)) => StmtV::ItemUse(s@),
            StmtSyn::Item(ItemTempl::Const(s)) => StmtV::ItemConst(s@),
            StmtSyn::Expr(s) => StmtV::Expr(s@),
        }
    }
}

/// Token `t` is the identifier or keyword `w`.
pub open spec fn is_word(t: TokV, w: Seq<char>) -> bool {
    t.0 == TokKind::Ident && t.1 == w
}

/// The value of token `t` as a string literal, if it is one.
pub open spec fn str_lit(t: TokV) -> Option<Seq<char>> {
    if t.0 == TokKind::Literal {
        lit_str_value(t.3)
    } else {
        None
    }
}

/// The first position at or after `i` where `ts` holds the word `w`, or the length.
pub open spec fn find_word(ts: Seq<TokV>, i: int, w: Seq<char>) -> int
    decreases ts.len() - i,
{
    if i < 0 || i >= ts.len() {
        ts.len() as int
    } else if is_word(ts[i], w) {
        i
    } else {
        find_word(ts, i + 1, w)
    }
}

/// The text of tokens `ts[a..b]`.
pub open spec fn text_of(ts: Seq<TokV>, a: int, b: int) -> Seq<char> {
    join_toks(ts.subrange(a, b))
}

/// `[pub] [static] block` starts the tokens.
pub open spec fn block_peek(ts: Seq<TokV>) -> bool {
    let n = ts.len();
    ||| (n >= 3 && is_word(ts[0], "pub"@) && is_word(ts[1], "static"@) && is_word(ts[2], "block"@))
    ||| (n >= 2 && is_word(ts[0], "pub"@) && is_word(ts[1], "block"@))
    ||| (n >= 2 && is_word(ts[0], "static"@) && is_word(ts[1], "block"@))
    ||| (n >= 1 && is_word(ts[0], "block"@))
}

/// The render target of token `t`, if any.
pub open spec fn render_value(t: TokV) -> Option<RenderValueV> {
    match str_lit(t) {
        Some(p) => Some(RenderValueV::Path(p)),
        None => if t.0 == TokKind::Ident {
            Some(RenderValueV::Ident(t.1))
        } else {
            None
        },
    }
}

/// The statement that tokens `ts` form, or `None` when they form none.
pub open spec fn spec_stmt(ts: Seq<TokV>) -> Option<StmtV> {
    let n = ts.len();
    if n >= 1 && (is_word(ts[0], "layout"@) || is_word(ts[0], "extends"@)) {
        if n == 2 && str_lit(ts[1]) is Some {
            Some(StmtV::Layout(str_lit(ts[1])->0))
        } else {
            None
        }
    } else if n >= 2 && is_word(ts[0], "use"@) && str_lit(ts[1]) is Some {
        if n == 4 && is_word(ts[2], "as"@) && ts[3].0 == TokKind::Ident {
            Some(StmtV::Use(str_lit(ts[1])->0, ts[3].1))
        } else {
            None
        }
    } else if n >= 1 && is_word(ts[0], "render"@) {
        if n >= 2 && render_value(ts[1]) is Some {
            if n == 2 {
                Some(StmtV::Render(render_value(ts[1])->0, None))
            } else if n == 4 && is_word(ts[2], "block"@) && ts[3].0 == TokKind::Ident {
                Some(StmtV::Render(render_value(ts[1])->0, Some(ts[3].1)))
            } else {
                None
            }
        } else {
            None
        }
    } else if block_peek(ts) {
        let i0: int = if is_word(ts[0], "pub"@) { 1 } else { 0 };
        let i1: int = if n > i0 && is_word(ts[i0], "static"@) { i0 + 1 } else { i0 };
        if n == i1 + 2 && is_word(ts[i1], "block"@) && ts[i1 + 1].0 == TokKind::Ident {
            Some(StmtV::Block(i0 == 1, i1 > i0, ts[i1 + 1].1))
        } else {
            None
        }
    } else if n >= 1 && is_word(ts[0], "if"@) {
        if is_rust_expr(span_atoms(ts, 1, n as int)) {
            Some(StmtV::If(text_of(ts, 1, n as int)))
        } else {
            None
        }
    } else if n >= 1 && is_word(ts[0], "else"@) {
        if n == 1 {
            Some(StmtV::Else(None))
        } else if is_word(ts[1], "if"@) && is_rust_expr(span_atoms(ts, 2, n as int)) {
            Some(StmtV::Else(Some(text_of(ts, 2, n as int))))
        } else {
            None
        }
    } else if n >= 1 && is_word(ts[0], "for"@) {
        let k = find_word(ts, 1, "in"@);
        if k < n && is_rust_pat(span_atoms(ts, 1, k)) && is_rust_expr(span_atoms(ts, k + 1, n as int)) {
            Some(StmtV::For(text_of(ts, 1, k), text_of(ts, k + 1, n as int)))
        } else {
            None
        }
    } else if n >= 1 && is_word(ts[0], "endblock"@) {
        if n == 1 { Some(StmtV::Endblock) } else { None }
    } else if n >= 1 && is_word(ts[0], "endif"@) {
        if n == 1 { Some(StmtV::EndIf) } else { None }
    } else if n >= 1 && is_word(ts[0], "endfor"@) {
        if n == 1 { Some(StmtV::EndFor) } else { None }
    } else if n >= 1 && is_word(ts[0], "yield"@) {
        if n == 1 { Some(StmtV::Yield) } else { None }
    } else if n >= 1 && is_word(ts[0], "use"@) {
        if is_item_use(span_atoms(ts, 0, n as int)) {
            Some(StmtV::ItemUse(text_of(ts, 0, n as int)))
        } else if is_use_tree(span_atoms(ts, 1, n as int)) {
            Some(StmtV::ItemUse(text_of(ts, 0, n as int).push(';')))
        } else {
            None
        }
    } else if n >= 1 && is_word(ts[0], "const"@) {
        if is_item_const(span_atoms(ts, 0, n as int)) {
            Some(StmtV::ItemConst(text_of(ts, 0, n as int)))
        } else {
            None
        }
    } else if is_rust_expr(span_atoms(ts, 0, n as int)) {
        Some(StmtV::Expr(text_of(ts, 0, n as int)))
    } else {
        None
    }
}

/// Whether statement `s` is the statement of some tokens that lexing can
/// give back.
pub open spec fn lexed_stmt(s: StmtV) -> bool {
    exists|ts: Seq<TokV>| toks_ok(ts) && spec_stmt(ts) == Some(s)
}

/// The message of a statement that does not parse.
pub open spec fn stmt_error_message() -> Seq<char> {
    "failed to parse expr"@
}

fn word(t: &Tok, w: &str) -> (r: bool)
    ensures
        r == is_word(t@, w@),
{
    t.kind == TokKind::Ident && str_eq(t.text.as_str(), w)
}

fn string_lit(t: &Tok) -> (r: Option<String>)
    ensures
        opt_view(r) == str_lit(t@),
{
    if t.kind == TokKind::Literal {
        parse_lit_str(t)
    } else {
        None
    }
}

fn find_word_exec(toks: &Vec<Tok>, from: usize, w: &str) -> (r: usize)
    requires
        from <= toks@.len(),
    ensures
        r == find_word(toks_view(toks@), from as int, w@),
        from <= r <= toks@.len(),
{
    let mut i = from;
    while i < toks.len()
        invariant
            from <= i <= toks@.len(),
            find_word(toks_view(toks@), i as int, w@) == find_word(toks_view(toks@), from as int, w@),
        decreases toks@.len() - i,
    {
        if word(&toks[i], w) {
            return i;
        }
        i = i + 1;
    }
    i
}

/// `use "path"` starts the tokens.
pub open spec fn use_peek(ts: Seq<TokV>) -> bool {
    ts.len() >= 2 && is_word(ts[0], "use"@) && str_lit(ts[1]) is Some
}

impl UseTempl {
    /// Whether tokens `toks` start a `{{ use "path" as Ident }}` statement
    /// rather than a Rust `use` item.
    pub fn peek(toks: &Vec<Tok>) -> (r: bool)
        ensures
            r == use_peek(toks_view(toks@)),
    {
        toks.len() >= 2 && word(&toks[0], "use") && string_lit(&toks[1]).is_some()
    }
}

impl BlockTempl {
    /// Whether tokens `toks` start a `{{ [pub] [static] block Ident }}`
    /// statement.
    pub fn peek(toks: &Vec<Tok>) -> (r: bool)
        ensures
            r == block_peek(toks_view(toks@)),
    {
        block_peek_exec(toks)
    }
}

fn block_peek_exec(toks: &Vec<Tok>) -> (r: bool)
    ensures
        r == block_peek(toks_view(toks@)),
{
    let n = toks.len();
    (n >= 3 && word(&toks[0], "pub") && word(&toks[1], "static") && word(&toks[2], "block"))
        || (n >= 2 && word(&toks[0], "pub") && word(&toks[1], "block"))
        || (n >= 2 && word(&toks[0], "static") && word(&toks[1], "block"))
        || (n >= 1 && word(&toks[0], "block"))
}

fn render_value_exec(t: &Tok) -> (r: Option<RenderValue>)
    ensures
        match r {
            Some(v) => render_value(t@) == Some(v@),
            None => render_value(t@) is None,
        },
{
    match string_lit(t) {
        Some(p) => Some(RenderValue::Path(p)),
        None => if t.kind == TokKind::Ident {
            Some(RenderValue::Ident(copy_string(&t.text)))
        } else {
            None
        },
    }
}

/// The statement that tokens `toks` form.
pub fn parse_toks(toks: &Vec<Tok>) -> (r: Option<StmtSyn>)
    ensures
        match r {
            Some(s) => spec_stmt(toks_view(toks@)) == Some(s@),
            None => spec_stmt(toks_view(toks@)) is None,
        },
{
    let ghost ts = toks_view(toks@);
    let n = toks.len();
    if n >= 1 && (word(&toks[0], "layout") || word(&toks[0], "extends")) {
        if n == 2 {
            match string_lit(&toks[1]) {
                Some(path) => {
                    return Some(StmtSyn::Layout(LayoutTempl { path }));
                },
                None => {},
            }
        }
        return None;
    }
    if UseTempl::peek(toks) {
        match string_lit(&toks[1]) {
            Some(path) => {
                if n == 4 && word(&toks[2], "as") && toks[3].kind == TokKind::Ident {
                    return Some(StmtSyn::Use(UseTempl { path, ident: copy_string(&toks[3].text) }));
                }
                return None;
            },
            None => {},
        }
    }
    if n >= 1 && word(&toks[0], "render") {
        if n >= 2 {
            match render_value_exec(&toks[1]) {
                Some(value) => {
                    if n == 2 {
                        return Some(StmtSyn::Render(RenderTempl { value, block: None }));
                    } else if n == 4 && word(&toks[2], "block") && toks[3].kind == TokKind::Ident {
                        return Some(
                            StmtSyn::Render(
                                RenderTempl { value, block: Some(copy_string(&toks[3].text)) },
                            ),
                        );
                    }
                },
                None => {},
            }
        }
        return None;
    }
    if BlockTempl::peek(toks) {
        let i0: usize = if word(&toks[0], "pub") { 1 } else { 0 };
        let i1: usize = if n > i0 && word(&toks[i0], "static") { i0 + 1 } else { i0 };
        if n == i1 + 2 && word(&toks[i1], "block") && toks[i1 + 1].kind == TokKind::Ident {
            return Some(
                StmtSyn::Block(
                    BlockTempl {
                        pub_token: i0 == 1,
                        static_token: i1 > i0,
                        name: copy_string(&toks[i1 + 1].text),
                    },
                ),
            );
        }
        return None;
    }
    if n >= 1 && word(&toks[0], "if") {
        let cond = join(toks, 1, n);
        if parses_as_expr(toks, 1, n) {
            return Some(StmtSyn::If(IfTempl { cond }));
        }
        return None;
    }
    if n >= 1 && word(&toks[0], "else") {
        if n == 1 {
            return Some(StmtSyn::Else(ElseTempl { elif_branch: None }));
        }
        if word(&toks[1], "if") {
            let cond = join(toks, 2, n);
            if parses_as_expr(toks, 2, n) {
                return Some(StmtSyn::Else(ElseTempl { elif_branch: Some(cond) }));
            }
        }
        return None;
    }
    if n >= 1 && word(&toks[0], "for") {
        let k = find_word_exec(toks, 1, "in");
        if k < n {
            let pat = join(toks, 1, k);
            let expr = join(toks, k + 1, n);
            if parses_as_pat(toks, 1, k) && parses_as_expr(toks, k + 1, n) {
                return Some(StmtSyn::For(ForTempl { pat, expr }));
            }
        }
        return None;
    }
    if n >= 1 && word(&toks[0], "endblock") {
        return if n == 1 { Some(StmtSyn::Endblock) } else { None };
    }
    if n >= 1 && word(&toks[0], "endif") {
        return if n == 1 { Some(StmtSyn::EndIf) } else { None };
    }
    if n >= 1 && word(&toks[0], "endfor") {
        return if n == 1 { Some(StmtSyn::EndFor) } else { None };
    }
    if n >= 1 && word(&toks[0], "yield") {
        return if n == 1 { Some(StmtSyn::Yield) } else { None };
    }
    let text = join(toks, 0, n);
    if n >= 1 && word(&toks[0], "use") {
        if parses_as_item_use(toks, 0, n) {
            return Some(StmtSyn::Item(ItemTempl::Use(text)));
        }
        let mut closed = text;
        push_char(&mut closed, ';');
        return if parses_as_use_tree(toks, 1, n) {
            Some(StmtSyn::Item(ItemTempl::Use(closed)))
        } else {
            None
        };
    }
    if n >= 1 && word(&toks[0], "const") {
        return if parses_as_item_const(toks, 0, n) {
            Some(StmtSyn::Item(ItemTempl::Const(text)))
        } else {
            None
        };
    }
    if parses_as_expr(toks, 0, n) {
        Some(StmtSyn::Expr(text))
    } else {
        None
    }
}

/// Parses the source of an expression as a template statement: lexes it
/// with `proc_macro2`, then reads the statement the tokens form
/// ([`parse_toks`]). What the lexer gives back depends on the process, so
/// the statement is stated to be one that some lexed tokens form.
pub fn parse_stmt(source: &str) -> (r: Result<StmtSyn, ParseError>)
    ensures
        match r {
            Ok(s) => lexed_stmt(s@),
            Err(e) => e.spec_message() == stmt_error_message(),
        },
{
    match lex(source) {
        Some(toks) => match parse_toks(&toks) {
            Some(s) => {
                assert(toks_ok(toks_view(toks@)) && spec_stmt(toks_view(toks@)) == Some(s@));
                Ok(s)
            },
            None => Err(ParseError::Generic(String::from_str("failed to parse expr"))),
        },
        None => Err(ParseError::Generic(String::from_str("failed to parse expr"))),
    }
}

} // verus!
