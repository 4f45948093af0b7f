//! What the derived renderer does, statement by statement: the template's
//! statements lowered to render operations. Turning them into Rust tokens is
//! left to the derive macro.
use vstd::prelude::*;
use crate::ast::{Scalar, ScalarV, Scope, ScopeV, StmtTempl, StmtV, view_stmt, view_stmts};
use crate::delimiter::Delimiter;
use crate::metadata::{Reload, ReloadV, TemplKind, reload_flag};
use crate::sizehint::{
    SizeHint, Visitor, hint_view, opt_hint, spec_calculate, spec_calculate_block, templ_body,
};
use crate::syntax::{ItemTempl, RenderTempl, RenderValue, RenderValueV};
use crate::template::{
    Template, TemplateV, alias_pos, block_pos, lemma_alias_pos, lemma_block_pos, lemma_path_pos,
    path_pos,
};
use crate::text::copy_string;

verus! {

/// How an expression is wrapped before it is displayed.
#[derive(Clone, Copy, Debug, PartialEq, Eq, Structural)]
pub enum Wrap {
    /// Displayed as it is, through `TemplDisplay`.
    Plain,
    /// Through `std::fmt::Display`.
    Display,
    /// Through `std::fmt::Debug`.
    Debug,
}

/// How expressions written with `delim` are wrapped.
pub open spec fn spec_wrap(delim: Delimiter) -> Wrap {
    match delim {
        Delimiter::Quest => Wrap::Debug,
        Delimiter::Percent => Wrap::Display,
        _ => Wrap::Plain,
    }
}

/// Whether expressions written with `delim` are escaped: all but `{! !}`.
pub open spec fn spec_escapes(delim: Delimiter) -> bool {
    delim != Delimiter::Bang
}

/// How expressions written with `delim` are wrapped.
pub fn wrap_of(delim: Delimiter) -> (r: Wrap)
    ensures
        r == spec_wrap(delim),
{
    match delim {
        Delimiter::Quest => Wrap::Debug,
        Delimiter::Percent => Wrap::Display,
        Delimiter::Brace | Delimiter::Bang | Delimiter::Hash => Wrap::Plain,
    }
}

/// Whether expressions written with `delim` are escaped.
pub fn escapes(delim: Delimiter) -> (r: bool)
    ensures
        r == spec_escapes(delim),
{
    match delim {
        Delimiter::Bang => false,
        Delimiter::Brace | Delimiter::Percent | Delimiter::Quest | Delimiter::Hash => true,
    }
}

/// A render operation.
#[derive(Debug)]
pub enum Code {
    /// Display static content `index`, whose text is `value`.
    Static { value: String, index: u32 },
    /// Render the body of the template that uses this one as its layout.
    Yield,
    /// Display the imported template aliased `alias`.
    Import { alias: String },
    /// Display Rust expression `expr`.
    Expr { expr: String, wrap: Wrap, escape: bool },
    /// A Rust item, as it is.
    Item { text: String },
    /// Operations in a block of their own.
    Group { body: Vec<Code> },
    /// `if cond { body } else ..`
    If { cond: String, body: Vec<Code>, else_branch: Option<Box<Code>> },
    /// The value of `expr` iterated over with `pat`; the `else` operation
    /// runs when it is empty.
    For { pat: String, expr: String, body: Vec<Code>, else_branch: Option<Box<Code>> },
}

/// The view of a [`Code`].
pub enum CodeV {
    Static(Seq<char>, int),
    Yield,
    Import(Seq<char>),
    Expr(Seq<char>, Wrap, bool),
    Item(Seq<char>),
    Group(Seq<CodeV>),
    If(Seq<char>, Seq<CodeV>, Option<Box<CodeV>>),
    For(Seq<char>, Seq<char>, Seq<CodeV>, Option<Box<CodeV>>),
}

pub open spec fn view_code(c: Code) -> CodeV
    decreases c,
{
    match c {
        Code::Static { value, index } => CodeV::Static(value@, index as int),
        Code::Yield => CodeV::Yield,
        Code::Import { alias } => CodeV::Import(alias@),
        Code::Expr { expr, wrap, escape } => CodeV::Expr(expr@, wrap, escape),
        Code::Item { text } => CodeV::Item(text@),
        Code::Group { body } => CodeV::Group(view_codes(body@)),
        Code::If { cond, body, else_branch } => CodeV::If(
            cond@,
            view_codes(body@),
            match else_branch {
                Some(b) => Some(Box::new(view_code(*b))),
                None => None,
            },
        ),
        Code::For { pat, expr, body, else_branch } => CodeV::For(
            pat@,
            expr@,
            view_codes(body@),
            match else_branch {
                Some(b) => Some(Box::new(view_code(*b))),
                None => None,
            },
        ),
    }
}

pub open spec fn view_codes(v: Seq<Code>) -> Seq<CodeV>
    decreases v,
{
    if v.len() == 0 {
        seq![]
    } else {
        view_codes(v.drop_last()).push(view_code(v.last()))
    }
}

impl View for Code {
    type V = CodeV;

    open spec fn view(&self) -> CodeV {
        view_code(*self)
    }
}

/// The operations of statements `v` of template `t`, with `d` more nested
/// block renders allowed; `None` when a render does not resolve or block
/// renders nest deeper.
pub open spec fn lower_stmts(t: TemplateV, v: Seq<StmtV>, d: nat) -> Option<Seq<CodeV>>
    decreases d, v,
{
    if v.len() == 0 {
        Some(seq![])
    } else {
        match (lower_stmts(t, v.drop_last(), d), lower_stmt(t, v.last(), d)) {
            (Some(a), Some(b)) => Some(a + b),
            _ => None,
        }
    }
}

/// The operations of statement `s` of template `t`: a rendered block's
/// statements are lowered in its place.
pub open spec fn lower_stmt(t: TemplateV, s: StmtV, d: nat) -> Option<Seq<CodeV>>
    decreases d, s,
{
    match s {
        StmtV::Scalar(ScalarV::Static(value, index)) => Some(seq![CodeV::Static(value, index)]),
        StmtV::Scalar(ScalarV::Yield) => Some(seq![CodeV::Yield]),
        StmtV::Scalar(ScalarV::Render(RenderValueV::Ident(id), _)) => {
            let bp = block_pos(t.file.blocks, id);
            let ap = alias_pos(t.file.imports, id);
            if 0 <= bp < t.file.blocks.len() {
                if d > 0 {
                    lower_stmts(t, t.file.blocks[bp].3, (d - 1) as nat)
                } else {
                    None
                }
            } else if 0 <= ap < t.file.imports.len() {
                Some(seq![CodeV::Import(t.file.imports[ap].alias)])
            } else {
                None
            }
        },
        StmtV::Scalar(ScalarV::Render(RenderValueV::Path(p), _)) => {
            let pp = path_pos(t.file.imports, p);
            if 0 <= pp < t.file.imports.len() {
                Some(seq![CodeV::Import(t.file.imports[pp].alias)])
            } else {
                None
            }
        },
        StmtV::Scalar(ScalarV::Expr(e, delim)) => Some(seq![CodeV::Expr(e, spec_wrap(delim), spec_escapes(delim))]),
        StmtV::Scalar(ScalarV::ItemUse(text)) => Some(seq![CodeV::Item(text)]),
        StmtV::Scalar(ScalarV::ItemConst(text)) => Some(seq![CodeV::Item(text)]),
        StmtV::Scalar(ScalarV::Use(..)) => None,
        StmtV::Scope(sc) => match lower_scope(t, sc, d) {
            Some(c) => Some(seq![c]),
            None => None,
        },
    }
}

/// The operation of scope `sc` of template `t`.
pub open spec fn lower_scope(t: TemplateV, sc: ScopeV, d: nat) -> Option<CodeV>
    decreases d, sc,
{
    match sc {
        ScopeV::Root(s) => match lower_stmts(t, s, d) {
            Some(body) => Some(CodeV::Group(body)),
            None => None,
        },
        ScopeV::If(c, s, e) => match lower_stmts(t, s, d) {
            None => None,
            Some(body) => match e {
                None => Some(CodeV::If(c, body, None)),
                Some(b) => match lower_scope(t, *b, d) {
                    Some(x) => Some(CodeV::If(c, body, Some(Box::new(x)))),
                    None => None,
                },
            },
        },
        ScopeV::For(p, x, s, e) => match lower_stmts(t, s, d) {
            None => None,
            Some(body) => match e {
                None => Some(CodeV::For(p, x, body, None)),
                Some(b) => match lower_scope(t, *b, d) {
                    Some(y) => Some(CodeV::For(p, x, body, Some(Box::new(y)))),
                    None => None,
                },
            },
        },
        ScopeV::Block(..) => None,
    }
}

/// The operations of what template `t` renders.
pub open spec fn spec_lower(t: TemplateV) -> Option<Seq<CodeV>> {
    match templ_body(t) {
        Some(body) => lower_stmts(t, body, t.file.blocks.len()),
        None => None,
    }
}

/// The operations of block `block` of template `t`.
pub open spec fn spec_lower_block(t: TemplateV, block: Seq<char>) -> Option<Seq<CodeV>> {
    let k = block_pos(t.file.blocks, block);
    if 0 <= k < t.file.blocks.len() {
        lower_stmts(t, t.file.blocks[k].3, t.file.blocks.len())
    } else {
        None
    }
}

pub proof fn lemma_view_codes_push(v: Seq<Code>, c: Code)
    ensures
        view_codes(v.push(c)) == view_codes(v).push(view_code(c)),
{
    assert(v.push(c).drop_last() =~= v);
}

pub proof fn lemma_lower_prefix(t: TemplateV, v: Seq<StmtV>, d: nat, n: int)
    requires
        0 <= n <= v.len(),
        lower_stmts(t, v.take(n), d) is None,
    ensures
        lower_stmts(t, v, d) is None,
    decreases v.len() - n,
{
    if n < v.len() {
        assert(v.take(n + 1).drop_last() =~= v.take(n));
        lemma_lower_prefix(t, v, d, n + 1);
    } else {
        assert(v.take(n) =~= v);
    }
}

fn push_one(out: &mut Vec<Code>, c: Code)
    ensures
        view_codes(final(out)@) == view_codes(old(out)@) + seq![view_code(c)],
{
    proof {
        lemma_view_codes_push(old(out)@, c);
        assert(view_codes(old(out)@).push(view_code(c)) =~= view_codes(old(out)@) + seq![view_code(c)]);
    }
    out.push(c);
}

/// Appends the operations of `stmts` of `t` to `out`; `false` when they
/// have none.
fn lower_stmts_into(t: &Template, stmts: &Vec<StmtTempl>, d: usize, out: &mut Vec<Code>) -> (ok: bool)
    ensures
        ok ==> (lower_stmts(t@, view_stmts(stmts@), d as nat) matches Some(c) && view_codes(final(out)@) == view_codes(old(out)@) + c),
        !ok ==> lower_stmts(t@, view_stmts(stmts@), d as nat) is None,
    decreases d, view_stmts(stmts@),
{
    proof {
        crate::template::lemma_view_stmts_index(stmts@);
    }
    let ghost v = view_stmts(stmts@);
    let ghost start = view_codes(out@);
    let mut k: usize = 0;
    assert(stmts@.take(0) =~= Seq::<StmtTempl>::empty());
    assert(start + Seq::<CodeV>::empty() =~= start);
    while k < stmts.len()
        invariant
            k <= stmts@.len(),
            v == view_stmts(stmts@),
            v.len() == stmts@.len(),
            forall|j: int| 0 <= j < stmts@.len() ==> #[trigger] v[j] == view_stmt(stmts@[j]),
            lower_stmts(t@, view_stmts(stmts@.take(k as int)), d as nat) matches Some(c) && view_codes(out@) == start + c,
        decreases stmts@.len() - k,
    {
        proof {
            assert(stmts@.take(k + 1) =~= stmts@.take(k as int).push(stmts@[k as int]));
            crate::ast::lemma_view_stmts_push(stmts@.take(k as int), stmts@[k as int]);
            assert(view_stmts(stmts@.take(k as int)).push(view_stmt(stmts@[k as int])).drop_last()
                =~= view_stmts(stmts@.take(k as int)));
            assert(v[k as int] == view_stmt(stmts@[k as int]));
        }
        let ghost before = view_codes(out@);
        let ghost prev = lower_stmts(t@, view_stmts(stmts@.take(k as int)), d as nat)->0;
        if !lower_stmt_into(t, &stmts[k], d, out) {
            proof {
                assert(v.take(k + 1) =~= view_stmts(stmts@.take(k + 1))) by {
                    crate::template::lemma_view_stmts_index(stmts@.take(k + 1));
                }
                lemma_lower_prefix(t@, v, d as nat, k + 1);
            }
            return false;
        }
        proof {
            let c = lower_stmt(t@, view_stmt(stmts@[k as int]), d as nat)->0;
            assert(start + prev + c =~= start + (prev + c));
        }
        k = k + 1;
    }
    assert(stmts@.take(k as int) =~= stmts@);
    true
}

/// Appends the operations of `stmt` of `t` to `out`.
fn lower_stmt_into(t: &Template, stmt: &StmtTempl, d: usize, out: &mut Vec<Code>) -> (ok: bool)
    ensures
        ok ==> (lower_stmt(t@, stmt@, d as nat) matches Some(c) && view_codes(final(out)@) == view_codes(old(out)@) + c),
        !ok ==> lower_stmt(t@, stmt@, d as nat) is None,
    decreases d, stmt@,
{
    match stmt {
        StmtTempl::Scalar(Scalar::Static { value, index }) => {
            push_one(out, Code::Static { value: copy_string(value), index: *index });
            true
        },
        StmtTempl::Scalar(Scalar::Yield) => {
            push_one(out, Code::Yield);
            true
        },
        StmtTempl::Scalar(Scalar::Render(RenderTempl { value: RenderValue::Ident(id), .. })) => {
            proof {
                lemma_block_pos(t@.file.blocks, id@);
                lemma_alias_pos(t@.file.imports, id@);
            }
            match t.file().get_block(id.as_str()) {
                Some(b) => {
                    if d > 0 {
                        lower_stmts_into(t, &b.stmts, d - 1, out)
                    } else {
                        false
                    }
                },
                None => match t.file().get_import_by_id(id.as_str()) {
                    Some(import) => {
                        push_one(out, Code::Import { alias: crate::text::owned(import.alias()) });
                        true
                    },
                    None => false,
                },
            }
        },
        StmtTempl::Scalar(Scalar::Render(RenderTempl { value: RenderValue::Path(p), .. })) => {
            proof {
                lemma_path_pos(t@.file.imports, p@);
            }
            match t.file().get_import_by_path(p.as_str()) {
                Some(import) => {
                    push_one(out, Code::Import { alias: crate::text::owned(import.alias()) });
                    true
                },
                None => false,
            }
        },
        StmtTempl::Scalar(Scalar::Expr { expr, delim }) => {
            push_one(out, Code::Expr { expr: copy_string(expr), wrap: wrap_of(*delim), escape: escapes(*delim) });
            true
        },
        StmtTempl::Scalar(Scalar::Item(ItemTempl::Use(text))) => {
            push_one(out, Code::Item { text: copy_string(text) });
            true
        },
        StmtTempl::Scalar(Scalar::Item(ItemTempl::Const(text))) => {
            push_one(out, Code::Item { text: copy_string(text) });
            true
        },
        StmtTempl::Scalar(Scalar::Use(_)) => false,
        StmtTempl::Scope(scope) => match lower_scope_exec(t, scope, d) {
            Some(c) => {
                push_one(out, c);
                true
            },
            None => false,
        },
    }
}

/// The operation of `scope` of `t`.
fn lower_scope_exec(t: &Template, scope: &Scope, d: usize) -> (r: Option<Code>)
    ensures
        match r {
            Some(c) => lower_scope(t@, scope@, d as nat) == Some(c@),
            None => lower_scope(t@, scope@, d as nat) is None,
        },
    decreases d, scope@,
{
    match scope {
        Scope::Root { stmts } => {
            let mut body = Vec::new();
            assert(view_codes(body@) =~= Seq::<CodeV>::empty());
            if !lower_stmts_into(t, stmts, d, &mut body) {
                return None;
            }
            proof {
                let c = lower_stmts(t@, view_stmts(stmts@), d as nat)->0;
                assert(Seq::<CodeV>::empty() + c =~= c);
            }
            Some(Code::Group { body })
        },
        Scope::If { templ, stmts, else_branch } => {
            let mut body = Vec::new();
            assert(view_codes(body@) =~= Seq::<CodeV>::empty());
            if !lower_stmts_into(t, stmts, d, &mut body) {
                return None;
            }
            proof {
                let c = lower_stmts(t@, view_stmts(stmts@), d as nat)->0;
                assert(Seq::<CodeV>::empty() + c =~= c);
            }
            let eb = match else_branch {
                Some(b) => match lower_scope_exec(t, &**b, d) {
                    Some(x) => Some(Box::new(x)),
                    None => {
                        return None;
                    },
                },
                None => None,
            };
            Some(Code::If { cond: copy_string(&templ.cond), body, else_branch: eb })
        },
        Scope::For { templ, stmts, else_branch } => {
            let mut body = Vec::new();
            assert(view_codes(body@) =~= Seq::<CodeV>::empty());
            if !lower_stmts_into(t, stmts, d, &mut body) {
                return None;
            }
            proof {
                let c = lower_stmts(t@, view_stmts(stmts@), d as nat)->0;
                assert(Seq::<CodeV>::empty() + c =~= c);
            }
            let eb = match else_branch {
                Some(b) => match lower_scope_exec(t, &**b, d) {
                    Some(x) => Some(Box::new(x)),
                    None => {
                        return None;
                    },
                },
                None => None,
            };
            Some(Code::For { pat: copy_string(&templ.pat), expr: copy_string(&templ.expr), body, else_branch: eb })
        },
        Scope::Block { .. } => None,
    }
}

/// The operations of what `templ` renders; `None` when a render does not
/// resolve or a block renders within itself.
pub fn generate(templ: &Template) -> (r: Option<Vec<Code>>)
    ensures
        match r {
            Some(v) => spec_lower(templ@) == Some(view_codes(v@)),
            None => spec_lower(templ@) is None,
        },
{
    let body = match templ.meta().block() {
        Some(b) => match templ.file().get_block(b.as_str()) {
            Some(block) => &block.stmts,
            None => {
                return None;
            },
        },
        None => templ.all_stmts(),
    };
    let mut out = Vec::new();
    assert(view_codes(out@) =~= Seq::<CodeV>::empty());
    if lower_stmts_into(templ, body, templ.file().blocks().len(), &mut out) {
        proof {
            let c = spec_lower(templ@)->0;
            assert(Seq::<CodeV>::empty() + c =~= c);
        }
        Some(out)
    } else {
        None
    }
}

/// The operations of block `block` of `templ`; `None` when there is no such
/// block, or as for [`generate`].
pub fn generate_block(templ: &Template, block: &str) -> (r: Option<Vec<Code>>)
    ensures
        match r {
            Some(v) => spec_lower_block(templ@, block@) == Some(view_codes(v@)),
            None => spec_lower_block(templ@, block@) is None,
        },
{
    proof {
        lemma_block_pos(templ@.file.blocks, block@);
    }
    let b = match templ.file().get_block(block) {
        Some(b) => b,
        None => {
            return None;
        },
    };
    let mut out = Vec::new();
    assert(view_codes(out@) =~= Seq::<CodeV>::empty());
    if lower_stmts_into(templ, &b.stmts, templ.file().blocks().len(), &mut out) {
        proof {
            let c = spec_lower_block(templ@, block@)->0;
            assert(Seq::<CodeV>::empty() + c =~= c);
        }
        Some(out)
    } else {
        None
    }
}

/// Where the text of static contents comes from when rendering.
#[derive(Debug)]
pub enum StaticSource {
    /// The text as it was at compile time.
    Value,
    /// The text read again from the source file.
    Reloaded,
    /// Read again when the Rust expression holds, else as at compile time.
    Either(String),
}

/// The view of a [`StaticSource`]: `None` for the text as it was at
/// compile time, `Some(None)` for reloaded, `Some(Some(e))` when expression
/// `e` decides.
pub open spec fn static_source_view(s: StaticSource) -> Option<Option<Seq<char>>> {
    match s {
        StaticSource::Value => None,
        StaticSource::Reloaded => Some(None),
        StaticSource::Either(e) => Some(Some(e@)),
    }
}

/// Where static contents come from under reload behavior `reload`, `debug`
/// telling whether debug assertions are on.
pub open spec fn spec_static_source(reload: ReloadV, debug: bool) -> Option<Option<Seq<char>>> {
    match reload_flag(reload, debug) {
        Some(true) => Some(None),
        Some(false) => None,
        None => Some(Some(reload->Expr_0)),
    }
}

/// Where static contents come from under reload behavior `reload`.
pub fn static_source(reload: &Reload, debug: bool) -> (r: StaticSource)
    ensures
        static_source_view(r) == spec_static_source(reload@, debug),
{
    match reload.as_bool(debug) {
        Ok(true) => StaticSource::Reloaded,
        Ok(false) => StaticSource::Value,
        Err(cond) => StaticSource::Either(crate::text::owned(cond)),
    }
}

/// How the rendering code gets the static contents of its source.
#[derive(Debug)]
pub enum SourcesPlan {
    /// It needs none.
    Nothing,
    /// It reads and parses the source file.
    Read,
    /// It reads and parses the source file when the Rust expression holds.
    ReadIf(String),
    /// It holds them as literals.
    Inline,
}

/// The view of a [`SourcesPlan`]: `0` nothing, `1` read, `2` read when the
/// expression holds, `3` literals; with the expression.
pub open spec fn sources_plan_view(p: SourcesPlan) -> (int, Seq<char>) {
    match p {
        SourcesPlan::Nothing => (0, seq![]),
        SourcesPlan::Read => (1, seq![]),
        SourcesPlan::ReadIf(e) => (2, e@),
        SourcesPlan::Inline => (3, seq![]),
    }
}

/// How static contents are got: `is_file` tells whether the template is a
/// file, `has_statics` whether it has static contents.
pub open spec fn spec_sources_plan(is_file: bool, reload: ReloadV, debug: bool, has_statics: bool) -> (int, Seq<char>) {
    match (is_file, reload_flag(reload, debug)) {
        (true, Some(true)) => (1, seq![]),
        (_, Some(false)) => (0, seq![]),
        (true, None) => (2, reload->Expr_0),
        (false, _) => if has_statics {
            (3, seq![])
        } else {
            (0, seq![])
        },
    }
}

/// How the rendering code gets the static contents of its source.
pub fn sources_plan(is_file: bool, reload: &Reload, debug: bool, has_statics: bool) -> (r: SourcesPlan)
    ensures
        sources_plan_view(r) == spec_sources_plan(is_file, reload@, debug, has_statics),
{
    match (is_file, reload.as_bool(debug)) {
        (true, Ok(true)) => SourcesPlan::Read,
        (_, Ok(false)) => SourcesPlan::Nothing,
        (true, Err(cond)) => SourcesPlan::ReadIf(crate::text::owned(cond)),
        (false, _) => if has_statics {
            SourcesPlan::Inline
        } else {
            SourcesPlan::Nothing
        },
    }
}

/// What the `Template` implementation of a template provides beside its
/// rendering. Only blocks declared `pub` can be rendered at run time.
#[derive(Debug)]
pub struct TraitPlan {
    /// The names of the blocks `render_block_into` renders: the `pub` ones.
    pub render_blocks: Vec<String>,
    /// The names of the blocks `contains_block` accepts, when it is
    /// provided.
    pub contains_block: Option<Vec<String>>,
    /// The size hint `size_hint` returns, when it is provided.
    pub size_hint: Option<SizeHint>,
    /// The block names, with their size hints, that `size_hint_block` lists.
    pub size_hint_block: Vec<(SizeHint, String)>,
    /// Whether the template also implements `TemplDisplay`.
    pub display: bool,
}

/// The names of the `pub` blocks among the first `n` of `bs`, in order.
pub open spec fn pub_names(bs: Seq<crate::visitor::BlockV>, n: int) -> Seq<Seq<char>>
    decreases n,
{
    if n <= 0 {
        seq![]
    } else if bs[n - 1].0 {
        pub_names(bs, n - 1).push(bs[n - 1].2)
    } else {
        pub_names(bs, n - 1)
    }
}

/// The names of the `pub` blocks among the first `n` blocks of `t`, each with
/// the size hint of that block alone, in order; `None` when such a hint is
/// not defined.
pub open spec fn block_hints(t: TemplateV, n: int) -> Option<Seq<(Seq<char>, (int, Option<int>))>>
    decreases n,
{
    if n <= 0 {
        Some(seq![])
    } else {
        match block_hints(t, n - 1) {
            None => None,
            Some(hints) => if !t.file.blocks[n - 1].0 {
                Some(hints)
            } else {
                let name = t.file.blocks[n - 1].2;
                match spec_calculate_block(t, name) {
                    None => None,
                    Some(h) => Some(hints.push((name, h))),
                }
            },
        }
    }
}

/// `render_block_into` renders the `pub` blocks; `contains_block` and
/// `size_hint_block` are provided for main templates with `pub` blocks,
/// `size_hint` for main templates whose hint says something, `TemplDisplay`
/// for main templates. `None` when a needed hint is not defined.
pub fn trait_plan(templ: &Template) -> (r: Option<TraitPlan>)
    ensures
        match r {
            Some(p) => {
                let t = templ@;
                let main = t.meta.kind == TemplKind::Main;
                let names = pub_names(t.file.blocks, t.file.blocks.len() as int);
                let with_blocks = main && names.len() > 0;
                &&& crate::visitor::strings_view(p.render_blocks@) == names
                &&& (p.contains_block is Some <==> with_blocks)
                &&& (p.contains_block matches Some(v) ==> crate::visitor::strings_view(v@) == names)
                &&& (main ==> spec_calculate(t) is Some)
                &&& (p.size_hint is Some <==> main && spec_calculate(t) != Some((0int, None::<int>)))
                &&& (p.size_hint matches Some(h) ==> spec_calculate(t) == Some(hint_view(h)))
                &&& (with_blocks ==> (block_hints(t, t.file.blocks.len() as int) matches Some(e)
                    && p.size_hint_block@.len() == e.len()
                    && forall|k: int| 0 <= k < e.len() ==> hint_view((#[trigger] p.size_hint_block@[k]).0) == e[k].1
                        && p.size_hint_block@[k].1@ == e[k].0))
                &&& (!with_blocks ==> p.size_hint_block@.len() == 0)
                &&& p.display == main
            },
            None => {
                let t = templ@;
                let main = t.meta.kind == TemplKind::Main;
                let names = pub_names(t.file.blocks, t.file.blocks.len() as int);
                ||| (main && spec_calculate(t) is None)
                ||| (main && names.len() > 0 && block_hints(t, t.file.blocks.len() as int) is None)
            },
        },
{
    let main = templ.meta().kind() == TemplKind::Main;
    let blocks = templ.file().blocks();
    let mut names: Vec<String> = Vec::new();
    let mut k: usize = 0;
    while k < blocks.len()
        invariant
            k <= blocks@.len(),
            crate::visitor::blocks_view(blocks@) == templ@.file.blocks,
            crate::visitor::strings_view(names@) == pub_names(templ@.file.blocks, k as int),
        decreases blocks@.len() - k,
    {
        assert(crate::visitor::blocks_view(blocks@)[k as int] == blocks@[k as int]@);
        if blocks[k].templ.pub_token {
            let ghost before = names@;
            names.push(copy_string(&blocks[k].templ.name));
            assert(crate::visitor::strings_view(names@) =~= crate::visitor::strings_view(before).push(names@.last()@));
        }
        k = k + 1;
    }
    let with_blocks = main && names.len() > 0;
    let contains_block = if with_blocks {
        let mut copy: Vec<String> = Vec::new();
        let mut j: usize = 0;
        while j < names.len()
            invariant
                j <= names@.len(),
                crate::visitor::strings_view(copy@) =~= crate::visitor::strings_view(names@).take(j as int),
            decreases names@.len() - j,
        {
            let ghost before = copy@;
            copy.push(copy_string(&names[j]));
            assert(crate::visitor::strings_view(copy@) =~= crate::visitor::strings_view(before).push(copy@.last()@));
            j = j + 1;
        }
        assert(crate::visitor::strings_view(names@).take(j as int) =~= crate::visitor::strings_view(names@));
        Some(copy)
    } else {
        None
    };
    let visitor = Visitor::new(templ);
    let size_hint = if main {
        match visitor.try_calculate() {
            Some(h) => if crate::sizehint::is_empty(h) {
                None
            } else {
                Some(h)
            },
            None => {
                return None;
            },
        }
    } else {
        None
    };
    let mut hints: Vec<(SizeHint, String)> = Vec::new();
    if with_blocks {
        let mut k: usize = 0;
        while k < blocks.len()
            invariant
                k <= blocks@.len(),
                with_blocks,
                with_blocks == (main && pub_names(templ@.file.blocks, templ@.file.blocks.len() as int).len() > 0),
                main == (templ@.meta.kind == TemplKind::Main),
                visitor.spec_templ() == templ@,
                crate::visitor::blocks_view(blocks@) == templ@.file.blocks,
                block_hints(templ@, k as int) matches Some(e) && hints@.len() == e.len()
                    && forall|j: int| 0 <= j < e.len() ==> hint_view((#[trigger] hints@[j]).0) == e[j].1
                        && hints@[j].1@ == e[j].0,
            decreases blocks@.len() - k,
        {
            assert(crate::visitor::blocks_view(blocks@)[k as int] == blocks@[k as int]@);
            if blocks[k].templ.pub_token {
                let name = &blocks[k].templ.name;
                assert(name@ == templ@.file.blocks[k as int].2);
                match visitor.try_calculate_block(name.as_str()) {
                    Some(h) => {
                        hints.push((h, copy_string(name)));
                    },
                    None => {
                        proof {
                            assert(spec_calculate_block(templ@, templ@.file.blocks[k as int].2) is None);
                            assert(block_hints(templ@, k + 1) is None);
                            lemma_block_hints_none(templ@, k + 1, templ@.file.blocks.len() as int);
                        }
                        return None;
                    },
                }
            }
            k = k + 1;
        }
    }
    Some(TraitPlan { render_blocks: names, contains_block, size_hint, size_hint_block: hints, display: main })
}

/// Once a block's hint is undefined, so are the hints of all blocks.
pub proof fn lemma_block_hints_none(t: TemplateV, n: int, m: int)
    requires
        0 <= n <= m,
        block_hints(t, n) is None,
    ensures
        block_hints(t, m) is None,
    decreases m,
{
    if m > n {
        lemma_block_hints_none(t, n, m - 1);
    }
}

} // verus!
