//! Builds the syntax tree of one template source.
use vstd::prelude::*;
use crate::ast::{
    Scalar, ScalarV, Scope, ScopeV, StmtTempl, StmtV, else_fill, else_wf, fill_else,
    lemma_else_fill_ok, lemma_scope_push_ok, lemma_stmts_ok_empty, lemma_stmts_ok_push,
    scope_name, scope_ok, scope_push, stmt_ok, stmts_ok, view_scope, view_stmts,
};
use crate::delimiter::Delimiter;
use crate::parser::{
    ParseError, Segment, lemma_scan_count, lemma_statics_of_prepend, scan, scan_error_message,
    segments_wf, spec_scan, static_piece, statics_of,
};
use crate::syntax::{
    BlockTempl, ElseTempl, ForTempl, IfTempl, ItemTempl, LayoutTempl, RenderTempl, RenderValue,
    RenderValueV, StmtSyn, StmtV as SynV, UseTempl, lexed_stmt, parse_stmt, stmt_error_message,
};
use crate::text::{concat, copy_string, decimal, owned, push_decimal, slice, str_eq};

verus! {

/// An import a template asks for: the path as written, and its alias.
#[derive(Debug)]
pub struct ImportRequest {
    pub path: String,
    pub alias: String,
}

/// A block: its declaration and its statements.
#[derive(Debug)]
pub struct BlockContent {
    pub templ: BlockTempl,
    pub stmts: Vec<StmtTempl>,
}

/// The view of a block: `(pub, static, name, statements)`.
pub type BlockV = (bool, bool, Seq<char>, Seq<StmtV>);

impl View for BlockContent {
    type V = BlockV;

    open spec fn view(&self) -> BlockV {
        (self.templ.pub_token, self.templ.static_token, self.templ.name@, view_stmts(self.stmts@))
    }
}

/// The state of the syntax tree builder.
pub struct BuilderV {
    /// The layout path, if any.
    pub layout: Option<Seq<char>>,
    /// Import requests: path and alias.
    pub imports: Seq<(Seq<char>, Seq<char>)>,
    /// Closed blocks.
    pub blocks: Seq<BlockV>,
    /// Static contents in order.
    pub statics: Seq<Seq<char>>,
    /// Top-level statements.
    pub root: Seq<StmtV>,
    /// Open scopes, innermost last.
    pub scopes: Seq<ScopeV>,
    /// The number of the next generated template name.
    pub names: int,
}

/// The builder before any statement.
pub open spec fn builder_init(names: int) -> BuilderV {
    BuilderV {
        layout: None,
        imports: seq![],
        blocks: seq![],
        statics: seq![],
        root: seq![],
        scopes: seq![],
        names,
    }
}

/// The generated name of the `n`-th unaliased import.
pub open spec fn gen_name(n: int) -> Seq<char> {
    "TourTemplate"@ + decimal(n as nat)
}

/// Appends `st` to the innermost open scope, or to the top level.
pub open spec fn b_push(b: BuilderV, st: StmtV) -> BuilderV {
    if b.scopes.len() == 0 {
        BuilderV { root: b.root.push(st), ..b }
    } else {
        BuilderV { scopes: b.scopes.update(b.scopes.len() - 1, scope_push(b.scopes.last(), st)), ..b }
    }
}

/// Static content `src` is seen.
pub open spec fn b_static(b: BuilderV, src: Seq<char>) -> BuilderV {
    b_push(
        BuilderV { statics: b.statics.push(src), ..b },
        StmtV::Scalar(ScalarV::Static(src, b.statics.len() as int)),
    )
}

/// Whether an import of `path` was asked for already.
pub open spec fn has_import(b: BuilderV, path: Seq<char>) -> bool {
    exists|k: int| 0 <= k < b.imports.len() && (#[trigger] b.imports[k]).0 == path
}

/// An import of `path` aliased `alias`, unless `path` is imported already.
pub open spec fn b_import(b: BuilderV, path: Seq<char>, alias: Seq<char>) -> BuilderV {
    if has_import(b, path) {
        b
    } else {
        BuilderV { imports: b.imports.push((path, alias)), ..b }
    }
}

/// An import of `path` under a generated name.
pub open spec fn b_import_named(b: BuilderV, path: Seq<char>) -> BuilderV {
    b_import(BuilderV { names: b.names + 1, ..b }, path, gen_name(b.names))
}

/// Replaces the innermost open scope.
pub open spec fn b_set_top(b: BuilderV, sc: ScopeV) -> BuilderV {
    BuilderV { scopes: b.scopes.update(b.scopes.len() - 1, sc), ..b }
}

/// Closes the innermost open scope.
pub open spec fn b_pop(b: BuilderV) -> BuilderV {
    BuilderV { scopes: b.scopes.drop_last(), ..b }
}

/// Opens scope `sc`.
pub open spec fn b_open(b: BuilderV, sc: ScopeV) -> BuilderV {
    BuilderV { scopes: b.scopes.push(sc), ..b }
}

/// The message when statement `what` closes the wrong scope.
pub open spec fn close_message(what: Seq<char>, b: BuilderV) -> Seq<char> {
    if b.scopes.len() == 0 {
        "cannot close `"@ + what + "` in toplevel"@
    } else {
        "cannot close `"@ + what + "` in `"@ + scope_name(b.scopes.last()) + "` scope"@
    }
}

/// The builder after statement `s`, written with delimiter `delim`, or the
/// error message.
pub open spec fn b_stmt(b: BuilderV, s: SynV, delim: Delimiter) -> Result<BuilderV, Seq<char>> {
    match s {
        SynV::Layout(p) => if b.layout is Some {
            Err("cannot have 2 `extends` or `layout`"@)
        } else {
            Ok(b_import_named(BuilderV { layout: Some(p), ..b }, p))
        },
        SynV::Use(p, alias) => Ok(b_import(b, p, alias)),
        SynV::Render(v, blk) => {
            let b1 = match v {
                RenderValueV::Path(p) => b_import_named(b, p),
                RenderValueV::Ident(_) => b,
            };
            Ok(b_push(b1, StmtV::Scalar(ScalarV::Render(v, blk))))
        },
        SynV::Yield => Ok(b_push(b, StmtV::Scalar(ScalarV::Yield))),
        SynV::ItemUse(t) => Ok(b_push(b, StmtV::Scalar(ScalarV::ItemUse(t)))),
        SynV::ItemConst(t) => Ok(b_push(b, StmtV::Scalar(ScalarV::ItemConst(t)))),
        SynV::Expr(t) => Ok(b_push(b, StmtV::Scalar(ScalarV::Expr(t, delim)))),
        SynV::Block(p, st, n) => Ok(b_open(b, ScopeV::Block(p, st, n, seq![]))),
        SynV::If(c) => Ok(b_open(b, ScopeV::If(c, seq![], None))),
        SynV::For(p, x) => Ok(b_open(b, ScopeV::For(p, x, seq![], None))),
        SynV::Else(elif) => if b.scopes.len() == 0 {
            Err(close_message("else"@, b))
        } else {
            match b.scopes.last() {
                ScopeV::If(c, s, e) => {
                    let new = match elif {
                        Some(c2) => ScopeV::If(c2, seq![], None),
                        None => ScopeV::Root(seq![]),
                    };
                    match else_fill(e, new) {
                        Some(e2) => Ok(b_set_top(b, ScopeV::If(c, s, e2))),
                        None => Err("cannot have 2 `else`"@),
                    }
                },
                ScopeV::For(p, x, s, e) => if e is Some {
                    Err("cannot have 2 `else` in `for` scope"@)
                } else {
                    Ok(b_set_top(b, ScopeV::For(p, x, s, Some(Box::new(ScopeV::Root(seq![]))))))
                },
                _ => Err(close_message("else"@, b)),
            }
        },
        SynV::Endblock => if b.scopes.len() > 0 && b.scopes.last() is Block {
            match b.scopes.last() {
                ScopeV::Block(p, st, n, s) => {
                    let b1 = b_pop(b);
                    let b2 = if st {
                        b1
                    } else {
                        b_push(b1, StmtV::Scalar(ScalarV::Render(RenderValueV::Ident(n), None)))
                    };
                    Ok(BuilderV { blocks: b2.blocks.push((p, st, n, s)), ..b2 })
                },
                _ => Err(close_message("endblock"@, b)),
            }
        } else {
            Err(close_message("endblock"@, b))
        },
        SynV::EndIf => if b.scopes.len() > 0 && b.scopes.last() is If {
            Ok(b_push(b_pop(b), StmtV::Scope(b.scopes.last())))
        } else {
            Err(close_message("endif"@, b))
        },
        SynV::EndFor => if b.scopes.len() > 0 && b.scopes.last() is For {
            Ok(b_push(b_pop(b), StmtV::Scope(b.scopes.last())))
        } else {
            Err(close_message("endfor"@, b))
        },
    }
}

/// The builder after segment `seg` of source `src`, or the error message;
/// an expression forms statement `st`, or none when it is `None`.
pub open spec fn b_segment(b: BuilderV, src: Seq<char>, seg: Segment, st: Option<SynV>) -> Result<BuilderV, Seq<char>> {
    match seg {
        Segment::Static { start, end } => Ok(b_static(b, src.subrange(start as int, end as int))),
        Segment::Expr { delim, .. } => match st {
            Some(s) => b_stmt(b, s, delim),
            None => Err(stmt_error_message()),
        },
    }
}

/// The builder after segments `segs` of source `src`, the expression of
/// segment `k` forming statement `sts[k]`, or the error message.
pub open spec fn b_segments(b: BuilderV, src: Seq<char>, segs: Seq<Segment>, sts: Seq<Option<SynV>>) -> Result<
    BuilderV,
    Seq<char>,
>
    decreases segs.len(),
{
    if segs.len() == 0 {
        Ok(b)
    } else {
        match b_segments(b, src, segs.drop_last(), sts.drop_last()) {
            Ok(b1) => b_segment(b1, src, segs.last(), sts.last()),
            Err(e) => Err(e),
        }
    }
}

/// An error on a prefix of the segments is the error of them all.
pub proof fn lemma_b_segments_prefix_err(b: BuilderV, src: Seq<char>, segs: Seq<Segment>, sts: Seq<Option<SynV>>, m: int)
    requires
        0 <= m <= segs.len(),
        sts.len() == segs.len(),
        b_segments(b, src, segs.take(m), sts.take(m)) is Err,
    ensures
        b_segments(b, src, segs, sts) == b_segments(b, src, segs.take(m), sts.take(m)),
    decreases segs.len(),
{
    if m == segs.len() {
        assert(segs.take(m) =~= segs);
        assert(sts.take(m) =~= sts);
    } else {
        assert(segs.drop_last().take(m) =~= segs.take(m));
        assert(sts.drop_last().take(m) =~= sts.take(m));
        lemma_b_segments_prefix_err(b, src, segs.drop_last(), sts.drop_last(), m);
    }
}

/// An error after the first `m` segments is an error of the whole source,
/// whatever the later statements are.
pub proof fn lemma_build_err(src: Seq<char>, names: int, segs: Seq<Segment>, done: Seq<Option<SynV>>, m: int)
    requires
        spec_scan(src) == Ok::<Seq<Segment>, crate::parser::ScanError>(segs),
        0 <= m <= segs.len(),
        done.len() == m,
        forall|j: int| 0 <= j < m ==> (#[trigger] done[j] matches Some(s) ==> lexed_stmt(s)),
        b_segments(builder_init(names), src, segs.take(m), done) is Err,
    ensures
        exists|sts: Seq<Option<SynV>>| lexed_stmts(segs, sts)
            && spec_build(src, names, sts) == b_segments(builder_init(names), src, segs.take(m), done),
{
    let sts = done + Seq::new((segs.len() - m) as nat, |i: int| None::<SynV>);
    assert(sts.take(m) =~= done);
    lemma_b_segments_prefix_err(builder_init(names), src, segs, sts, m);
    assert forall|k: int| 0 <= k < sts.len() implies (#[trigger] sts[k] matches Some(s) ==> lexed_stmt(s)) by {
        if k < m {
            assert(sts[k] == done[k]);
        }
    }
    assert(lexed_stmts(segs, sts));
}

/// The builder when the source ends, or the error message.
pub open spec fn b_finish(b: BuilderV) -> Result<BuilderV, Seq<char>> {
    if b.scopes.len() == 0 {
        Ok(b)
    } else {
        Err("unclosed `"@ + scope_name(b.scopes.last()) + "` scope"@)
    }
}

/// The contents of template source `src`, generated names numbered from
/// `names`, the expression of segment `k` forming statement `sts[k]`, or
/// the error message.
pub open spec fn spec_build(src: Seq<char>, names: int, sts: Seq<Option<SynV>>) -> Result<BuilderV, Seq<char>> {
    match spec_scan(src) {
        Err(e) => Err(scan_error_message(e)),
        Ok(segs) => match b_segments(builder_init(names), src, segs, sts) {
            Ok(b) => b_finish(b),
            Err(e) => Err(e),
        },
    }
}

/// Whether `sts` may be the statements of the expressions of segments
/// `segs`: each expression's statement is one that some lexed tokens form,
/// or none.
pub open spec fn lexed_stmts(segs: Seq<Segment>, sts: Seq<Option<SynV>>) -> bool {
    &&& sts.len() == segs.len()
    &&& forall|k: int| 0 <= k < sts.len() ==> (#[trigger] sts[k] matches Some(s) ==> lexed_stmt(s))
}

/// Syntax tree builder for one template source.
pub struct SynVisitor {
    layout: Option<LayoutTempl>,
    imports: Vec<ImportRequest>,
    blocks: Vec<BlockContent>,
    statics: Vec<String>,
    root: Vec<StmtTempl>,
    /// currently open scopes
    scopes: Vec<Scope>,
    names: u64,
}

pub open spec fn imports_view(v: Seq<ImportRequest>) -> Seq<(Seq<char>, Seq<char>)> {
    Seq::new(v.len(), |i: int| (v[i].path@, v[i].alias@))
}

pub open spec fn blocks_view(v: Seq<BlockContent>) -> Seq<BlockV> {
    Seq::new(v.len(), |i: int| v[i]@)
}

pub open spec fn strings_view(v: Seq<String>) -> Seq<Seq<char>> {
    Seq::new(v.len(), |i: int| v[i]@)
}

pub open spec fn scopes_view(v: Seq<Scope>) -> Seq<ScopeV> {
    Seq::new(v.len(), |i: int| v[i]@)
}

/// Every open scope's `else` chain is well formed.
pub open spec fn scopes_wf(s: Seq<ScopeV>) -> bool {
    forall|k: int| 0 <= k < s.len() ==> else_wf(#[trigger] s[k])
}

impl View for SynVisitor {
    type V = BuilderV;

    closed spec fn view(&self) -> BuilderV {
        BuilderV {
            layout: match self.layout {
                Some(l) => Some(l.path@),
                None => None,
            },
            imports: imports_view(self.imports@),
            blocks: blocks_view(self.blocks@),
            statics: strings_view(self.statics@),
            root: view_stmts(self.root@),
            scopes: scopes_view(self.scopes@),
            names: self.names as int,
        }
    }
}

impl SynVisitor {
    /// The builder's invariant: open scopes have well formed `else`
    /// chains and no block scope is left among the statements.
    pub closed spec fn wf(&self) -> bool {
        self.inv() && builder_ok(self@)
    }

    /// A well formed builder holds no block scope among its statements.
    pub proof fn lemma_wf_ok(v: &SynVisitor)
        requires
            v.wf(),
        ensures
            builder_ok(v@),
    {
    }

    closed spec fn inv(&self) -> bool {
        scopes_wf(scopes_view(self.scopes@))
    }

    /// A builder with nothing seen, naming generated templates from `names`.
    pub fn new(names: u64) -> (r: Self)
        ensures
            r.wf(),
            r@ == builder_init(names as int),
    {
        let r = SynVisitor {
            layout: None,
            imports: Vec::new(),
            blocks: Vec::new(),
            statics: Vec::new(),
            root: Vec::new(),
            scopes: Vec::new(),
            names,
        };
        assert(r@.imports =~= seq![]);
        assert(r@.blocks =~= seq![]);
        assert(r@.statics =~= seq![]);
        assert(r@.scopes =~= seq![]);
        assert(r@.root =~= seq![]);
        r
    }

    /// Appends `stmt` to the statements currently filled.
    fn push_stmt(&mut self, stmt: StmtTempl)
        requires
            old(self).inv(),
        ensures
            final(self).inv(),
            final(self)@ == b_push(old(self)@, stmt@),
    {
        let ghost b = self@;
        match self.scopes.pop() {
            Some(top) => {
                let top2 = top.pushed(stmt);
                self.scopes.push(top2);
                assert(scopes_view(self.scopes@) =~= b.scopes.update(b.scopes.len() - 1, scope_push(b.scopes.last(), stmt@)));
            },
            None => {
                proof {
                    crate::ast::lemma_view_stmts_push(self.root@, stmt);
                }
                self.root.push(stmt);
            },
        }
    }

    /// Collects static content.
    pub fn visit_static(&mut self, source: &str)
        requires
            old(self).wf(),
            old(self)@.statics.len() < u32::MAX,
        ensures
            final(self).wf(),
            final(self)@ == b_static(old(self)@, source@),
    {
        proof {
            lemma_b_push_ok(
                BuilderV { statics: self@.statics.push(source@), ..self@ },
                StmtV::Scalar(ScalarV::Static(source@, self@.statics.len() as int)),
            );
        }
        let index = self.statics.len() as u32;
        self.statics.push(owned(source));
        assert(strings_view(self.statics@) =~= old(self)@.statics.push(source@));
        self.push_stmt(StmtTempl::Scalar(Scalar::Static { value: owned(source), index }));
    }

    /// Asks for an import of `path` aliased `alias`, unless asked already.
    #[verifier::loop_isolation(false)]
    fn import_only(&mut self, path: String, alias: String)
        requires
            old(self).inv(),
        ensures
            final(self).inv(),
            final(self)@ == b_import(old(self)@, path@, alias@),
    {
        let mut k: usize = 0;
        while k < self.imports.len()
            invariant
                k <= self.imports@.len(),
                forall|j: int| 0 <= j < k ==> (#[trigger] self.imports@[j]).path@ != path@,
            decreases self.imports@.len() - k,
        {
            if str_eq(self.imports[k].path.as_str(), path.as_str()) {
                assert(self@.imports[k as int].0 == path@);
                return;
            }
            k = k + 1;
        }
        assert(!has_import(self@, path@));
        self.imports.push(ImportRequest { path, alias });
        assert(imports_view(self.imports@) =~= old(self)@.imports.push((path@, alias@)));
    }

    /// Asks for an import of `path` under a generated name.
    fn import(&mut self, path: &String)
        requires
            old(self).inv(),
            old(self)@.names < u64::MAX,
        ensures
            final(self).inv(),
            final(self)@ == b_import_named(old(self)@, path@),
    {
        let mut alias = String::from_str("TourTemplate");
        push_decimal(&mut alias, self.names);
        self.names = self.names + 1;
        self.import_only(copy_string(path), alias);
    }

    /// Collects an expression written with delimiter `delim`: lexes and
    /// parses it as a statement, then applies the statement
    /// ([`SynVisitor::visit_stmt`]). What the lexer gives back depends on
    /// the process, so the statement applied is stated to be one that some
    /// lexed tokens form.
    pub fn visit_expr(&mut self, source: &str, delim: Delimiter) -> (r: Result<(), ParseError>)
        requires
            old(self).wf(),
            old(self)@.names < u64::MAX,
        ensures
            r is Ok ==> final(self).wf(),
            match r {
                Ok(()) => exists|s: SynV| lexed_stmt(s) && b_stmt(old(self)@, s, delim) == Ok::<BuilderV, Seq<char>>(final(self)@),
                Err(e) => (e.spec_message() == stmt_error_message() && final(self)@ == old(self)@) || exists|s: SynV|
                    lexed_stmt(s) && b_stmt(old(self)@, s, delim) == Err::<BuilderV, Seq<char>>(e.spec_message()),
            },
    {
        let stmt = match parse_stmt(source) {
            Ok(s) => s,
            Err(e) => {
                return Err(e);
            },
        };
        let ghost s = stmt@;
        let r = self.visit_stmt(stmt, delim);
        assert(lexed_stmt(s));
        r
    }

    /// Applies statement `stmt`, written with delimiter `delim`.
    pub fn visit_stmt(&mut self, stmt: StmtSyn, delim: Delimiter) -> (r: Result<(), ParseError>)
        requires
            old(self).wf(),
            old(self)@.names < u64::MAX,
        ensures
            r is Ok ==> final(self).wf(),
            match r {
                Ok(()) => b_stmt(old(self)@, stmt@, delim) == Ok::<BuilderV, Seq<char>>(final(self)@),
                Err(e) => b_stmt(old(self)@, stmt@, delim) == Err::<BuilderV, Seq<char>>(e.spec_message()),
            },
    {
        let ghost b = self@;
        let ghost s = stmt@;
        let r = self.apply(stmt, delim);
        proof {
            lemma_b_stmt_ok(b, s, delim);
        }
        r
    }

    /// Applies statement `stmt`.
    #[verifier::rlimit(40)]
    #[verifier::spinoff_prover]
    fn apply(&mut self, stmt: StmtSyn, delim: Delimiter) -> (r: Result<(), ParseError>)
        requires
            old(self).inv(),
            old(self)@.names < u64::MAX,
        ensures
            final(self).inv(),
            match r {
                Ok(()) => b_stmt(old(self)@, stmt@, delim) == Ok::<BuilderV, Seq<char>>(final(self)@),
                Err(e) => b_stmt(old(self)@, stmt@, delim) == Err::<BuilderV, Seq<char>>(e.spec_message()),
            },
    {
        assert(view_stmts(Seq::<StmtTempl>::empty()) == Seq::<StmtV>::empty());
        match stmt {
            StmtSyn::Layout(new_layout) => {
                if self.layout.is_some() {
                    return Err(ParseError::Generic(String::from_str("cannot have 2 `extends` or `layout`")));
                }
                let path = copy_string(&new_layout.path);
                self.layout = Some(new_layout);
                self.import(&path);
            },
            StmtSyn::Use(templ) => {
                self.import_only(templ.path, templ.ident);
            },
            StmtSyn::Render(templ) => {
                match &templ.value {
                    RenderValue::Path(p) => {
                        self.import(p);
                    },
                    RenderValue::Ident(_) => {},
                }
                self.push_stmt(StmtTempl::Scalar(Scalar::Render(templ)));
            },
            StmtSyn::Yield => {
                self.push_stmt(StmtTempl::Scalar(Scalar::Yield));
            },
            StmtSyn::Item(item) => {
                self.push_stmt(StmtTempl::Scalar(Scalar::Item(item)));
            },
            StmtSyn::Expr(expr) => {
                self.push_stmt(StmtTempl::Scalar(Scalar::Expr { expr, delim }));
            },
            StmtSyn::Block(templ) => {
                self.open(Scope::Block { templ, stmts: Vec::new() });
            },
            StmtSyn::If(templ) => {
                self.open(Scope::If { templ, stmts: Vec::new(), else_branch: None });
            },
            StmtSyn::For(templ) => {
                self.open(Scope::For { templ, stmts: Vec::new(), else_branch: None });
            },
            StmtSyn::Else(ElseTempl { elif_branch }) => {
                return self.visit_else(elif_branch, delim);
            },
            StmtSyn::Endblock => {
                return self.close_block(delim);
            },
            StmtSyn::EndIf => {
                return self.close_if(delim);
            },
            StmtSyn::EndFor => {
                return self.close_for(delim);
            },
        }
        Ok(())
    }

    /// Builds the contents of template source `source`, naming generated
    /// templates from `names`. What the lexer gives back for each expression
    /// depends on the process: the result is stated to be the one of some
    /// statements that lexed tokens form.
    pub fn generate(source: &str, names: u64) -> (r: Result<SynVisitor, ParseError>)
        requires
            source@.len() + 1 < u32::MAX,
            names + source@.len() + 1 < u64::MAX,
        ensures
            match r {
                Ok(v) => v.wf() && exists|sts: Seq<Option<SynV>>| (spec_scan(source@) matches Ok(segs) && lexed_stmts(segs, sts))
                    && spec_build(source@, names as int, sts) == Ok::<BuilderV, Seq<char>>(v@),
                Err(e) => exists|sts: Seq<Option<SynV>>| (spec_scan(source@) matches Ok(segs) ==> lexed_stmts(segs, sts))
                    && spec_build(source@, names as int, sts) == Err::<BuilderV, Seq<char>>(e.spec_message()),
            },
    {
        let segs = match scan(source) {
            Ok(segs) => segs,
            Err(e) => {
                assert(spec_build(source@, names as int, seq![]) == Err::<BuilderV, Seq<char>>(e.spec_message()));
                return Err(e);
            },
        };
        proof {
            lemma_scan_count(source@);
        }
        let mut v = SynVisitor::new(names);
        let ghost init = v@;
        let ghost mut done: Seq<Option<SynV>> = seq![];
        let mut k: usize = 0;
        assert(segs@.take(0) =~= Seq::<Segment>::empty());
        while k < segs.len()
            invariant
                v.wf(),
                k <= segs@.len() <= source@.len() + 1,
                segments_wf(segs@, source@.len() as int),
                source@.len() + 1 < u32::MAX,
                names + source@.len() + 1 < u64::MAX,
                v@.statics.len() <= k,
                v@.names <= names + k,
                init == builder_init(names as int),
                spec_scan(source@) == Ok::<Seq<Segment>, crate::parser::ScanError>(segs@),
                done.len() == k,
                forall|j: int| 0 <= j < k ==> (#[trigger] done[j] matches Some(s) ==> lexed_stmt(s)),
                b_segments(init, source@, segs@.take(k as int), done) == Ok::<BuilderV, Seq<char>>(v@),
            decreases segs@.len() - k,
        {
            let ghost b = v@;
            let ghost seg = segs@[k as int];
            assert(segs@.take(k + 1).drop_last() =~= segs@.take(k as int));
            assert(segs@.take(k + 1).last() == seg);
            match segs[k] {
                Segment::Static { start, end } => {
                    v.visit_static(slice(source, start, end));
                    proof {
                        let d2 = done.push(None);
                        assert(d2.drop_last() =~= done);
                        done = d2;
                    }
                },
                Segment::Expr { start, end, delim } => {
                    let text = slice(source, start, end);
                    let stmt = match parse_stmt(text) {
                        Ok(s) => s,
                        Err(e) => {
                            proof {
                                let d2 = done.push(None);
                                assert(d2.drop_last() =~= done);
                                lemma_build_err(source@, names as int, segs@, d2, k as int + 1);
                            }
                            return Err(e);
                        },
                    };
                    let ghost st = stmt@;
                    match v.visit_stmt(stmt, delim) {
                        Ok(()) => {},
                        Err(e) => {
                            proof {
                                let d2 = done.push(Some(st));
                                assert(d2.drop_last() =~= done);
                                lemma_build_err(source@, names as int, segs@, d2, k as int + 1);
                            }
                            return Err(e);
                        },
                    }
                    proof {
                        lemma_b_stmt_counts(b, st, delim);
                        let d2 = done.push(Some(st));
                        assert(d2.drop_last() =~= done);
                        done = d2;
                    }
                },
            }
            k = k + 1;
        }
        assert(segs@.take(k as int) =~= segs@);
        let ghost vb = v@;
        proof {
            assert(lexed_stmts(segs@, done));
            assert(spec_build(source@, names as int, done) == b_finish(vb));
        }
        let r = v.finish();
        proof {
            match &r {
                Ok(v2) => {
                    assert(spec_build(source@, names as int, done) == Ok::<BuilderV, Seq<char>>(v2@));
                },
                Err(e) => {
                    assert(spec_build(source@, names as int, done) == Err::<BuilderV, Seq<char>>(e.spec_message()));
                },
            }
        }
        r
    }

    /// Ends the source: fails when a scope is still open.
    fn finish(self) -> (r: Result<SynVisitor, ParseError>)
        requires
            self.wf(),
        ensures
            match r {
                Ok(v) => v.wf() && b_finish(self@) == Ok::<BuilderV, Seq<char>>(v@),
                Err(e) => b_finish(self@) == Err::<BuilderV, Seq<char>>(e.spec_message()),
            },
    {
        match self.scopes.last() {
            Some(top) => {
                let mut s = String::from_str("unclosed `");
                s.append(top.name());
                s.append("` scope");
                Err(ParseError::Generic(s))
            },
            None => Ok(self),
        }
    }

    /// The number of the next generated template name.
    pub fn names(&self) -> (r: u64)
        ensures
            r == self@.names,
    {
        self.names
    }

    /// The imports the source asks for, in order.
    pub fn import_requests(&self) -> (r: &Vec<ImportRequest>)
        ensures
            imports_view(r@) == self@.imports,
    {
        &self.imports
    }

    /// Splits the builder into layout, import requests, blocks, static
    /// contents and top-level statements.
    pub fn into_parts(self) -> (r: (Option<LayoutTempl>, Vec<ImportRequest>, Vec<BlockContent>, Vec<String>, Vec<StmtTempl>))
        ensures
            match r.0 {
                Some(l) => self@.layout == Some(l.path@),
                None => self@.layout is None,
            },
            imports_view(r.1@) == self@.imports,
            blocks_view(r.2@) == self@.blocks,
            strings_view(r.3@) == self@.statics,
            view_stmts(r.4@) == self@.root,
    {
        (self.layout, self.imports, self.blocks, self.statics, self.root)
    }

    fn open(&mut self, scope: Scope)
        requires
            old(self).inv(),
            else_wf(scope@),
        ensures
            final(self).inv(),
            final(self)@ == b_open(old(self)@, scope@),
    {
        self.scopes.push(scope);
        assert(scopes_view(self.scopes@) =~= old(self)@.scopes.push(scope@));
    }

    /// The message when `what` closes the wrong scope.
    fn close_error(&self, what: &str) -> (r: ParseError)
        ensures
            r.spec_message() == close_message(what@, self@),
    {
        let mut s = concat("cannot close `", what);
        match self.scopes.last() {
            Some(top) => {
                s.append("` in `");
                s.append(top.name());
                s.append("` scope");
            },
            None => {
                s.append("` in toplevel");
            },
        }
        ParseError::Generic(s)
    }

    fn visit_else(&mut self, elif: Option<String>, delim: Delimiter) -> (r: Result<(), ParseError>)
        requires
            old(self).inv(),
        ensures
            final(self).inv(),
            match r {
                Ok(()) => b_stmt(old(self)@, SynV::Else(crate::syntax::opt_view(elif)), delim) == Ok::<BuilderV, Seq<char>>(final(self)@),
                Err(e) => b_stmt(old(self)@, SynV::Else(crate::syntax::opt_view(elif)), delim) == Err::<BuilderV, Seq<char>>(e.spec_message()),
            },
    {
        let ghost b = self@;
        if self.scopes.len() == 0 {
            return Err(self.close_error("else"));
        }
        let err = self.close_error("else");
        let top = self.scopes.pop().unwrap();
        assert(top@ == b.scopes.last());
        assert(else_wf(top@));
        assert(scopes_view(self.scopes@) =~= b.scopes.drop_last());
        match top {
            Scope::If { templ, stmts, else_branch } => {
                let new = match elif {
                    Some(cond) => Scope::If { templ: IfTempl { cond }, stmts: Vec::new(), else_branch: None },
                    None => Scope::Root { stmts: Vec::new() },
                };
                assert(view_stmts(Seq::<StmtTempl>::empty()) == Seq::<StmtV>::empty());
                match fill_else(else_branch, new) {
                    Some(e2) => {
                        let scope = Scope::If { templ, stmts, else_branch: e2 };
                        assert(else_wf(scope@)) by {
                            crate::ast::lemma_else_fill_wf(b.scopes.last(), match elif {
                                Some(c2) => ScopeV::If(c2@, seq![], None),
                                None => ScopeV::Root(seq![]),
                            });
                        }
                        self.scopes.push(scope);
                        assert(scopes_view(self.scopes@) =~= b.scopes.update(b.scopes.len() - 1, scope@));
                        assert forall|k: int| 0 <= k < self@.scopes.len() implies else_wf(#[trigger] self@.scopes[k]) by {
                            if k < b.scopes.len() - 1 {
                                assert(self@.scopes[k] == b.scopes[k]);
                            }
                        }
                        Ok(())
                    },
                    None => Err(ParseError::Generic(String::from_str("cannot have 2 `else`"))),
                }
            },
            Scope::For { templ, stmts, else_branch } => {
                if else_branch.is_some() {
                    return Err(ParseError::Generic(String::from_str("cannot have 2 `else` in `for` scope")));
                }
                let inner = Scope::Root { stmts: Vec::new() };
                assert(inner@ is Root);
                let scope = Scope::For { templ, stmts, else_branch: Some(Box::new(inner)) };
                assert(view_stmts(Seq::<StmtTempl>::empty()) == Seq::<StmtV>::empty());
                assert(else_wf(scope@));
                self.scopes.push(scope);
                assert(scopes_view(self.scopes@) =~= b.scopes.update(b.scopes.len() - 1, scope@));
                assert forall|k: int| 0 <= k < self@.scopes.len() implies else_wf(#[trigger] self@.scopes[k]) by {
                    if k < b.scopes.len() - 1 {
                        assert(self@.scopes[k] == b.scopes[k]);
                    }
                }
                Ok(())
            },
            _ => Err(err),
        }
    }

    fn close_block(&mut self, delim: Delimiter) -> (r: Result<(), ParseError>)
        requires
            old(self).inv(),
        ensures
            final(self).inv(),
            match r {
                Ok(()) => b_stmt(old(self)@, SynV::Endblock, delim) == Ok::<BuilderV, Seq<char>>(final(self)@),
                Err(e) => b_stmt(old(self)@, SynV::Endblock, delim) == Err::<BuilderV, Seq<char>>(e.spec_message()),
            },
    {
        let ghost b = self@;
        let err = self.close_error("endblock");
        match self.scopes.last() {
            Some(Scope::Block { .. }) => {},
            _ => {
                return Err(err);
            },
        }
        let top = self.scopes.pop().unwrap();
        assert(top@ == b.scopes.last());
        assert(scopes_view(self.scopes@) =~= b.scopes.drop_last());
        match top {
            Scope::Block { templ, stmts } => {
                if !templ.static_token {
                    let name = copy_string(&templ.name);
                    self.push_stmt(
                        StmtTempl::Scalar(
                            Scalar::Render(RenderTempl { value: RenderValue::Ident(name), block: None }),
                        ),
                    );
                }
                let ghost before = self@;
                self.blocks.push(BlockContent { templ, stmts });
                assert(blocks_view(self.blocks@) =~= before.blocks.push(self.blocks@.last()@));
                Ok(())
            },
            _ => Err(err),
        }
    }

    fn close_if(&mut self, delim: Delimiter) -> (r: Result<(), ParseError>)
        requires
            old(self).inv(),
        ensures
            final(self).inv(),
            match r {
                Ok(()) => b_stmt(old(self)@, SynV::EndIf, delim) == Ok::<BuilderV, Seq<char>>(final(self)@),
                Err(e) => b_stmt(old(self)@, SynV::EndIf, delim) == Err::<BuilderV, Seq<char>>(e.spec_message()),
            },
    {
        let ghost b = self@;
        let err = self.close_error("endif");
        match self.scopes.last() {
            Some(Scope::If { .. }) => {},
            _ => {
                return Err(err);
            },
        }
        let top = self.scopes.pop().unwrap();
        assert(top@ == b.scopes.last());
        assert(scopes_view(self.scopes@) =~= b.scopes.drop_last());
        self.push_stmt(StmtTempl::Scope(top));
        Ok(())
    }

    fn close_for(&mut self, delim: Delimiter) -> (r: Result<(), ParseError>)
        requires
            old(self).inv(),
        ensures
            final(self).inv(),
            match r {
                Ok(()) => b_stmt(old(self)@, SynV::EndFor, delim) == Ok::<BuilderV, Seq<char>>(final(self)@),
                Err(e) => b_stmt(old(self)@, SynV::EndFor, delim) == Err::<BuilderV, Seq<char>>(e.spec_message()),
            },
    {
        let ghost b = self@;
        let err = self.close_error("endfor");
        match self.scopes.last() {
            Some(Scope::For { .. }) => {},
            _ => {
                return Err(err);
            },
        }
        let top = self.scopes.pop().unwrap();
        assert(top@ == b.scopes.last());
        assert(scopes_view(self.scopes@) =~= b.scopes.drop_last());
        self.push_stmt(StmtTempl::Scope(top));
        Ok(())
    }
}

/// A statement leaves the static contents as they are and uses at most one
/// generated name.
pub proof fn lemma_b_stmt_counts(b: BuilderV, s: SynV, delim: Delimiter)
    ensures
        b_stmt(b, s, delim) matches Ok(b2) ==> b2.statics.len() == b.statics.len()
            && b.names <= b2.names <= b.names + 1,
{
}

/// An import request for `x` stays when another import is asked for.
pub proof fn lemma_import_keeps(b: BuilderV, p: Seq<char>, a: Seq<char>, x: Seq<char>)
    requires
        has_import(b, x),
    ensures
        has_import(b_import(b, p, a), x),
{
    if !has_import(b, p) {
        let k = choose|k: int| 0 <= k < b.imports.len() && (#[trigger] b.imports[k]).0 == x;
        assert(b_import(b, p, a).imports[k] == b.imports[k]);
    }
}

/// An import of `p` is asked for once it was asked for.
pub proof fn lemma_import_has(b: BuilderV, p: Seq<char>, a: Seq<char>)
    ensures
        has_import(b_import(b, p, a), p),
{
    if !has_import(b, p) {
        let n = b.imports.len() as int;
        assert(b_import(b, p, a).imports[n].0 == p);
    }
}

/// The builder holds no block scope among its statements: in the top level,
/// in the open scopes, or in the closed blocks.
pub open spec fn builder_ok(b: BuilderV) -> bool {
    &&& (b.layout matches Some(l) ==> has_import(b, l))
    &&& stmts_ok(b.root)
    &&& forall|k: int| 0 <= k < b.scopes.len() ==> scope_ok(#[trigger] b.scopes[k])
    &&& forall|k: int| 0 <= k < b.blocks.len() ==> stmts_ok((#[trigger] b.blocks[k]).3)
}

pub proof fn lemma_b_push_ok(b: BuilderV, st: StmtV)
    requires
        builder_ok(b),
        stmt_ok(st),
    ensures
        builder_ok(b_push(b, st)),
{
    assert(b_push(b, st).imports == b.imports);
    assert(b_push(b, st).layout == b.layout);
    if b.scopes.len() == 0 {
        lemma_stmts_ok_push(b.root, st);
    } else {
        lemma_scope_push_ok(b.scopes.last(), st);
        let b2 = b_push(b, st);
        assert forall|k: int| 0 <= k < b2.scopes.len() implies scope_ok(#[trigger] b2.scopes[k]) by {
            if k < b.scopes.len() - 1 {
                assert(b2.scopes[k] == b.scopes[k]);
            }
        }
    }
}

/// A statement never leaves a block scope among the builder's statements.
pub proof fn lemma_b_stmt_ok(b: BuilderV, s: SynV, delim: Delimiter)
    requires
        builder_ok(b),
    ensures
        b_stmt(b, s, delim) matches Ok(b2) ==> builder_ok(b2),
{
    lemma_stmts_ok_empty();
    match s {
        SynV::Layout(p) => {
            if b.layout is None {
                lemma_import_has(BuilderV { layout: Some(p), names: b.names + 1, ..b }, p, gen_name(b.names));
            }
        },
        SynV::Use(p, alias) => {
            if let Some(l) = b.layout {
                lemma_import_keeps(b, p, alias, l);
            }
        },
        SynV::Render(v, blk) => {
            let b1 = match v {
                RenderValueV::Path(p) => b_import_named(b, p),
                RenderValueV::Ident(_) => b,
            };
            if let RenderValueV::Path(p) = v {
                if let Some(l) = b.layout {
                    lemma_import_keeps(BuilderV { names: b.names + 1, ..b }, p, gen_name(b.names), l);
                }
            }
            lemma_b_push_ok(b1, StmtV::Scalar(ScalarV::Render(v, blk)));
        },
        SynV::Yield => lemma_b_push_ok(b, StmtV::Scalar(ScalarV::Yield)),
        SynV::ItemUse(t) => lemma_b_push_ok(b, StmtV::Scalar(ScalarV::ItemUse(t))),
        SynV::ItemConst(t) => lemma_b_push_ok(b, StmtV::Scalar(ScalarV::ItemConst(t))),
        SynV::Expr(t) => lemma_b_push_ok(b, StmtV::Scalar(ScalarV::Expr(t, delim))),
        SynV::Block(p, st, n) => {
            let b2 = b_open(b, ScopeV::Block(p, st, n, seq![]));
            assert forall|k: int| 0 <= k < b2.scopes.len() implies scope_ok(#[trigger] b2.scopes[k]) by {
                if k < b.scopes.len() {
                    assert(b2.scopes[k] == b.scopes[k]);
                }
            }
        },
        SynV::If(c) => {
            let b2 = b_open(b, ScopeV::If(c, seq![], None));
            assert forall|k: int| 0 <= k < b2.scopes.len() implies scope_ok(#[trigger] b2.scopes[k]) by {
                if k < b.scopes.len() {
                    assert(b2.scopes[k] == b.scopes[k]);
                }
            }
        },
        SynV::For(p, x) => {
            let b2 = b_open(b, ScopeV::For(p, x, seq![], None));
            assert forall|k: int| 0 <= k < b2.scopes.len() implies scope_ok(#[trigger] b2.scopes[k]) by {
                if k < b.scopes.len() {
                    assert(b2.scopes[k] == b.scopes[k]);
                }
            }
        },
        SynV::Else(elif) => {
            if b.scopes.len() > 0 {
                let top = b.scopes.last();
                assert(scope_ok(top));
                match top {
                    ScopeV::If(c, s0, e) => {
                        let new = match elif {
                            Some(c2) => ScopeV::If(c2, seq![], None),
                            None => ScopeV::Root(seq![]),
                        };
                        lemma_else_fill_ok(e, new);
                        if let Some(e2) = else_fill(e, new) {
                            let b2 = b_set_top(b, ScopeV::If(c, s0, e2));
                            assert forall|k: int| 0 <= k < b2.scopes.len() implies scope_ok(#[trigger] b2.scopes[k]) by {
                                if k < b.scopes.len() - 1 {
                                    assert(b2.scopes[k] == b.scopes[k]);
                                }
                            }
                        }
                    },
                    ScopeV::For(p, x, s0, e) => {
                        let b2 = b_set_top(b, ScopeV::For(p, x, s0, Some(Box::new(ScopeV::Root(seq![])))));
                        assert(scope_ok(ScopeV::Root(seq![])));
                        assert(scope_ok(ScopeV::For(p, x, s0, Some(Box::new(ScopeV::Root(seq![]))))));
                        assert forall|k: int| 0 <= k < b2.scopes.len() implies scope_ok(#[trigger] b2.scopes[k]) by {
                            if k < b.scopes.len() - 1 {
                                assert(b2.scopes[k] == b.scopes[k]);
                            }
                        }
                    },
                    _ => {},
                }
            }
        },
        SynV::Endblock => {
            if b.scopes.len() > 0 && b.scopes.last() is Block {
                match b.scopes.last() {
                    ScopeV::Block(p, st, n, s0) => {
                        assert(scope_ok(b.scopes.last()));
                        let b1 = b_pop(b);
                        assert forall|k: int| 0 <= k < b1.scopes.len() implies scope_ok(#[trigger] b1.scopes[k]) by {
                            assert(b1.scopes[k] == b.scopes[k]);
                        }
                        let b2 = if st {
                            b1
                        } else {
                            lemma_b_push_ok(b1, StmtV::Scalar(ScalarV::Render(RenderValueV::Ident(n), None)));
                            b_push(b1, StmtV::Scalar(ScalarV::Render(RenderValueV::Ident(n), None)))
                        };
                        let b3 = BuilderV { blocks: b2.blocks.push((p, st, n, s0)), ..b2 };
                        assert forall|k: int| 0 <= k < b3.blocks.len() implies stmts_ok((#[trigger] b3.blocks[k]).3) by {
                            if k < b2.blocks.len() {
                                assert(b3.blocks[k] == b2.blocks[k]);
                            }
                        }
                    },
                    _ => {},
                }
            }
        },
        SynV::EndIf => {
            if b.scopes.len() > 0 && b.scopes.last() is If {
                let b1 = b_pop(b);
                assert forall|k: int| 0 <= k < b1.scopes.len() implies scope_ok(#[trigger] b1.scopes[k]) by {
                    assert(b1.scopes[k] == b.scopes[k]);
                }
                assert(scope_ok(b.scopes.last()));
                lemma_b_push_ok(b1, StmtV::Scope(b.scopes.last()));
            }
        },
        SynV::EndFor => {
            if b.scopes.len() > 0 && b.scopes.last() is For {
                let b1 = b_pop(b);
                assert forall|k: int| 0 <= k < b1.scopes.len() implies scope_ok(#[trigger] b1.scopes[k]) by {
                    assert(b1.scopes[k] == b.scopes[k]);
                }
                assert(scope_ok(b.scopes.last()));
                lemma_b_push_ok(b1, StmtV::Scope(b.scopes.last()));
            }
        },
    }
}

/// A statement leaves the static contents as they are.
pub proof fn lemma_b_stmt_statics(b: BuilderV, s: SynV, delim: Delimiter)
    ensures
        b_stmt(b, s, delim) matches Ok(b2) ==> b2.statics == b.statics,
{
}

pub proof fn lemma_b_segments_statics(b: BuilderV, src: Seq<char>, segs: Seq<Segment>, sts: Seq<Option<SynV>>)
    ensures
        b_segments(b, src, segs, sts) matches Ok(b2) ==> b2.statics == b.statics + statics_of(src, segs),
    decreases segs.len(),
{
    if segs.len() == 0 {
        assert(b.statics + Seq::<Seq<char>>::empty() =~= b.statics);
    } else {
        let init = segs.drop_last();
        lemma_b_segments_statics(b, src, init, sts.drop_last());
        match b_segments(b, src, init, sts.drop_last()) {
            Ok(b1) => {
                match segs.last() {
                    Segment::Static { start, end } => {},
                    Segment::Expr { delim, .. } => {
                        if let Some(st) = sts.last() {
                            lemma_b_stmt_statics(b1, st, delim);
                        }
                    },
                }
                assert(b.statics + statics_of(src, init) + static_piece(src, segs.last())
                    =~= b.statics + statics_of(src, segs));
            },
            Err(_) => {},
        }
    }
}

/// The static contents a source builds are its static segments, in order,
/// whatever statements its expressions form: the same a
/// [`crate::parser::StaticVisitor`] collects when the template is reloaded
/// at run time.
pub proof fn law_build_statics(src: Seq<char>, names: int, sts: Seq<Option<SynV>>)
    ensures
        spec_build(src, names, sts) matches Ok(b) ==> (spec_scan(src) matches Ok(segs) && b.statics == statics_of(src, segs)),
{
    if let Ok(segs) = spec_scan(src) {
        lemma_b_segments_statics(builder_init(names), src, segs, sts);
        assert(Seq::<Seq<char>>::empty() + statics_of(src, segs) =~= statics_of(src, segs));
    }
}

/// No path is asked for twice.
pub open spec fn imports_distinct(b: BuilderV) -> bool {
    forall|i: int, j: int| 0 <= i < j < b.imports.len() ==> (#[trigger] b.imports[i]).0 != (#[trigger] b.imports[j]).0
}

pub proof fn lemma_b_import_distinct(b: BuilderV, p: Seq<char>, a: Seq<char>)
    requires
        imports_distinct(b),
    ensures
        imports_distinct(b_import(b, p, a)),
{
    if !has_import(b, p) {
        let b2 = b_import(b, p, a);
        assert forall|i: int, j: int| 0 <= i < j < b2.imports.len() implies (#[trigger] b2.imports[i]).0 != (#[trigger] b2.imports[j]).0 by {
            if j == b.imports.len() {
                assert(b2.imports[i] == b.imports[i]);
                assert(!((b.imports[i]).0 == p));
            } else {
                assert(b2.imports[i] == b.imports[i]);
                assert(b2.imports[j] == b.imports[j]);
            }
        }
    }
}

pub proof fn lemma_b_stmt_distinct(b: BuilderV, s: SynV, delim: Delimiter)
    requires
        imports_distinct(b),
    ensures
        b_stmt(b, s, delim) matches Ok(b2) ==> imports_distinct(b2),
{
    match s {
        SynV::Layout(p) => {
            lemma_b_import_distinct(BuilderV { layout: Some(p), names: b.names + 1, ..b }, p, gen_name(b.names));
        },
        SynV::Use(p, alias) => {
            lemma_b_import_distinct(b, p, alias);
        },
        SynV::Render(RenderValueV::Path(p), _) => {
            lemma_b_import_distinct(BuilderV { names: b.names + 1, ..b }, p, gen_name(b.names));
        },
        _ => {},
    }
}

pub proof fn lemma_b_segments_wf(b: BuilderV, src: Seq<char>, segs: Seq<Segment>, sts: Seq<Option<SynV>>)
    requires
        builder_ok(b),
        imports_distinct(b),
    ensures
        b_segments(b, src, segs, sts) matches Ok(b2) ==> builder_ok(b2) && imports_distinct(b2),
    decreases segs.len(),
{
    if segs.len() > 0 {
        lemma_b_segments_wf(b, src, segs.drop_last(), sts.drop_last());
        match b_segments(b, src, segs.drop_last(), sts.drop_last()) {
            Ok(b1) => {
                match segs.last() {
                    Segment::Static { start, end } => {
                        let v = src.subrange(start as int, end as int);
                        lemma_b_push_ok(
                            BuilderV { statics: b1.statics.push(v), ..b1 },
                            StmtV::Scalar(ScalarV::Static(v, b1.statics.len() as int)),
                        );
                    },
                    Segment::Expr { delim, .. } => {
                        if let Some(st) = sts.last() {
                            lemma_b_stmt_ok(b1, st, delim);
                            lemma_b_stmt_distinct(b1, st, delim);
                        }
                    },
                }
            },
            Err(_) => {},
        }
    }
}

/// What a source builds holds no open scope and no block scope among its
/// statements, imports its layout, and asks for no path twice, whatever
/// statements its expressions form.
pub proof fn law_build_wf(src: Seq<char>, names: int, sts: Seq<Option<SynV>>)
    ensures
        spec_build(src, names, sts) matches Ok(b) ==> b.scopes.len() == 0 && builder_ok(b) && imports_distinct(b),
{
    if let Ok(segs) = spec_scan(src) {
        let b0 = builder_init(names);
        lemma_stmts_ok_empty();
        lemma_b_segments_wf(b0, src, segs, sts);
    }
}

/// Whether statement `s` is misplaced in builder state `b`: a second
/// layout, an `else` outside an `if` or `for` scope or after the plain
/// `else` of its `if` or after any `else` of its `for`, or an end statement
/// that does not close the innermost open scope of its kind.
pub open spec fn stmt_misplaced(b: BuilderV, s: SynV) -> bool {
    match s {
        SynV::Layout(_) => b.layout is Some,
        SynV::Else(elif) => b.scopes.len() == 0 || match b.scopes.last() {
            ScopeV::If(_, _, e) => else_fill(
                e,
                match elif {
                    Some(c2) => ScopeV::If(c2, seq![], None),
                    None => ScopeV::Root(seq![]),
                },
            ) is None,
            ScopeV::For(_, _, _, e) => e is Some,
            _ => true,
        },
        SynV::Endblock => !(b.scopes.len() > 0 && b.scopes.last() is Block),
        SynV::EndIf => !(b.scopes.len() > 0 && b.scopes.last() is If),
        SynV::EndFor => !(b.scopes.len() > 0 && b.scopes.last() is For),
        _ => false,
    }
}

/// How many scopes statement `s` opens (1) or closes (-1).
pub open spec fn scope_change(s: SynV) -> int {
    match s {
        SynV::Block(..) | SynV::If(_) | SynV::For(..) => 1,
        SynV::Endblock | SynV::EndIf | SynV::EndFor => -1,
        _ => 0,
    }
}

/// A statement fails exactly when it is misplaced; otherwise `block`, `if`
/// and `for` open one scope, `endblock`, `endif` and `endfor` close one, and
/// every other statement leaves the open scopes as many as they were. An
/// expression whose tokens form no statement fails with
/// [`stmt_error_message`] ([`SynVisitor::visit_expr`]).
pub proof fn law_visit_stmt_outcome(b: BuilderV, s: SynV, delim: Delimiter)
    ensures
        b_stmt(b, s, delim) is Err <==> stmt_misplaced(b, s),
        b_stmt(b, s, delim) matches Ok(b2) ==> b2.scopes.len() == b.scopes.len() + scope_change(s),
{
}

} // verus!
