//! A template: its name, its [`Metadata`] and the [`File`] of its source,
//! with the templates it imports.
use vstd::prelude::*;
use crate::ast::{
    Scalar, ScalarV, Scope, ScopeV, StmtTempl, StmtV, lemma_stmts_ok_index, scope_ok, stmt_ok,
    stmts_ok, view_stmt, view_stmts,
};
use crate::parser::ParseError;
use crate::syntax::{RenderTempl, RenderValue, RenderValueV};
use crate::metadata::{MetaV, Metadata};
use crate::syntax::LayoutTempl;
use crate::syntax::BlockTempl;
use crate::visitor::{
    BlockContent, BlockV, BuilderV, ImportRequest, SynVisitor, blocks_view, builder_ok, has_import,
    imports_view, strings_view,
};
use crate::text::str_eq;

verus! {

/// Content of a template source.
#[derive(Debug)]
pub struct File {
    layout: Option<LayoutTempl>,
    imports: Vec<Import>,
    blocks: Vec<BlockContent>,
    statics: Vec<String>,
    stmts: Vec<StmtTempl>,
}

/// An imported template: the path it was asked by, its alias, and the
/// template itself.
#[derive(Debug)]
pub struct Import {
    path: String,
    alias: String,
    templ: Template,
}

/// Contains a single file template information.
#[derive(Debug)]
pub struct Template {
    name: String,
    meta: Metadata,
    file: File,
}

/// What an identifier in a `render` resolves to.
pub enum AliasKind<'a> {
    Block(&'a BlockContent),
    Import(&'a Import),
}

/// The view of a [`File`].
pub struct FileV {
    pub layout: Option<Seq<char>>,
    pub imports: Seq<ImportV>,
    pub blocks: Seq<BlockV>,
    pub statics: Seq<Seq<char>>,
    pub stmts: Seq<StmtV>,
}

/// The view of an [`Import`].
pub struct ImportV {
    pub path: Seq<char>,
    pub alias: Seq<char>,
    pub templ: TemplateV,
}

/// The view of a [`Template`].
pub struct TemplateV {
    pub name: Seq<char>,
    pub meta: MetaV,
    pub file: FileV,
}

pub closed spec fn view_file(f: File) -> FileV
    decreases f,
{
    FileV {
        layout: match f.layout {
            Some(l) => Some(l.path@),
            None => None,
        },
        imports: view_imports(f.imports@),
        blocks: blocks_view(f.blocks@),
        statics: strings_view(f.statics@),
        stmts: view_stmts(f.stmts@),
    }
}

pub closed spec fn view_imports(v: Seq<Import>) -> Seq<ImportV>
    decreases v,
{
    if v.len() == 0 {
        seq![]
    } else {
        view_imports(v.drop_last()).push(view_import(v.last()))
    }
}

pub closed spec fn view_import(i: Import) -> ImportV
    decreases i,
{
    ImportV { path: i.path@, alias: i.alias@, templ: view_templ(i.templ) }
}

pub closed spec fn view_templ(t: Template) -> TemplateV
    decreases t,
{
    TemplateV { name: t.name@, meta: t.meta@, file: view_file(t.file) }
}

impl View for File {
    type V = FileV;

    open spec fn view(&self) -> FileV {
        view_file(*self)
    }
}

impl View for Import {
    type V = ImportV;

    open spec fn view(&self) -> ImportV {
        view_import(*self)
    }
}

impl View for Template {
    type V = TemplateV;

    open spec fn view(&self) -> TemplateV {
        view_templ(*self)
    }
}

/// The position of the first block of `bs` named `name`, or `-1`.
pub open spec fn block_pos(bs: Seq<BlockV>, name: Seq<char>) -> int
    decreases bs.len(),
{
    if bs.len() == 0 {
        -1
    } else if block_pos(bs.drop_last(), name) >= 0 {
        block_pos(bs.drop_last(), name)
    } else if bs.last().2 == name {
        bs.len() - 1
    } else {
        -1
    }
}

/// The position of the first import of `is` aliased `alias`, or `-1`.
pub open spec fn alias_pos(is: Seq<ImportV>, alias: Seq<char>) -> int
    decreases is.len(),
{
    if is.len() == 0 {
        -1
    } else if alias_pos(is.drop_last(), alias) >= 0 {
        alias_pos(is.drop_last(), alias)
    } else if is.last().alias == alias {
        is.len() - 1
    } else {
        -1
    }
}

/// The position of the first import of `is` asked by `path`, or `-1`.
pub open spec fn path_pos(is: Seq<ImportV>, path: Seq<char>) -> int
    decreases is.len(),
{
    if is.len() == 0 {
        -1
    } else if path_pos(is.drop_last(), path) >= 0 {
        path_pos(is.drop_last(), path)
    } else if is.last().path == path {
        is.len() - 1
    } else {
        -1
    }
}

pub proof fn lemma_block_pos(bs: Seq<BlockV>, name: Seq<char>)
    ensures
        -1 <= block_pos(bs, name) < bs.len(),
        block_pos(bs, name) >= 0 ==> bs[block_pos(bs, name)].2 == name,
        block_pos(bs, name) < 0 ==> forall|k: int| 0 <= k < bs.len() ==> (#[trigger] bs[k]).2 != name,
    decreases bs.len(),
{
    if bs.len() > 0 {
        lemma_block_pos(bs.drop_last(), name);
        assert forall|k: int| 0 <= k < bs.len() - 1 implies #[trigger] bs[k] == bs.drop_last()[k] by {}
    }
}

pub proof fn lemma_alias_pos(is: Seq<ImportV>, alias: Seq<char>)
    ensures
        -1 <= alias_pos(is, alias) < is.len(),
        alias_pos(is, alias) >= 0 ==> is[alias_pos(is, alias)].alias == alias,
        alias_pos(is, alias) < 0 ==> forall|k: int| 0 <= k < is.len() ==> (#[trigger] is[k]).alias != alias,
    decreases is.len(),
{
    if is.len() > 0 {
        lemma_alias_pos(is.drop_last(), alias);
        assert forall|k: int| 0 <= k < is.len() - 1 implies #[trigger] is[k] == is.drop_last()[k] by {}
    }
}

pub proof fn lemma_path_pos(is: Seq<ImportV>, path: Seq<char>)
    ensures
        -1 <= path_pos(is, path) < is.len(),
        path_pos(is, path) >= 0 ==> is[path_pos(is, path)].path == path,
        path_pos(is, path) < 0 ==> forall|k: int| 0 <= k < is.len() ==> (#[trigger] is[k]).path != path,
    decreases is.len(),
{
    if is.len() > 0 {
        lemma_path_pos(is.drop_last(), path);
        assert forall|k: int| 0 <= k < is.len() - 1 implies #[trigger] is[k] == is.drop_last()[k] by {}
    }
}

pub proof fn lemma_view_imports(v: Seq<Import>)
    ensures
        view_imports(v).len() == v.len(),
        forall|k: int| 0 <= k < v.len() ==> #[trigger] view_imports(v)[k] == view_import(v[k]),
    decreases v.len(),
{
    if v.len() > 0 {
        lemma_view_imports(v.drop_last());
        assert forall|k: int| 0 <= k < v.len() implies #[trigger] view_imports(v)[k] == view_import(v[k]) by {
            if k < v.len() - 1 {
                assert(v.drop_last()[k] == v[k]);
            }
        }
    }
}

/// The first of `blocks` named `name`.
fn find_block(blocks: &Vec<BlockContent>, name: &str) -> (r: Option<usize>)
    ensures
        match r {
            Some(k) => k == block_pos(blocks_view(blocks@), name@),
            None => block_pos(blocks_view(blocks@), name@) < 0,
        },
{
    let ghost bs = blocks_view(blocks@);
    let mut k: usize = 0;
    assert(bs.take(0) =~= Seq::<BlockV>::empty());
    while k < blocks.len()
        invariant
            k <= blocks@.len(),
            bs == blocks_view(blocks@),
            block_pos(bs.take(k as int), name@) < 0,
        decreases blocks@.len() - k,
    {
        assert(bs.take(k + 1).drop_last() =~= bs.take(k as int));
        if str_eq(blocks[k].templ.name.as_str(), name) {
            assert(block_pos(bs.take(k + 1), name@) == k);
            proof {
                lemma_block_prefix(bs, name@, k + 1);
            }
            return Some(k);
        }
        k = k + 1;
    }
    assert(bs.take(k as int) =~= bs);
    None
}

/// The first position within a prefix is the first position.
pub proof fn lemma_block_prefix(bs: Seq<BlockV>, name: Seq<char>, n: int)
    requires
        0 <= n <= bs.len(),
        block_pos(bs.take(n), name) >= 0,
    ensures
        block_pos(bs, name) == block_pos(bs.take(n), name),
    decreases bs.len() - n,
{
    if n < bs.len() {
        assert(bs.take(n + 1).drop_last() =~= bs.take(n));
        lemma_block_prefix(bs, name, n + 1);
    } else {
        assert(bs.take(n) =~= bs);
    }
}

pub proof fn lemma_alias_prefix(is: Seq<ImportV>, alias: Seq<char>, n: int)
    requires
        0 <= n <= is.len(),
        alias_pos(is.take(n), alias) >= 0,
    ensures
        alias_pos(is, alias) == alias_pos(is.take(n), alias),
    decreases is.len() - n,
{
    if n < is.len() {
        assert(is.take(n + 1).drop_last() =~= is.take(n));
        lemma_alias_prefix(is, alias, n + 1);
    } else {
        assert(is.take(n) =~= is);
    }
}

pub proof fn lemma_path_prefix(is: Seq<ImportV>, path: Seq<char>, n: int)
    requires
        0 <= n <= is.len(),
        path_pos(is.take(n), path) >= 0,
    ensures
        path_pos(is, path) == path_pos(is.take(n), path),
    decreases is.len() - n,
{
    if n < is.len() {
        assert(is.take(n + 1).drop_last() =~= is.take(n));
        lemma_path_prefix(is, path, n + 1);
    } else {
        assert(is.take(n) =~= is);
    }
}

/// The first of `imports` aliased `alias`.
fn find_alias(imports: &Vec<Import>, alias: &str) -> (r: Option<usize>)
    ensures
        match r {
            Some(k) => k == alias_pos(view_imports(imports@), alias@),
            None => alias_pos(view_imports(imports@), alias@) < 0,
        },
{
    let ghost is = view_imports(imports@);
    proof {
        lemma_view_imports(imports@);
    }
    let mut k: usize = 0;
    assert(is.take(0) =~= Seq::<ImportV>::empty());
    while k < imports.len()
        invariant
            k <= imports@.len(),
            is == view_imports(imports@),
            is.len() == imports@.len(),
            forall|j: int| 0 <= j < imports@.len() ==> #[trigger] is[j] == view_import(imports@[j]),
            alias_pos(is.take(k as int), alias@) < 0,
        decreases imports@.len() - k,
    {
        assert(is.take(k + 1).drop_last() =~= is.take(k as int));
        assert(is[k as int] == view_import(imports@[k as int]));
        if str_eq(imports[k].alias.as_str(), alias) {
            assert(alias_pos(is.take(k + 1), alias@) == k);
            proof {
                lemma_alias_prefix(is, alias@, k + 1);
            }
            return Some(k);
        }
        k = k + 1;
    }
    assert(is.take(k as int) =~= is);
    None
}

/// The first of `imports` asked by `path`.
fn find_path(imports: &Vec<Import>, path: &str) -> (r: Option<usize>)
    ensures
        match r {
            Some(k) => k == path_pos(view_imports(imports@), path@),
            None => path_pos(view_imports(imports@), path@) < 0,
        },
{
    let ghost is = view_imports(imports@);
    proof {
        lemma_view_imports(imports@);
    }
    let mut k: usize = 0;
    assert(is.take(0) =~= Seq::<ImportV>::empty());
    while k < imports.len()
        invariant
            k <= imports@.len(),
            is == view_imports(imports@),
            is.len() == imports@.len(),
            forall|j: int| 0 <= j < imports@.len() ==> #[trigger] is[j] == view_import(imports@[j]),
            path_pos(is.take(k as int), path@) < 0,
        decreases imports@.len() - k,
    {
        assert(is.take(k + 1).drop_last() =~= is.take(k as int));
        assert(is[k as int] == view_import(imports@[k as int]));
        if str_eq(imports[k].path.as_str(), path) {
            assert(path_pos(is.take(k + 1), path@) == k);
            proof {
                lemma_path_prefix(is, path@, k + 1);
            }
            return Some(k);
        }
        k = k + 1;
    }
    assert(is.take(k as int) =~= is);
    None
}

impl File {
    /// Get block by name.
    pub fn get_block(&self, name: &str) -> (r: Option<&BlockContent>)
        ensures
            match r {
                Some(b) => block_pos(self@.blocks, name@) >= 0 && b@ == self@.blocks[block_pos(self@.blocks, name@)],
                None => block_pos(self@.blocks, name@) < 0,
            },
    {
        proof {
            lemma_block_pos(self@.blocks, name@);
        }
        match find_block(&self.blocks, name) {
            Some(k) => Some(&self.blocks[k]),
            None => None,
        }
    }

    /// Get imported template by alias.
    pub fn get_import_by_id(&self, name: &str) -> (r: Option<&Import>)
        ensures
            match r {
                Some(i) => alias_pos(self@.imports, name@) >= 0 && i@ == self@.imports[alias_pos(self@.imports, name@)],
                None => alias_pos(self@.imports, name@) < 0,
            },
    {
        proof {
            lemma_alias_pos(self@.imports, name@);
            lemma_view_imports(self.imports@);
        }
        match find_alias(&self.imports, name) {
            Some(k) => Some(&self.imports[k]),
            None => None,
        }
    }

    /// Get imported template by path.
    pub fn get_import_by_path(&self, path: &str) -> (r: Option<&Import>)
        ensures
            match r {
                Some(i) => path_pos(self@.imports, path@) >= 0 && i@ == self@.imports[path_pos(self@.imports, path@)],
                None => path_pos(self@.imports, path@) < 0,
            },
    {
        proof {
            lemma_path_pos(self@.imports, path@);
            lemma_view_imports(self.imports@);
        }
        match find_path(&self.imports, path) {
            Some(k) => Some(&self.imports[k]),
            None => None,
        }
    }

    /// What `id` resolves to: a block of this file first, otherwise an
    /// imported template.
    pub fn get_resolved_id(&self, id: &str) -> (r: Option<AliasKind<'_>>)
        ensures
            match r {
                Some(AliasKind::Block(b)) => block_pos(self@.blocks, id@) >= 0 && b@ == self@.blocks[block_pos(self@.blocks, id@)],
                Some(AliasKind::Import(i)) => block_pos(self@.blocks, id@) < 0 && alias_pos(self@.imports, id@) >= 0
                    && i@ == self@.imports[alias_pos(self@.imports, id@)],
                None => block_pos(self@.blocks, id@) < 0 && alias_pos(self@.imports, id@) < 0,
            },
    {
        match self.get_block(id) {
            Some(block) => Some(AliasKind::Block(block)),
            None => match self.get_import_by_id(id) {
                Some(i) => Some(AliasKind::Import(i)),
                None => None,
            },
        }
    }

    /// Returns all statements.
    pub fn stmts(&self) -> (r: &Vec<StmtTempl>)
        ensures
            view_stmts(r@) == self@.stmts,
    {
        &self.stmts
    }

    /// Returns all statements, to change them.
    pub fn stmts_mut(&mut self) -> (r: &mut Vec<StmtTempl>)
        ensures
            view_stmts((*r)@) == old(self)@.stmts,
            final(self)@ == (FileV { stmts: view_stmts(final(r)@), ..old(self)@ }),
    {
        &mut self.stmts
    }

    /// Returns all blocks, to change them.
    pub fn blocks_mut(&mut self) -> (r: &mut Vec<BlockContent>)
        ensures
            blocks_view((*r)@) == old(self)@.blocks,
            final(self)@ == (FileV { blocks: blocks_view(final(r)@), ..old(self)@ }),
    {
        &mut self.blocks
    }

    /// Returns all imported templates.
    pub fn imports(&self) -> (r: &Vec<Import>)
        ensures
            r@.len() == self@.imports.len(),
            forall|k: int| 0 <= k < r@.len() ==> (#[trigger] r@[k])@ == self@.imports[k],
    {
        proof {
            lemma_view_imports(self.imports@);
        }
        &self.imports
    }

    /// Returns all blocks.
    pub fn blocks(&self) -> (r: &Vec<BlockContent>)
        ensures
            blocks_view(r@) == self@.blocks,
    {
        &self.blocks
    }

    /// Returns all static contents, in order.
    pub fn statics(&self) -> (r: &Vec<String>)
        ensures
            strings_view(r@) == self@.statics,
    {
        &self.statics
    }

    /// Returns the layout, if any.
    pub fn layout(&self) -> (r: Option<&LayoutTempl>)
        ensures
            match r {
                Some(l) => self@.layout == Some(l.path@),
                None => self@.layout is None,
            },
    {
        self.layout.as_ref()
    }
}

impl Import {
    /// The path the import was asked by.
    pub fn path(&self) -> (r: &str)
        ensures
            r@ == self@.path,
    {
        self.path.as_str()
    }

    /// The alias of the imported template.
    pub fn alias(&self) -> (r: &str)
        ensures
            r@ == self@.alias,
    {
        self.alias.as_str()
    }

    /// The imported template.
    pub fn templ(&self) -> (r: &Template)
        ensures
            r@ == self@.templ,
    {
        &self.templ
    }
}

impl Template {
    /// Returns all statements, regardless of the selected block.
    pub fn all_stmts(&self) -> (r: &Vec<StmtTempl>)
        ensures
            view_stmts(r@) == self@.file.stmts,
    {
        self.file.stmts()
    }

    /// Returns template name: the derive input's name, its alias, or a
    /// generated one.
    pub fn name(&self) -> (r: &str)
        ensures
            r@ == self@.name,
    {
        self.name.as_str()
    }

    /// Returns template [`Metadata`].
    pub fn meta(&self) -> (r: &Metadata)
        ensures
            r@ == self@.meta,
    {
        &self.meta
    }

    /// Returns template [`File`].
    pub fn file(&self) -> (r: &File)
        ensures
            r@ == self@.file,
    {
        &self.file
    }

    /// Split template into parts.
    pub fn into_parts(self) -> (r: (Metadata, File))
        ensures
            r.0@ == self@.meta,
            r.1@ == self@.file,
    {
        (self.meta, self.file)
    }
}

pub proof fn lemma_view_stmts_index(v: Seq<StmtTempl>)
    ensures
        view_stmts(v).len() == v.len(),
        forall|k: int| 0 <= k < v.len() ==> #[trigger] view_stmts(v)[k] == view_stmt(v[k]),
    decreases v.len(),
{
    if v.len() > 0 {
        lemma_view_stmts_index(v.drop_last());
        assert forall|k: int| 0 <= k < v.len() implies #[trigger] view_stmts(v)[k] == view_stmt(v[k]) by {
            if k < v.len() - 1 {
                assert(v.drop_last()[k] == v[k]);
            }
        }
    }
}

/// The first error of a prefix of `v` is the first error of `v`.
pub proof fn lemma_check_prefix(f: FileV, v: Seq<StmtTempl>, n: int)
    requires
        0 <= n <= v.len(),
        check_stmts(f, view_stmts(v.take(n))) is Some,
    ensures
        check_stmts(f, view_stmts(v)) == check_stmts(f, view_stmts(v.take(n))),
    decreases v.len() - n,
{
    if n < v.len() {
        assert(v.take(n + 1) =~= v.take(n).push(v[n]));
        crate::ast::lemma_view_stmts_push(v.take(n), v[n]);
        assert(view_stmts(v.take(n)).push(view_stmt(v[n])).drop_last() =~= view_stmts(v.take(n)));
        lemma_check_prefix(f, v, n + 1);
    } else {
        assert(v.take(n) =~= v);
    }
}

/// The error of a `render` of `v`, selecting block `blk`, in file `f`.
pub open spec fn check_render(f: FileV, v: RenderValueV, blk: Option<Seq<char>>) -> Option<Seq<char>> {
    match v {
        RenderValueV::Ident(id) => if block_pos(f.blocks, id) >= 0 {
            match blk {
                None => None,
                Some(b) => Some("cannot render a block `"@ + id + "` from a block `"@ + b + "`"@),
            }
        } else if alias_pos(f.imports, id) >= 0 {
            match blk {
                None => None,
                Some(b) => if block_pos(f.imports[alias_pos(f.imports, id)].templ.file.blocks, b) < 0 {
                    Some("cannot find block `"@ + b + "` in `"@ + id + "`"@)
                } else {
                    None
                },
            }
        } else {
            Some("cannot find block/template `"@ + id + "`"@)
        },
        RenderValueV::Path(p) => if path_pos(f.imports, p) >= 0 {
            match blk {
                None => None,
                Some(b) => if block_pos(f.imports[path_pos(f.imports, p)].templ.file.blocks, b) < 0 {
                    Some("cannot find block `"@ + b + "` in `"@ + p + "`"@)
                } else {
                    None
                },
            }
        } else {
            Some("cannot find template `"@ + p + "`"@)
        },
    }
}

/// The first error of statement `s` in file `f`.
pub open spec fn check_stmt(f: FileV, s: StmtV) -> Option<Seq<char>>
    decreases s,
{
    match s {
        StmtV::Scalar(ScalarV::Render(v, blk)) => check_render(f, v, blk),
        StmtV::Scalar(_) => None,
        StmtV::Scope(sc) => check_scope(f, sc),
    }
}

/// The first error of statements `v` in file `f`.
pub open spec fn check_stmts(f: FileV, v: Seq<StmtV>) -> Option<Seq<char>>
    decreases v,
{
    if v.len() == 0 {
        None
    } else {
        match check_stmts(f, v.drop_last()) {
            Some(e) => Some(e),
            None => check_stmt(f, v.last()),
        }
    }
}

/// The first error of the statements of scope `sc` in file `f`.
pub open spec fn check_scope(f: FileV, sc: ScopeV) -> Option<Seq<char>>
    decreases sc,
{
    match sc {
        ScopeV::Root(s) => check_stmts(f, s),
        ScopeV::If(_, s, e) => match check_stmts(f, s) {
            Some(x) => Some(x),
            None => match e {
                Some(b) => check_scope(f, *b),
                None => None,
            },
        },
        ScopeV::For(_, _, s, e) => match check_stmts(f, s) {
            Some(x) => Some(x),
            None => match e {
                Some(b) => check_scope(f, *b),
                None => None,
            },
        },
        ScopeV::Block(..) => None,
    }
}

fn message5(a: &str, b: &str, c: &str, d: &str, e: &str) -> (r: ParseError)
    ensures
        r.spec_message() == a@ + b@ + c@ + d@ + e@,
{
    let mut s = String::from_str(a);
    s.append(b);
    s.append(c);
    s.append(d);
    s.append(e);
    ParseError::Generic(s)
}

fn message3(a: &str, b: &str, c: &str) -> (r: ParseError)
    ensures
        r.spec_message() == a@ + b@ + c@,
{
    let mut s = String::from_str(a);
    s.append(b);
    s.append(c);
    ParseError::Generic(s)
}

/// Template validation.
///
/// Validate early to allows for infallible codegen.
///
/// Will validate:
///
/// - the referenced template by `render` statement exists
pub struct ValidateVisitor<'a> {
    file: &'a File,
}

impl<'a> ValidateVisitor<'a> {
    /// Start validating the top-level statements of `file`.
    pub fn validate(file: &'a File) -> (r: Result<(), ParseError>)
        requires
            stmts_ok(file@.stmts),
        ensures
            match r {
                Ok(()) => check_stmts(file@, file@.stmts) is None,
                Err(e) => check_stmts(file@, file@.stmts) == Some(e.spec_message()),
            },
    {
        let me = ValidateVisitor { file };
        me.visit_stmts(&file.stmts)
    }

    fn visit_stmts(&self, stmts: &Vec<StmtTempl>) -> (r: Result<(), ParseError>)
        requires
            stmts_ok(view_stmts(stmts@)),
        ensures
            match r {
                Ok(()) => check_stmts(self.file@, view_stmts(stmts@)) is None,
                Err(e) => check_stmts(self.file@, view_stmts(stmts@)) == Some(e.spec_message()),
            },
        decreases stmts@,
    {
        proof {
            lemma_view_stmts_index(stmts@);
        }
        let mut k: usize = 0;
        assert(stmts@.take(0) =~= Seq::<StmtTempl>::empty());
        while k < stmts.len()
            invariant
                k <= stmts@.len(),
                stmts_ok(view_stmts(stmts@)),
                view_stmts(stmts@).len() == stmts@.len(),
                forall|j: int| 0 <= j < stmts@.len() ==> #[trigger] view_stmts(stmts@)[j] == view_stmt(stmts@[j]),
                check_stmts(self.file@, view_stmts(stmts@.take(k as int))) is None,
            decreases stmts@.len() - k,
        {
            proof {
                lemma_stmts_ok_index(view_stmts(stmts@), k as int);
                assert(stmts@.take(k + 1) =~= stmts@.take(k as int).push(stmts@[k as int]));
                crate::ast::lemma_view_stmts_push(stmts@.take(k as int), stmts@[k as int]);
                assert(view_stmts(stmts@.take(k as int)).push(view_stmt(stmts@[k as int])).drop_last()
                    =~= view_stmts(stmts@.take(k as int)));
            }
            match self.visit_stmt(&stmts[k]) {
                Ok(()) => {},
                Err(e) => {
                    proof {
                        lemma_check_prefix(self.file@, stmts@, k + 1);
                    }
                    return Err(e);
                },
            }
            k = k + 1;
        }
        assert(stmts@.take(k as int) =~= stmts@);
        Ok(())
    }

    fn visit_stmt(&self, stmt: &StmtTempl) -> (r: Result<(), ParseError>)
        requires
            stmt_ok(stmt@),
        ensures
            match r {
                Ok(()) => check_stmt(self.file@, stmt@) is None,
                Err(e) => check_stmt(self.file@, stmt@) == Some(e.spec_message()),
            },
        decreases stmt,
    {
        match stmt {
            StmtTempl::Scalar(Scalar::Render(templ)) => self.visit_render(templ),
            StmtTempl::Scalar(_) => Ok(()),
            StmtTempl::Scope(scope) => self.visit_scope(scope),
        }
    }

    fn visit_render(&self, templ: &RenderTempl) -> (r: Result<(), ParseError>)
        ensures
            match r {
                Ok(()) => check_render(self.file@, templ.value@, crate::syntax::opt_view(templ.block)) is None,
                Err(e) => check_render(self.file@, templ.value@, crate::syntax::opt_view(templ.block)) == Some(e.spec_message()),
            },
    {
        match &templ.value {
            RenderValue::Ident(id) => match self.file.get_resolved_id(id.as_str()) {
                Some(AliasKind::Block(_)) => match &templ.block {
                    None => Ok(()),
                    Some(b) => Err(message5("cannot render a block `", id.as_str(), "` from a block `", b.as_str(), "`")),
                },
                Some(AliasKind::Import(import)) => match &templ.block {
                    None => Ok(()),
                    Some(b) => if import.templ.file.get_block(b.as_str()).is_none() {
                        Err(message5("cannot find block `", b.as_str(), "` in `", id.as_str(), "`"))
                    } else {
                        Ok(())
                    },
                },
                None => Err(message3("cannot find block/template `", id.as_str(), "`")),
            },
            RenderValue::Path(path) => match self.file.get_import_by_path(path.as_str()) {
                Some(import) => match &templ.block {
                    None => Ok(()),
                    Some(b) => if import.templ.file.get_block(b.as_str()).is_none() {
                        Err(message5("cannot find block `", b.as_str(), "` in `", path.as_str(), "`"))
                    } else {
                        Ok(())
                    },
                },
                None => Err(message3("cannot find template `", path.as_str(), "`")),
            },
        }
    }

    fn visit_scope(&self, scope: &Scope) -> (r: Result<(), ParseError>)
        requires
            scope_ok(scope@),
        ensures
            match r {
                Ok(()) => check_scope(self.file@, scope@) is None,
                Err(e) => check_scope(self.file@, scope@) == Some(e.spec_message()),
            },
        decreases scope,
    {
        match scope {
            Scope::Root { stmts } => self.visit_stmts(stmts),
            Scope::If { stmts, else_branch, .. } => {
                self.visit_stmts(stmts)?;
                match else_branch {
                    Some(b) => self.visit_scope(&**b),
                    None => Ok(()),
                }
            },
            Scope::For { stmts, else_branch, .. } => {
                self.visit_stmts(stmts)?;
                match else_branch {
                    Some(b) => self.visit_scope(&**b),
                    None => Ok(()),
                }
            },
            Scope::Block { .. } => Ok(()),
        }
    }

}

/// The name of the block that holds the body of a template with a layout.
pub open spec fn inner_block() -> Seq<char> {
    "TourInner"@
}

/// A file is well formed: its layout is imported and no block scope is left
/// among its statements.
pub open spec fn file_wf(f: FileV) -> bool {
    &&& (f.layout matches Some(l) ==> path_pos(f.imports, l) >= 0)
    &&& stmts_ok(f.stmts)
    &&& forall|k: int| 0 <= k < f.blocks.len() ==> stmts_ok((#[trigger] f.blocks[k]).3)
}

/// A template is well formed: its file is, and its selected block exists.
pub open spec fn templ_wf(t: TemplateV) -> bool {
    &&& file_wf(t.file)
    &&& (t.meta.block matches Some(b) ==> block_pos(t.file.blocks, b) >= 0)
}

/// The template named `name` over `meta` and `file`, or the error message.
///
/// With a layout, the statements of the file become the body of the
/// `TourInner` block, and the file renders the layout instead.
pub open spec fn spec_new_templ(name: Seq<char>, meta: MetaV, file: FileV) -> Result<TemplateV, Seq<char>> {
    if meta.block is Some && block_pos(file.blocks, meta.block->0) < 0 {
        Err("cannot find `"@ + meta.block->0 + "` in `"@ + name + "`"@)
    } else if block_pos(file.blocks, inner_block()) >= 0 {
        Err("`TourInner` is reserved block name"@)
    } else {
        match file.layout {
            None => Ok(TemplateV { name, meta, file }),
            Some(l) => {
                let alias = file.imports[path_pos(file.imports, l)].alias;
                Ok(TemplateV {
                    name,
                    meta,
                    file: FileV {
                        stmts: seq![StmtV::Scalar(ScalarV::Render(RenderValueV::Ident(alias), None))],
                        blocks: file.blocks.push((true, true, inner_block(), file.stmts)),
                        ..file
                    },
                })
            },
        }
    }
}

impl File {
    /// The file is well formed.
    pub open spec fn wf(&self) -> bool {
        file_wf(self@)
    }
}

impl Template {
    /// The template is well formed.
    pub open spec fn wf(&self) -> bool {
        templ_wf(self@)
    }

    /// Create new [`Template`], checking that the selected block exists and
    /// that `TourInner` is not used as a block name.
    pub fn new(name: String, meta: Metadata, file: File) -> (r: Result<Template, ParseError>)
        requires
            file.wf(),
        ensures
            match r {
                Ok(t) => spec_new_templ(name@, meta@, file@) == Ok::<TemplateV, Seq<char>>(t@) && t.wf(),
                Err(e) => spec_new_templ(name@, meta@, file@) == Err::<TemplateV, Seq<char>>(e.spec_message()),
            },
    {
        let ghost f0 = file@;
        proof {
            lemma_block_pos(f0.blocks, inner_block());
        }
        match meta.block() {
            Some(block) => {
                if file.get_block(block.as_str()).is_none() {
                    return Err(message5("cannot find `", block.as_str(), "` in `", name.as_str(), "`"));
                }
            },
            None => {},
        }
        if file.get_block("TourInner").is_some() {
            proof {
                reveal_strlit("TourInner");
            }
            return Err(ParseError::Generic(String::from_str("`TourInner` is reserved block name")));
        }
        let mut file = file;
        let alias = match &file.layout {
            Some(layout) => {
                proof {
                    lemma_path_pos(f0.imports, layout.path@);
                    lemma_view_imports(file.imports@);
                }
                match file.get_import_by_path(layout.path.as_str()) {
                    Some(import) => Some(crate::text::owned(import.alias())),
                    None => None,
                }
            },
            None => None,
        };
        match alias {
            Some(alias) => {
                let render = StmtTempl::Scalar(Scalar::Render(RenderTempl { value: RenderValue::Ident(alias), block: None }));
                let mut inner = Vec::new();
                inner.push(render);
                let mut body = inner;
                std::mem::swap(&mut file.stmts, &mut body);
                let ghost before = blocks_view(file.blocks@);
                file.blocks.push(
                    BlockContent {
                        templ: BlockTempl { pub_token: true, static_token: true, name: String::from_str("TourInner") },
                        stmts: body,
                    },
                );
                proof {
                    reveal_strlit("TourInner");
                    assert(blocks_view(file.blocks@) =~= before.push((true, true, inner_block(), f0.stmts)));
                    assert(inner@ =~= seq![render]);
                    assert(view_stmts(seq![render]) =~= seq![view_stmt(render)]) by {
                        assert(seq![render].drop_last() =~= Seq::<StmtTempl>::empty());
                        assert(view_stmts(Seq::<StmtTempl>::empty()) == Seq::<StmtV>::empty());
                        assert(seq![render].last() == render);
                        assert(view_stmts(seq![render]) == view_stmts(seq![render].drop_last()).push(view_stmt(seq![render].last())));
                    }
                    crate::ast::lemma_stmts_ok_push(Seq::<StmtV>::empty(), view_stmt(render));
                    assert(seq![view_stmt(render)] =~= Seq::<StmtV>::empty().push(view_stmt(render)));
                    lemma_block_pos(f0.blocks, inner_block());
                    if meta@.block is Some {
                        assert(blocks_view(file.blocks@).drop_last() =~= f0.blocks);
                    }
                    assert forall|k: int| 0 <= k < file@.blocks.len() implies stmts_ok((#[trigger] file@.blocks[k]).3) by {
                        if k < f0.blocks.len() {
                            assert(file@.blocks[k] == f0.blocks[k]);
                        }
                    }
                }
            },
            None => {},
        }
        Ok(Template { name, meta, file })
    }

    /// Returns the selected block's statements if any, otherwise all
    /// statements.
    pub fn stmts(&self) -> (r: &Vec<StmtTempl>)
        requires
            self.wf(),
        ensures
            view_stmts(r@) == match self@.meta.block {
                Some(b) => self@.file.blocks[block_pos(self@.file.blocks, b)].3,
                None => self@.file.stmts,
            },
    {
        match self.meta.block() {
            Some(block) => match self.file.get_block(block.as_str()) {
                Some(b) => &b.stmts,
                None => self.file.stmts(),
            },
            None => self.file.stmts(),
        }
    }
}

/// The views of template parts: metadata and file.
pub open spec fn parts_view(v: Seq<(Metadata, File)>) -> Seq<(MetaV, FileV)> {
    Seq::new(v.len(), |i: int| (v[i].0@, v[i].1@))
}

/// The imports asked by `reqs[..n]`, each over the metadata and file of
/// `parts[..n]`, or the first error.
pub open spec fn spec_imports(
    reqs: Seq<(Seq<char>, Seq<char>)>,
    parts: Seq<(MetaV, FileV)>,
    n: int,
) -> Result<Seq<ImportV>, Seq<char>>
    decreases n,
{
    if n <= 0 {
        Ok(seq![])
    } else {
        match spec_imports(reqs, parts, n - 1) {
            Err(e) => Err(e),
            Ok(is) => match spec_new_templ(reqs[n - 1].1, parts[n - 1].0, parts[n - 1].1) {
                Err(e) => Err(e),
                Ok(t) => Ok(is.push(ImportV { path: reqs[n - 1].0, alias: reqs[n - 1].1, templ: t })),
            },
        }
    }
}

/// The file that builder `b` completes with the imported templates of
/// `parts`, validated, or the first error.
pub open spec fn spec_file(b: BuilderV, parts: Seq<(MetaV, FileV)>) -> Result<FileV, Seq<char>> {
    match spec_imports(b.imports, parts, parts.len() as int) {
        Err(e) => Err(e),
        Ok(is) => {
            let f = FileV { layout: b.layout, imports: is, blocks: b.blocks, statics: b.statics, stmts: b.root };
            match check_stmts(f, f.stmts) {
                Some(e) => Err(e),
                None => Ok(f),
            }
        },
    }
}

pub proof fn lemma_imports_shape(reqs: Seq<(Seq<char>, Seq<char>)>, parts: Seq<(MetaV, FileV)>, n: int)
    requires
        n >= 0,
        spec_imports(reqs, parts, n) is Ok,
    ensures
        spec_imports(reqs, parts, n)->Ok_0.len() == n,
        forall|j: int| 0 <= j < n ==> (#[trigger] spec_imports(reqs, parts, n)->Ok_0[j]).path == reqs[j].0
            && spec_imports(reqs, parts, n)->Ok_0[j].alias == reqs[j].1,
    decreases n,
{
    if n > 0 {
        lemma_imports_shape(reqs, parts, n - 1);
        let is = spec_imports(reqs, parts, n - 1)->Ok_0;
        assert forall|j: int| 0 <= j < n implies (#[trigger] spec_imports(reqs, parts, n)->Ok_0[j]).path == reqs[j].0
            && spec_imports(reqs, parts, n)->Ok_0[j].alias == reqs[j].1 by {
            if j < n - 1 {
                assert(spec_imports(reqs, parts, n)->Ok_0[j] == is[j]);
            }
        }
    }
}

pub proof fn lemma_imports_err(reqs: Seq<(Seq<char>, Seq<char>)>, parts: Seq<(MetaV, FileV)>, n: int, m: int)
    requires
        0 <= n <= m,
        spec_imports(reqs, parts, n) is Err,
    ensures
        spec_imports(reqs, parts, m) == spec_imports(reqs, parts, n),
    decreases m,
{
    if m > n {
        lemma_imports_err(reqs, parts, n, m - 1);
    }
}

impl File {
    /// Completes the file of a template from its built contents and, for
    /// each import it asks for in order, the metadata and file of the
    /// imported template; then validates it.
    pub fn from_parts(visitor: SynVisitor, parts: Vec<(Metadata, File)>) -> (r: Result<File, ParseError>)
        requires
            visitor.wf(),
            parts@.len() == visitor@.imports.len(),
            forall|k: int| 0 <= k < parts@.len() ==> (#[trigger] parts@[k]).1.wf(),
        ensures
            match r {
                Ok(f) => spec_file(visitor@, parts_view(parts@)) == Ok::<FileV, Seq<char>>(f@) && f.wf(),
                Err(e) => spec_file(visitor@, parts_view(parts@)) == Err::<FileV, Seq<char>>(e.spec_message()),
            },
    {
        let ghost b = visitor@;
        let ghost pv = parts_view(parts@);
        proof {
            SynVisitor::lemma_wf_ok(&visitor);
        }
        let (layout, reqs, blocks, statics, root) = visitor.into_parts();
        let mut rest = parts;
        let mut imports: Vec<Import> = Vec::new();
        let mut k: usize = 0;
        assert(view_imports(imports@) =~= Seq::<ImportV>::empty());
        while k < reqs.len()
            invariant
                k <= reqs@.len(),
                b == visitor@,
                pv == parts_view(parts@),
                reqs@.len() == pv.len(),
                imports_view(reqs@) == b.imports,
                rest@.len() == pv.len() - k,
                forall|j: int| 0 <= j < rest@.len() ==> (#[trigger] rest@[j]).1.wf(),
                forall|j: int| 0 <= j < rest@.len() ==> (#[trigger] rest@[j]).0@ == pv[k + j].0 && rest@[j].1@ == pv[k + j].1,
                spec_imports(b.imports, pv, k as int) == Ok::<Seq<ImportV>, Seq<char>>(view_imports(imports@)),
            decreases reqs@.len() - k,
        {
            assert(rest@[0].1.wf());
            let ghost p0 = rest@;
            let (meta, file) = rest.remove(0);
            assert forall|j: int| 0 <= j < rest@.len() implies (#[trigger] rest@[j]).1.wf() by {
                assert(rest@[j] == p0[j + 1]);
            }
            assert forall|j: int| 0 <= j < rest@.len() implies (#[trigger] rest@[j]).0@ == pv[k + 1 + j].0 && rest@[j].1@ == pv[k + 1 + j].1 by {
                assert(rest@[j] == p0[j + 1]);
            }
            let req = &reqs[k];
            assert(b.imports[k as int] == (req.path@, req.alias@));
            assert(meta@ == pv[k as int].0 && file@ == pv[k as int].1);
            match Template::new(crate::text::copy_string(&req.alias), meta, file) {
                Ok(t) => {
                    let ghost before = imports@;
                    let imp = Import { path: crate::text::copy_string(&req.path), alias: crate::text::copy_string(&req.alias), templ: t };
                    imports.push(imp);
                    assert(imports@.drop_last() =~= before);
                    assert(imports@.last() == imp);
                    assert(view_imports(imports@) == view_imports(before).push(view_import(imp)));
                    assert(view_import(imp) == ImportV { path: b.imports[k as int].0, alias: b.imports[k as int].1, templ: t@ });
                },
                Err(e) => {
                    assert(spec_imports(b.imports, pv, k + 1) == Err::<Seq<ImportV>, Seq<char>>(e.spec_message()));
                    proof {
                        lemma_imports_err(b.imports, pv, k + 1, pv.len() as int);
                        assert(spec_imports(b.imports, pv, pv.len() as int) == Err::<Seq<ImportV>, Seq<char>>(e.spec_message()));
                        assert(spec_file(b, pv) == Err::<FileV, Seq<char>>(e.spec_message()));
                    }
                    return Err(e);
                },
            }
            k = k + 1;
        }
        let file = File { layout, imports, blocks, statics, stmts: root };
        proof {
            lemma_imports_shape(b.imports, pv, pv.len() as int);
            assert(file@.imports == spec_imports(b.imports, pv, pv.len() as int)->Ok_0);
            if let Some(l) = b.layout {
                let j = choose|j: int| 0 <= j < b.imports.len() && (#[trigger] b.imports[j]).0 == l;
                lemma_path_pos(file@.imports, l);
                assert(file@.imports[j].path == l);
            }
        }
        ValidateVisitor::validate(&file)?;
        Ok(file)
    }
}

/// The renders among statement `s`, in source order: inside an `if` or a
/// `for`, those of its body, then those of every branch of its `else` chain.
pub open spec fn stmt_renders(s: StmtV) -> Seq<(RenderValueV, Option<Seq<char>>)>
    decreases s,
{
    match s {
        StmtV::Scalar(ScalarV::Render(v, blk)) => seq![(v, blk)],
        StmtV::Scalar(_) => seq![],
        StmtV::Scope(sc) => scope_renders(sc),
    }
}

/// The renders among statements `v`, in order.
pub open spec fn stmts_renders(v: Seq<StmtV>) -> Seq<(RenderValueV, Option<Seq<char>>)>
    decreases v,
{
    if v.len() == 0 {
        seq![]
    } else {
        stmts_renders(v.drop_last()) + stmt_renders(v.last())
    }
}

/// The renders among the statements of scope `sc`, its `else` chain
/// included; a block's statements are checked with the block.
pub open spec fn scope_renders(sc: ScopeV) -> Seq<(RenderValueV, Option<Seq<char>>)>
    decreases sc,
{
    match sc {
        ScopeV::Root(s) => stmts_renders(s),
        ScopeV::If(_, s, e) => stmts_renders(s) + match e {
            Some(b) => scope_renders(*b),
            None => seq![],
        },
        ScopeV::For(_, _, s, e) => stmts_renders(s) + match e {
            Some(b) => scope_renders(*b),
            None => seq![],
        },
        ScopeV::Block(..) => seq![],
    }
}

/// The error of the first render of `rs` that does not resolve in file `f`.
pub open spec fn first_render_error(f: FileV, rs: Seq<(RenderValueV, Option<Seq<char>>)>) -> Option<Seq<char>>
    decreases rs.len(),
{
    if rs.len() == 0 {
        None
    } else {
        match first_render_error(f, rs.drop_last()) {
            Some(e) => Some(e),
            None => check_render(f, rs.last().0, rs.last().1),
        }
    }
}

proof fn lemma_first_error_concat(f: FileV, a: Seq<(RenderValueV, Option<Seq<char>>)>, b: Seq<(RenderValueV, Option<Seq<char>>)>)
    ensures
        first_render_error(f, a + b) == match first_render_error(f, a) {
            Some(e) => Some(e),
            None => first_render_error(f, b),
        },
    decreases b.len(),
{
    if b.len() == 0 {
        assert(a + b =~= a);
    } else {
        lemma_first_error_concat(f, a, b.drop_last());
        assert((a + b).drop_last() =~= a + b.drop_last());
        assert((a + b).last() == b.last());
    }
}

proof fn lemma_first_error_none(f: FileV, rs: Seq<(RenderValueV, Option<Seq<char>>)>)
    ensures
        first_render_error(f, rs) is None <==> forall|k: int| 0 <= k < rs.len() ==> check_render(f, (#[trigger] rs[k]).0, rs[k].1) is None,
    decreases rs.len(),
{
    if rs.len() > 0 {
        lemma_first_error_none(f, rs.drop_last());
        assert forall|k: int| 0 <= k < rs.len() - 1 implies #[trigger] rs.drop_last()[k] == rs[k] by {}
        if first_render_error(f, rs) is None {
            assert forall|k: int| 0 <= k < rs.len() implies check_render(f, (#[trigger] rs[k]).0, rs[k].1) is None by {
                if k < rs.len() - 1 {
                    assert(rs.drop_last()[k] == rs[k]);
                }
            }
        } else {
            if first_render_error(f, rs.drop_last()) is None {
                assert(check_render(f, rs[rs.len() - 1].0, rs[rs.len() - 1].1) is Some);
            } else {
                let k = choose|k: int| 0 <= k < rs.len() - 1 && check_render(f, (#[trigger] rs.drop_last()[k]).0, rs.drop_last()[k].1) is Some;
                assert(rs.drop_last()[k] == rs[k]);
            }
        }
    }
}

proof fn lemma_check_stmts_renders(f: FileV, v: Seq<StmtV>)
    ensures
        check_stmts(f, v) == first_render_error(f, stmts_renders(v)),
    decreases v,
{
    if v.len() > 0 {
        lemma_check_stmts_renders(f, v.drop_last());
        lemma_check_stmt_renders(f, v.last());
        lemma_first_error_concat(f, stmts_renders(v.drop_last()), stmt_renders(v.last()));
    }
}

proof fn lemma_check_stmt_renders(f: FileV, s: StmtV)
    ensures
        check_stmt(f, s) == first_render_error(f, stmt_renders(s)),
    decreases s,
{
    match s {
        StmtV::Scalar(ScalarV::Render(v, blk)) => {
            let rs = seq![(v, blk)];
            assert(rs.drop_last() =~= Seq::<(RenderValueV, Option<Seq<char>>)>::empty());
            assert(first_render_error(f, rs.drop_last()) is None);
            assert(rs.last() == (v, blk));
            assert(stmt_renders(s) == rs);
        },
        StmtV::Scalar(_) => {},
        StmtV::Scope(sc) => {
            lemma_check_scope_renders(f, sc);
        },
    }
}

proof fn lemma_check_scope_renders(f: FileV, sc: ScopeV)
    ensures
        check_scope(f, sc) == first_render_error(f, scope_renders(sc)),
    decreases sc,
{
    match sc {
        ScopeV::Root(s) => {
            lemma_check_stmts_renders(f, s);
        },
        ScopeV::If(_, s, e) => {
            lemma_check_stmts_renders(f, s);
            let tail = match e {
                Some(b) => scope_renders(*b),
                None => Seq::<(RenderValueV, Option<Seq<char>>)>::empty(),
            };
            if let Some(b) = e {
                lemma_check_scope_renders(f, *b);
            }
            lemma_first_error_concat(f, stmts_renders(s), tail);
        },
        ScopeV::For(_, _, s, e) => {
            lemma_check_stmts_renders(f, s);
            let tail = match e {
                Some(b) => scope_renders(*b),
                None => Seq::<(RenderValueV, Option<Seq<char>>)>::empty(),
            };
            if let Some(b) = e {
                lemma_check_scope_renders(f, *b);
            }
            lemma_first_error_concat(f, stmts_renders(s), tail);
        },
        ScopeV::Block(..) => {},
    }
}

/// Checking statements reports the error of the first render among them,
/// in source order, that does not resolve: the renders inside every
/// branch of an `if` or `for`, `else` chains included, are checked. So
/// statements pass exactly when every render among them resolves.
pub proof fn law_check_renders(f: FileV, v: Seq<StmtV>)
    ensures
        check_stmts(f, v) == first_render_error(f, stmts_renders(v)),
        check_stmts(f, v) is None <==> forall|k: int| 0 <= k < stmts_renders(v).len()
            ==> check_render(f, (#[trigger] stmts_renders(v)[k]).0, stmts_renders(v)[k].1) is None,
{
    lemma_check_stmts_renders(f, v);
    lemma_first_error_none(f, stmts_renders(v));
}

} // verus!
