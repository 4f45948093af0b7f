//! Template identity declared outside the template source: where it lives,
//! how it reloads, which block it selects.
use vstd::prelude::*;
use crate::parser::ParseError;
use crate::path::{Config, resolve, resolve_at, spec_join, spec_normalize, spec_resolve};
use crate::syntax::LayoutTempl;
use crate::text::{chars_of, concat, copy_string, owned, str_eq, string_of};

verus! {

/// The role of a template.
#[derive(Clone, Copy, Debug, PartialEq, Eq, Structural)]
pub enum TemplKind {
    Main,
    MainWrapper,
    Layout,
    Import,
}

/// Runtime template reload behavior.
#[derive(Debug)]
pub enum Reload {
    /// Reload when debug assertions are on.
    Debug,
    Always,
    Never,
    /// Reload when the given Rust expression holds, by its source text.
    Expr(String),
}

/// The view of a [`Reload`].
pub enum ReloadV {
    Debug,
    Always,
    Never,
    Expr(Seq<char>),
}

impl View for Reload {
    type V = ReloadV;

    open spec fn view(&self) -> ReloadV {
        match self {
            Reload::Debug => ReloadV::Debug,
            Reload::Always => ReloadV::Always,
            Reload::Never => ReloadV::Never,
            Reload::Expr(e) => ReloadV::Expr(e@),
        }
    }
}

/// Whether reloading is on, `debug` telling whether debug assertions are
/// on; `None` when an expression decides.
pub open spec fn reload_flag(r: ReloadV, debug: bool) -> Option<bool> {
    match r {
        ReloadV::Debug => Some(debug),
        ReloadV::Always => Some(true),
        ReloadV::Never => Some(false),
        ReloadV::Expr(_) => None,
    }
}

impl Reload {
    /// Returns `Ok(true)` if runtime reload is enabled, otherwise returns
    /// `Err(expr)` containing the user defined expression that decides
    /// runtime reload. `debug` tells whether debug assertions are on.
    pub fn as_bool(&self, debug: bool) -> (r: Result<bool, &str>)
        ensures
            match r {
                Ok(b) => reload_flag(self@, debug) == Some(b),
                Err(e) => reload_flag(self@, debug) is None && self@ == ReloadV::Expr(e@),
            },
    {
        match self {
            Reload::Debug => Ok(debug),
            Reload::Always => Ok(true),
            Reload::Never => Ok(false),
            Reload::Expr(e) => Err(e.as_str()),
        }
    }

    /// A copy of this behavior.
    pub fn duplicate(&self) -> (r: Reload)
        ensures
            r@ == self@,
    {
        match self {
            Reload::Debug => Reload::Debug,
            Reload::Always => Reload::Always,
            Reload::Never => Reload::Never,
            Reload::Expr(e) => Reload::Expr(copy_string(e)),
        }
    }
}

impl Default for Reload {
    /// Templates reload at run time in debug builds, not in release builds.
    fn default() -> (r: Reload)
        ensures
            r@ == ReloadV::Debug,
    {
        Reload::Debug
    }
}

/// Extra information declared outside template file.
#[derive(Debug)]
pub struct Metadata {
    path: String,
    source: Option<String>,
    reload: Reload,
    block: Option<String>,
    kind: TemplKind,
}

/// The view of a [`Metadata`].
pub struct MetaV {
    pub path: Seq<char>,
    pub source: Option<Seq<char>>,
    pub reload: ReloadV,
    pub block: Option<Seq<char>>,
    pub kind: TemplKind,
}

pub open spec fn opt_str(o: Option<String>) -> Option<Seq<char>> {
    match o {
        Some(s) => Some(s@),
        None => None,
    }
}

impl View for Metadata {
    type V = MetaV;

    closed spec fn view(&self) -> MetaV {
        MetaV {
            path: self.path@,
            source: opt_str(self.source),
            reload: self.reload@,
            block: opt_str(self.block),
            kind: self.kind,
        }
    }
}

/// `s` without its trailing `/` characters.
pub open spec fn trim_end_slashes(s: Seq<char>) -> Seq<char>
    decreases s.len(),
{
    if s.len() > 0 && s.last() == '/' {
        trim_end_slashes(s.drop_last())
    } else {
        s
    }
}

/// The last position before `n` where `s` holds `/`, or `-1`.
pub open spec fn last_slash(s: Seq<char>, n: int) -> int
    decreases n,
{
    if n <= 0 {
        -1
    } else if s[n - 1] == '/' {
        n - 1
    } else {
        last_slash(s, n - 1)
    }
}

/// The directory of path `p`: its parent, or `/` when it has none.
pub open spec fn spec_dir(p: Seq<char>) -> Seq<char> {
    let t = trim_end_slashes(p);
    if t.len() == 0 {
        "/"@
    } else {
        let k = last_slash(t, t.len() as int);
        if k < 0 {
            seq![]
        } else {
            let d = trim_end_slashes(t.subrange(0, k));
            if d.len() == 0 {
                "/"@
            } else {
                d
            }
        }
    }
}

pub proof fn lemma_trim_end_len(s: Seq<char>)
    ensures
        trim_end_slashes(s).len() <= s.len(),
        trim_end_slashes(s) == s.subrange(0, trim_end_slashes(s).len() as int),
    decreases s.len(),
{
    if s.len() > 0 && s.last() == '/' {
        lemma_trim_end_len(s.drop_last());
    } else {
        assert(s.subrange(0, s.len() as int) =~= s);
    }
}

/// The length of `v[..n]` without its trailing `/` characters.
fn trim_end_len(v: &Vec<char>, n: usize) -> (r: usize)
    requires
        n <= v@.len(),
    ensures
        r <= n,
        v@.subrange(0, r as int) == trim_end_slashes(v@.subrange(0, n as int)),
{
    let mut m = n;
    while m > 0 && v[m - 1] == '/'
        invariant
            m <= n <= v@.len(),
            trim_end_slashes(v@.subrange(0, m as int)) == trim_end_slashes(v@.subrange(0, n as int)),
        decreases m,
    {
        assert(v@.subrange(0, m as int).drop_last() =~= v@.subrange(0, m - 1));
        m = m - 1;
    }
    m
}

/// The directory of path `p`: its parent, or `/` when it has none.
pub fn dir_of(p: &str) -> (r: String)
    ensures
        r@ == spec_dir(p@),
{
    let v = chars_of(p);
    let n = trim_end_len(&v, v.len());
    assert(v@.subrange(0, v@.len() as int) =~= v@);
    let ghost t = v@.subrange(0, n as int);
    if n == 0 {
        return String::from_str("/");
    }
    let mut k = n;
    while k > 0 && v[k - 1] != '/'
        invariant
            k <= n <= v@.len(),
            t == v@.subrange(0, n as int),
            last_slash(t, n as int) == last_slash(t, k as int),
        decreases k,
    {
        k = k - 1;
    }
    if k == 0 {
        return String::new();
    }
    assert(last_slash(t, n as int) == k - 1);
    let d = trim_end_len(&v, k - 1);
    assert(t.subrange(0, k - 1) =~= v@.subrange(0, k - 1));
    if d == 0 {
        String::from_str("/")
    } else {
        string_of(&v, 0, d)
    }
}

impl Metadata {
    /// Create metadata from the pairs of `#[template(..)]` attributes, from
    /// current directory `cwd`.
    pub fn from_attrs(pairs: &Vec<AttrPair>, conf: &Config, cwd: &str) -> (r: Result<Metadata, ParseError>)
        requires
            pairs_fit(pairs@, conf.spec_templ_dir(), cwd@),
        ensures
            match r {
                Ok(m) => spec_attrs(pairs_view(pairs@), conf.spec_templ_dir(), cwd@) == Ok::<MetaV, Seq<char>>(m@),
                Err(e) => spec_attrs(pairs_view(pairs@), conf.spec_templ_dir(), cwd@) == Err::<MetaV, Seq<char>>(e.spec_message()),
            },
    {
        AttrVisitor::parse(pairs, conf, cwd)
    }

    /// The metadata of a template at `path`, inlined as `source` if given.
    pub fn new(path: String, source: Option<String>, reload: Reload, block: Option<String>, kind: TemplKind) -> (r: Metadata)
        ensures
            r@ == (MetaV { path: path@, source: opt_str(source), reload: reload@, block: opt_str(block), kind }),
    {
        Metadata { path, source, reload, block, kind }
    }

    /// Create [`Metadata`] with given path inherited from parent meta.
    ///
    /// This will set [`TemplKind`] to [`TemplKind::Import`].
    pub fn clone_as_import(&self, path: &str) -> (r: Metadata)
        requires
            path@.len() + self@.path.len() + 2 < usize::MAX,
        ensures
            r@ == (MetaV {
                path: spec_normalize(spec_join(path@, spec_dir(self@.path))),
                source: None,
                reload: self@.reload,
                block: None,
                kind: TemplKind::Import,
            }),
    {
        let dir = self.dir_ref();
        Metadata {
            path: resolve_at(path, dir.as_str()),
            source: None,
            reload: self.reload.duplicate(),
            block: None,
            kind: TemplKind::Import,
        }
    }

    /// Generate layout [`Metadata`] inherited from parent meta.
    ///
    /// This will set [`TemplKind`] to [`TemplKind::Layout`].
    pub fn clone_as_layout(&self, layout: &LayoutTempl) -> (r: Metadata)
        requires
            layout.path@.len() + self@.path.len() + 2 < usize::MAX,
        ensures
            r@ == (MetaV {
                path: spec_normalize(spec_join(layout.path@, spec_dir(self@.path))),
                source: None,
                reload: self@.reload,
                block: None,
                kind: TemplKind::Layout,
            }),
    {
        let dir = self.dir_ref();
        Metadata {
            path: resolve_at(layout.path.as_str(), dir.as_str()),
            source: None,
            reload: self.reload.duplicate(),
            block: None,
            kind: TemplKind::Layout,
        }
    }

    /// The directory of the template: the parent of its path, or `/`.
    pub fn dir_ref(&self) -> (r: String)
        ensures
            r@ == spec_dir(self@.path),
            r@.len() <= self@.path.len() + 1,
    {
        proof {
            lemma_dir_len(self.path@);
        }
        dir_of(self.path.as_str())
    }

    /// Returns selected block name, if any.
    pub fn block(&self) -> (r: Option<&String>)
        ensures
            match r {
                Some(b) => self@.block == Some(b@),
                None => self@.block is None,
            },
    {
        self.block.as_ref()
    }

    /// Returns the template path; when the source is inlined, the current
    /// directory.
    pub fn path(&self) -> (r: &str)
        ensures
            r@ == self@.path,
    {
        self.path.as_str()
    }

    /// Returns [`Reload`] behavior.
    pub fn reload(&self) -> (r: &Reload)
        ensures
            r@ == self@.reload,
    {
        &self.reload
    }

    /// Returns the [`TemplKind`].
    pub fn kind(&self) -> (r: TemplKind)
        ensures
            r == self@.kind,
    {
        self.kind
    }

    /// Returns template source if its inlined.
    pub fn inline(&self) -> (r: Option<&str>)
        ensures
            match r {
                Some(s) => self@.source == Some(s@),
                None => self@.source is None,
            },
    {
        match &self.source {
            Some(s) => Some(s.as_str()),
            None => None,
        }
    }
}

pub proof fn lemma_dir_len(p: Seq<char>)
    ensures
        spec_dir(p).len() <= p.len() + 1,
{
    let t = trim_end_slashes(p);
    lemma_trim_end_len(p);
    reveal_strlit("/");
    if t.len() > 0 {
        let k = last_slash(t, t.len() as int);
        lemma_last_slash_range(t, t.len() as int);
        if k >= 0 {
            lemma_trim_end_len(t.subrange(0, k));
        }
    }
}

pub proof fn lemma_last_slash_range(s: Seq<char>, n: int)
    requires
        n <= s.len(),
    ensures
        -1 <= last_slash(s, n) < n || n <= 0,
        last_slash(s, n) >= 0 ==> s[last_slash(s, n)] == '/',
    decreases n,
{
    if n > 0 && s[n - 1] != '/' {
        lemma_last_slash_range(s, n - 1);
    }
}

/// The value of a `name = value` pair of a `#[template(..)]` attribute.
#[derive(Debug)]
pub enum AttrValue {
    /// A string literal, by its value.
    Str(String),
    /// A path expression: `Some(ident)` when the path is a single identifier.
    Path(Option<String>),
    /// Any other expression.
    Other,
}

/// A `name = value` pair of a `#[template(..)]` attribute.
#[derive(Debug)]
pub struct AttrPair {
    /// The key, when it is a single identifier.
    pub name: Option<String>,
    pub value: AttrValue,
    /// The source text of the value.
    pub text: String,
}

/// The view of an [`AttrValue`].
pub enum AttrValueV {
    Str(Seq<char>),
    Path(Option<Seq<char>>),
    Other,
}

impl View for AttrValue {
    type V = AttrValueV;

    open spec fn view(&self) -> AttrValueV {
        match self {
            AttrValue::Str(s) => AttrValueV::Str(s@),
            AttrValue::Path(p) => AttrValueV::Path(opt_str(*p)),
            AttrValue::Other => AttrValueV::Other,
        }
    }
}

impl View for AttrPair {
    type V = (Option<Seq<char>>, AttrValueV, Seq<char>);

    open spec fn view(&self) -> (Option<Seq<char>>, AttrValueV, Seq<char>) {
        (opt_str(self.name), self.value@, self.text@)
    }
}

/// What the attribute pairs seen so far set.
pub struct AttrStateV {
    pub path: Option<Seq<char>>,
    pub source: Option<Seq<char>>,
    pub block: Option<Seq<char>>,
    pub reload: Option<ReloadV>,
}

pub open spec fn not_ident_message() -> Seq<char> {
    "expected this path to be an identifier"@
}

pub open spec fn spec_str_value(v: AttrValueV) -> Result<Seq<char>, Seq<char>> {
    match v {
        AttrValueV::Str(s) => Ok(s),
        _ => Err("expected string"@),
    }
}

pub open spec fn spec_ident_value(v: AttrValueV) -> Result<Seq<char>, Seq<char>> {
    match v {
        AttrValueV::Path(Some(i)) => Ok(i),
        AttrValueV::Path(None) => Err(not_ident_message()),
        _ => Err("expected identifier"@),
    }
}

pub open spec fn spec_set_path(st: AttrStateV, p: Seq<char>) -> Result<AttrStateV, Seq<char>> {
    if st.path is Some {
        Err("only single either of `path`, `root`, or `source` allowed"@)
    } else {
        Ok(AttrStateV { path: Some(p), ..st })
    }
}

/// The reload behavior that value `v`, written as `text`, asks for.
pub open spec fn spec_reload_value(v: AttrValueV, text: Seq<char>) -> Result<ReloadV, Seq<char>> {
    match v {
        AttrValueV::Str(s) => if s == "debug"@ {
            Ok(ReloadV::Debug)
        } else if s == "always"@ {
            Ok(ReloadV::Always)
        } else if s == "never"@ {
            Ok(ReloadV::Never)
        } else {
            Err("expected `debug`, `always`, `never`, or expression, found `"@ + s + "`"@)
        },
        _ => Ok(ReloadV::Expr(text)),
    }
}

/// The state after pair `pair`, from current directory `cwd`, or the error.
pub open spec fn attr_step(
    st: AttrStateV,
    pair: (Option<Seq<char>>, AttrValueV, Seq<char>),
    templ_dir: Seq<char>,
    cwd: Seq<char>,
) -> Result<AttrStateV, Seq<char>> {
    match pair.0 {
        None => Err(not_ident_message()),
        Some(name) => if name == "path"@ {
            match spec_str_value(pair.1) {
                Err(e) => Err(e),
                Ok(v) => match spec_resolve(v, templ_dir, cwd) {
                    None => Err(crate::path::relative_path_message()),
                    Some(p) => spec_set_path(st, p),
                },
            }
        } else if name == "root"@ {
            match spec_str_value(pair.1) {
                Err(e) => Err(e),
                Ok(v) => spec_set_path(st, spec_normalize(spec_join(v, cwd))),
            }
        } else if name == "source"@ {
            match spec_str_value(pair.1) {
                Err(e) => Err(e),
                Ok(v) => spec_set_path(AttrStateV { source: Some(v), ..st }, cwd),
            }
        } else if name == "block"@ {
            match spec_ident_value(pair.1) {
                Err(e) => Err(e),
                Ok(id) => if st.block is Some {
                    Err("duplicate `block` key"@)
                } else {
                    Ok(AttrStateV { block: Some(id), ..st })
                },
            }
        } else if name == "reload"@ {
            match spec_reload_value(pair.1, pair.2) {
                Err(e) => Err(e),
                Ok(r) => if st.reload is Some {
                    Err("duplicate `reload` key"@)
                } else {
                    Ok(AttrStateV { reload: Some(r), ..st })
                },
            }
        } else {
            Err("no such key"@)
        },
    }
}

/// The state after pairs `pairs`, or the first error.
pub open spec fn attr_fold(
    st: AttrStateV,
    pairs: Seq<(Option<Seq<char>>, AttrValueV, Seq<char>)>,
    templ_dir: Seq<char>,
    cwd: Seq<char>,
) -> Result<AttrStateV, Seq<char>>
    decreases pairs.len(),
{
    if pairs.len() == 0 {
        Ok(st)
    } else {
        match attr_step(st, pairs[0], templ_dir, cwd) {
            Ok(st2) => attr_fold(st2, pairs.drop_first(), templ_dir, cwd),
            Err(e) => Err(e),
        }
    }
}

/// The metadata that attribute pairs `pairs` declare, from current
/// directory `cwd`, or the error message.
pub open spec fn spec_attrs(
    pairs: Seq<(Option<Seq<char>>, AttrValueV, Seq<char>)>,
    templ_dir: Seq<char>,
    cwd: Seq<char>,
) -> Result<MetaV, Seq<char>> {
    match attr_fold(AttrStateV { path: None, source: None, block: None, reload: None }, pairs, templ_dir, cwd) {
        Err(e) => Err(e),
        Ok(st) => match st.path {
            None => Err("one of `path`, `root`, or `source` is required"@),
            Some(p) => Ok(MetaV {
                path: p,
                source: st.source,
                reload: match st.reload {
                    Some(r) => r,
                    None => ReloadV::Debug,
                },
                block: st.block,
                kind: TemplKind::Main,
            }),
        },
    }
}

/// The views of attribute pairs.
pub open spec fn pairs_view(v: Seq<AttrPair>) -> Seq<(Option<Seq<char>>, AttrValueV, Seq<char>)> {
    Seq::new(v.len(), |i: int| v[i]@)
}

/// Every string value of `pairs` resolves without overflowing a `usize`.
pub open spec fn pairs_fit(pairs: Seq<AttrPair>, templ_dir: Seq<char>, cwd: Seq<char>) -> bool {
    forall|k: int|
        0 <= k < pairs.len() ==> match (#[trigger] pairs[k]).value {
            AttrValue::Str(v) => v@.len() + cwd.len() + templ_dir.len() + 2 < usize::MAX,
            _ => true,
        }
}

/// Collects the `#[template(..)]` attribute pairs of a derive input.
pub struct AttrVisitor {
    path: Option<String>,
    source: Option<String>,
    block: Option<String>,
    reload: Option<Reload>,
}

impl View for AttrVisitor {
    type V = AttrStateV;

    closed spec fn view(&self) -> AttrStateV {
        AttrStateV {
            path: opt_str(self.path),
            source: opt_str(self.source),
            block: opt_str(self.block),
            reload: match self.reload {
                Some(r) => Some(r@),
                None => None,
            },
        }
    }
}

fn generic(msg: &str) -> (r: ParseError)
    ensures
        r.spec_message() == msg@,
{
    ParseError::Generic(owned(msg))
}

impl AttrVisitor {
    /// Derive macro type level attribute.
    ///
    /// Accepts the pairs of `#[template(..)]`:
    ///
    /// - path: `path = ".."` (from the templates directory), `root = ".."`
    ///   (from the project root) or `source = ".."`
    /// - block: `block = <Ident>`
    /// - reload: `reload = "debug" | "always" | "never" | <Expr>`
    ///
    /// `cwd` is the current directory.
    pub fn parse(pairs: &Vec<AttrPair>, conf: &Config, cwd: &str) -> (r: Result<Metadata, ParseError>)
        requires
            pairs_fit(pairs@, conf.spec_templ_dir(), cwd@),
        ensures
            match r {
                Ok(m) => spec_attrs(pairs_view(pairs@), conf.spec_templ_dir(), cwd@) == Ok::<MetaV, Seq<char>>(m@),
                Err(e) => spec_attrs(pairs_view(pairs@), conf.spec_templ_dir(), cwd@) == Err::<MetaV, Seq<char>>(e.spec_message()),
            },
    {
        let mut visitor = AttrVisitor { path: None, source: None, block: None, reload: None };
        let ghost all = pairs_view(pairs@);
        let ghost td = conf.spec_templ_dir();
        let mut k: usize = 0;
        assert(all.skip(0) =~= all);
        while k < pairs.len()
            invariant
                k <= pairs@.len(),
                all == pairs_view(pairs@),
                td == conf.spec_templ_dir(),
                pairs_fit(pairs@, td, cwd@),
                attr_fold(AttrStateV { path: None, source: None, block: None, reload: None }, all, td, cwd@)
                    == attr_fold(visitor@, all.skip(k as int), td, cwd@),
            decreases pairs@.len() - k,
        {
            assert(all.skip(k as int)[0] == pairs@[k as int]@);
            assert(all.skip(k as int).drop_first() =~= all.skip(k + 1));
            let ghost before = visitor@;
            match visitor.visit_pair(&pairs[k], conf, cwd) {
                Ok(()) => {},
                Err(e) => {
                    assert(attr_step(before, pairs@[k as int]@, td, cwd@) == Err::<AttrStateV, Seq<char>>(e.spec_message()));
                    return Err(e);
                },
            }
            k = k + 1;
        }
        assert(all.skip(k as int) =~= Seq::<(Option<Seq<char>>, AttrValueV, Seq<char>)>::empty());
        match visitor.path {
            None => Err(generic("one of `path`, `root`, or `source` is required")),
            Some(path) => {
                let reload = match visitor.reload {
                    Some(r) => r,
                    None => Reload::default(),
                };
                Ok(Metadata { path, source: visitor.source, reload, block: visitor.block, kind: TemplKind::Main })
            },
        }
    }

    fn visit_pair(&mut self, pair: &AttrPair, conf: &Config, cwd: &str) -> (r: Result<(), ParseError>)
        requires
            match pair.value {
                AttrValue::Str(v) => v@.len() + cwd@.len() + conf.spec_templ_dir().len() + 2 < usize::MAX,
                _ => true,
            },
        ensures
            match attr_step(old(self)@, pair@, conf.spec_templ_dir(), cwd@) {
                Ok(st) => r is Ok && final(self)@ == st,
                Err(e) => r matches Err(x) && x.spec_message() == e,
            },
    {
        let name = match &pair.name {
            Some(n) => n,
            None => {
                return Err(generic("expected this path to be an identifier"));
            },
        };
        if str_eq(name.as_str(), "path") {
            self.visit_path(&pair.value, conf, cwd)
        } else if str_eq(name.as_str(), "root") {
            self.visit_root(&pair.value, cwd)
        } else if str_eq(name.as_str(), "source") {
            self.visit_source(&pair.value, cwd)
        } else if str_eq(name.as_str(), "block") {
            self.visit_block(&pair.value)
        } else if str_eq(name.as_str(), "reload") {
            self.visit_reload(&pair.value, &pair.text)
        } else {
            Err(generic("no such key"))
        }
    }

    fn visit_path(&mut self, value: &AttrValue, conf: &Config, cwd: &str) -> (r: Result<(), ParseError>)
        requires
            match value {
                AttrValue::Str(v) => v@.len() + cwd@.len() + conf.spec_templ_dir().len() + 2 < usize::MAX,
                _ => true,
            },
        ensures
            match spec_str_value(value@) {
                Err(e) => r matches Err(x) && x.spec_message() == e,
                Ok(v) => match spec_resolve(v, conf.spec_templ_dir(), cwd@) {
                    None => r matches Err(x) && x.spec_message() == crate::path::relative_path_message(),
                    Some(p) => match spec_set_path(old(self)@, p) {
                        Ok(st) => r is Ok && final(self)@ == st,
                        Err(e) => r matches Err(x) && x.spec_message() == e,
                    },
                },
            },
    {
        let v = match value {
            AttrValue::Str(v) => v,
            _ => {
                return Err(generic("expected string"));
            },
        };
        let path = resolve(v.as_str(), conf, cwd)?;
        self.set_path(path)
    }

    /// `root = ".."`: a path from the project root, the current directory.
    fn visit_root(&mut self, value: &AttrValue, cwd: &str) -> (r: Result<(), ParseError>)
        requires
            match value {
                AttrValue::Str(v) => v@.len() + cwd@.len() + 1 < usize::MAX,
                _ => true,
            },
        ensures
            match spec_str_value(value@) {
                Err(e) => r matches Err(x) && x.spec_message() == e,
                Ok(v) => match spec_set_path(old(self)@, spec_normalize(spec_join(v, cwd@))) {
                    Ok(st) => r is Ok && final(self)@ == st,
                    Err(e) => r matches Err(x) && x.spec_message() == e,
                },
            },
    {
        let v = match value {
            AttrValue::Str(v) => v,
            _ => {
                return Err(generic("expected string"));
            },
        };
        self.set_path(resolve_at(v.as_str(), cwd))
    }

    fn visit_source(&mut self, value: &AttrValue, cwd: &str) -> (r: Result<(), ParseError>)
        ensures
            match spec_str_value(value@) {
                Err(e) => r matches Err(x) && x.spec_message() == e,
                Ok(v) => match spec_set_path(AttrStateV { source: Some(v), ..old(self)@ }, cwd@) {
                    Ok(st) => r is Ok && final(self)@ == st,
                    Err(e) => r matches Err(x) && x.spec_message() == e,
                },
            },
    {
        let v = match value {
            AttrValue::Str(v) => v,
            _ => {
                return Err(generic("expected string"));
            },
        };
        self.source = Some(copy_string(v));
        self.set_path(owned(cwd))
    }

    fn set_path(&mut self, path: String) -> (r: Result<(), ParseError>)
        ensures
            match spec_set_path(old(self)@, path@) {
                Ok(st) => r is Ok && final(self)@ == st,
                Err(e) => r matches Err(x) && x.spec_message() == e,
            },
    {
        if self.path.is_some() {
            return Err(generic("only single either of `path`, `root`, or `source` allowed"));
        }
        self.path = Some(path);
        Ok(())
    }

    fn visit_block(&mut self, value: &AttrValue) -> (r: Result<(), ParseError>)
        ensures
            match spec_ident_value(value@) {
                Err(e) => r matches Err(x) && x.spec_message() == e,
                Ok(id) => if old(self)@.block is Some {
                    r matches Err(x) && x.spec_message() == "duplicate `block` key"@
                } else {
                    r is Ok && final(self)@ == AttrStateV { block: Some(id), ..old(self)@ }
                },
            },
    {
        let id = match value {
            AttrValue::Path(Some(id)) => copy_string(id),
            AttrValue::Path(None) => {
                return Err(generic("expected this path to be an identifier"));
            },
            _ => {
                return Err(generic("expected identifier"));
            },
        };
        if self.block.is_some() {
            return Err(generic("duplicate `block` key"));
        }
        self.block = Some(id);
        Ok(())
    }

    fn visit_reload(&mut self, value: &AttrValue, text: &String) -> (r: Result<(), ParseError>)
        ensures
            match spec_reload_value(value@, text@) {
                Err(e) => r matches Err(x) && x.spec_message() == e,
                Ok(rl) => if old(self)@.reload is Some {
                    r matches Err(x) && x.spec_message() == "duplicate `reload` key"@
                } else {
                    r is Ok && final(self)@ == AttrStateV { reload: Some(rl), ..old(self)@ }
                },
            },
    {
        let reload = match value {
            AttrValue::Str(s) => {
                if str_eq(s.as_str(), "debug") {
                    Reload::Debug
                } else if str_eq(s.as_str(), "always") {
                    Reload::Always
                } else if str_eq(s.as_str(), "never") {
                    Reload::Never
                } else {
                    let mut m = concat("expected `debug`, `always`, `never`, or expression, found `", s.as_str());
                    m.append("`");
                    return Err(ParseError::Generic(m));
                }
            },
            _ => Reload::Expr(copy_string(text)),
        };
        if self.reload.is_some() {
            return Err(generic("duplicate `reload` key"));
        }
        self.reload = Some(reload);
        Ok(())
    }
}

} // verus!
