//! Size hints: lower and upper bounds of a rendered template's length.
use vstd::prelude::*;
use vstd::utf8::encode_utf8;
use crate::ast::{Scalar, ScalarV, Scope, ScopeV, StmtTempl, StmtV, view_stmt, view_stmts};
use crate::syntax::{RenderTempl, RenderValue, RenderValueV};
use crate::template::{
    ImportV, Template, TemplateV, alias_pos, block_pos, lemma_alias_pos, lemma_block_pos,
    lemma_path_pos, path_pos,
};
use crate::visitor::BlockV;

verus! {

/// Lower bound and optional upper bound of a rendered length.
pub type SizeHint = (usize, Option<usize>);

/// A size hint as mathematical integers.
pub open spec fn hint_view(h: SizeHint) -> (int, Option<int>) {
    (
        h.0 as int,
        match h.1 {
            Some(m) => Some(m as int),
            None => None,
        },
    )
}

/// Upper bounds of two parts in sequence; an unknown bound counts as nothing.
pub open spec fn upper_add(a: Option<int>, b: Option<int>) -> Option<int> {
    match (a, b) {
        (None, None) => None,
        (None, Some(m)) => Some(m),
        (Some(m), None) => Some(m),
        (Some(m), Some(n)) => Some(m + n),
    }
}

/// Upper bounds of two alternatives; an unknown bound counts as nothing.
pub open spec fn upper_max(a: Option<int>, b: Option<int>) -> Option<int> {
    match (a, b) {
        (None, None) => None,
        (None, Some(m)) => Some(m),
        (Some(m), None) => Some(m),
        (Some(m), Some(n)) => Some(if m >= n { m } else { n }),
    }
}

/// The hint of two parts rendered one after the other.
pub open spec fn hint_add(a: (int, Option<int>), b: (int, Option<int>)) -> (int, Option<int>) {
    (a.0 + b.0, upper_add(a.1, b.1))
}

/// The hint of one of two alternatives.
pub open spec fn hint_merge(a: (int, Option<int>), b: (int, Option<int>)) -> (int, Option<int>) {
    (if a.0 <= b.0 { a.0 } else { b.0 }, upper_max(a.1, b.1))
}

/// `add` does not overflow.
pub open spec fn add_fits(a: SizeHint, b: SizeHint) -> bool {
    &&& a.0 + b.0 <= usize::MAX
    &&& match (a.1, b.1) {
        (Some(m), Some(n)) => m + n <= usize::MAX,
        _ => true,
    }
}

/// Returns `true` if the hint says nothing: `(0, None)`.
pub fn is_empty(size: SizeHint) -> (r: bool)
    ensures
        r == (size.0 == 0 && size.1 is None),
{
    size.0 == 0 && size.1.is_none()
}

/// The hint of content of exactly `len` characters.
pub fn exact(len: usize) -> (r: SizeHint)
    ensures
        r == (len, Some(len)),
{
    (len, Some(len))
}

/// The hint of two parts rendered one after the other.
pub fn add(s1: SizeHint, s2: SizeHint) -> (r: SizeHint)
    requires
        add_fits(s1, s2),
    ensures
        hint_view(r) == hint_add(hint_view(s1), hint_view(s2)),
{
    (
        s1.0 + s2.0,
        match (s1.1, s2.1) {
            (None, None) => None,
            (None, Some(max)) => Some(max),
            (Some(max), None) => Some(max),
            (Some(max), Some(mx)) => Some(max + mx),
        },
    )
}

/// The hint of one of two alternatives.
pub fn merge(s1: SizeHint, s2: SizeHint) -> (r: SizeHint)
    ensures
        hint_view(r) == hint_merge(hint_view(s1), hint_view(s2)),
{
    (
        if s1.0 <= s2.0 {
            s1.0
        } else {
            s2.0
        },
        match (s1.1, s2.1) {
            (None, None) => None,
            (None, Some(max)) => Some(max),
            (Some(max), None) => Some(max),
            (Some(max), Some(mx)) => Some(
                if max >= mx {
                    max
                } else {
                    mx
                },
            ),
        },
    )
}

/// The hint of two parts rendered one after the other.
pub fn add_size_hint(s1: SizeHint, s2: SizeHint) -> (r: SizeHint)
    requires
        add_fits(s1, s2),
    ensures
        hint_view(r) == hint_add(hint_view(s1), hint_view(s2)),
{
    self::add(s1, s2)
}

/// The hint of one of two alternatives.
pub fn merge_size_hint(s1: SizeHint, s2: SizeHint) -> (r: SizeHint)
    ensures
        hint_view(r) == hint_merge(hint_view(s1), hint_view(s2)),
{
    merge(s1, s2)
}

/// Adding parts is commutative.
pub proof fn law_add_commutative(a: (int, Option<int>), b: (int, Option<int>))
    ensures
        hint_add(a, b) == hint_add(b, a),
{
}

/// Adding parts is associative.
pub proof fn law_add_associative(a: (int, Option<int>), b: (int, Option<int>), c: (int, Option<int>))
    ensures
        hint_add(hint_add(a, b), c) == hint_add(a, hint_add(b, c)),
{
}

/// The empty hint `(0, None)` adds nothing.
pub proof fn law_add_identity(a: (int, Option<int>))
    ensures
        hint_add(a, (0, None)) == a,
        hint_add((0, None), a) == a,
{
}

/// Exact lengths add up.
pub proof fn law_add_exact(m: int, n: int)
    ensures
        hint_add((m, Some(m)), (n, Some(n))) == (m + n, Some(m + n)),
{
}

/// Merging alternatives is commutative.
pub proof fn law_merge_commutative(a: (int, Option<int>), b: (int, Option<int>))
    ensures
        hint_merge(a, b) == hint_merge(b, a),
{
}

/// Merging alternatives is associative.
pub proof fn law_merge_associative(a: (int, Option<int>), b: (int, Option<int>), c: (int, Option<int>))
    ensures
        hint_merge(hint_merge(a, b), c) == hint_merge(a, hint_merge(b, c)),
{
}

/// Merging a hint with itself changes nothing.
pub proof fn law_merge_idempotent(a: (int, Option<int>))
    ensures
        hint_merge(a, a) == a,
{
}

/// The lower bound of merged alternatives is no more than either one's.
pub proof fn law_merge_lower_bound(a: (int, Option<int>), b: (int, Option<int>))
    ensures
        hint_merge(a, b).0 <= a.0,
        hint_merge(a, b).0 <= b.0,
{
}

/// A hint whose bounds fit in a `usize`.
pub open spec fn hint_fits(h: (int, Option<int>)) -> bool {
    &&& 0 <= h.0 <= usize::MAX
    &&& match h.1 {
        Some(m) => 0 <= m <= usize::MAX,
        None => true,
    }
}

/// Two hints added, when both are known and the sum fits in a `usize`.
pub open spec fn add_checked(a: Option<(int, Option<int>)>, b: Option<(int, Option<int>)>) -> Option<(int, Option<int>)> {
    match (a, b) {
        (Some(x), Some(y)) => if hint_fits(hint_add(x, y)) {
            Some(hint_add(x, y))
        } else {
            None
        },
        _ => None,
    }
}

/// Two hints merged, when both are known.
pub open spec fn merge_opt(a: Option<(int, Option<int>)>, b: Option<(int, Option<int>)>) -> Option<(int, Option<int>)> {
    match (a, b) {
        (Some(x), Some(y)) => Some(hint_merge(x, y)),
        _ => None,
    }
}

/// The statements that template `t` renders: those of its selected block,
/// or all of them; `None` when the selected block is missing.
pub open spec fn templ_body(t: TemplateV) -> Option<Seq<StmtV>> {
    match t.meta.block {
        Some(b) => if block_pos(t.file.blocks, b) >= 0 {
            Some(t.file.blocks[block_pos(t.file.blocks, b)].3)
        } else {
            None
        },
        None => Some(t.file.stmts),
    }
}

/// `a + b`, or `usize::MAX` when the sum does not fit.
pub open spec fn sat_add(a: int, b: int) -> int {
    if a + b > usize::MAX {
        usize::MAX as int
    } else {
        a + b
    }
}

/// For each import, one plus the number of its blocks, added up.
pub open spec fn imports_weight(is: Seq<ImportV>) -> int
    decreases is.len(),
{
    if is.len() == 0 {
        0
    } else {
        sat_add(imports_weight(is.drop_last()), sat_add(1, is.last().templ.file.blocks.len() as int))
    }
}

/// How deeply renders of blocks, and of templates by path, may nest under
/// template `t`: the number of bodies they can reach. A deeper chain renders
/// some body within itself.
pub open spec fn nest_limit(t: TemplateV) -> int {
    sat_add(t.file.blocks.len() as int, imports_weight(t.file.imports))
}

/// The hint of statements `v` under template `t`, with `d` more nested
/// renders of blocks or of templates by path allowed; `None` when a render
/// does not resolve, nesting goes deeper, or a bound overflows a `usize`.
pub open spec fn hint_stmts(t: TemplateV, v: Seq<StmtV>, d: nat) -> Option<(int, Option<int>)>
    decreases t, d, v,
{
    if v.len() == 0 {
        Some((0, None))
    } else {
        add_checked(hint_stmts(t, v.drop_last(), d), hint_stmt(t, v.last(), d))
    }
}

/// The hint of statement `s` under template `t`.
pub open spec fn hint_stmt(t: TemplateV, s: StmtV, d: nat) -> Option<(int, Option<int>)>
    decreases t, d, s,
{
    match s {
        StmtV::Scalar(ScalarV::Static(value, _)) => {
            let n = encode_utf8(value).len() as int;
            if n <= usize::MAX {
                Some((n, Some(n)))
            } else {
                None
            }
        },
        StmtV::Scalar(ScalarV::Render(RenderValueV::Ident(id), blk)) => {
            let bp = block_pos(t.file.blocks, id);
            let ap = alias_pos(t.file.imports, id);
            if bp >= 0 {
                if blk is None && d > 0 {
                    hint_stmts(t, t.file.blocks[bp].3, (d - 1) as nat)
                } else {
                    None
                }
            } else if 0 <= ap < t.file.imports.len() {
                let it = t.file.imports[ap].templ;
                match blk {
                    None => match templ_body(it) {
                        Some(body) => hint_stmts(it, body, nest_limit(it) as nat),
                        None => None,
                    },
                    Some(b) => {
                        let k = block_pos(it.file.blocks, b);
                        if 0 <= k < it.file.blocks.len() {
                            hint_stmts(it, it.file.blocks[k].3, nest_limit(it) as nat)
                        } else {
                            None
                        }
                    },
                }
            } else {
                None
            }
        },
        StmtV::Scalar(ScalarV::Render(RenderValueV::Path(p), blk)) => {
            let pp = path_pos(t.file.imports, p);
            if 0 <= pp < t.file.imports.len() && d > 0 {
                let it = t.file.imports[pp].templ;
                match blk {
                    None => match templ_body(it) {
                        Some(body) => hint_stmts(t, body, (d - 1) as nat),
                        None => None,
                    },
                    Some(b) => {
                        let k = block_pos(it.file.blocks, b);
                        if 0 <= k < it.file.blocks.len() {
                            hint_stmts(t, it.file.blocks[k].3, (d - 1) as nat)
                        } else {
                            None
                        }
                    },
                }
            } else {
                None
            }
        },
        StmtV::Scalar(_) => Some((0, None)),
        StmtV::Scope(sc) => hint_scope(t, sc, d),
    }
}

/// The hint of the statements of scope `sc` under template `t`: either
/// branch of an `if`, the body or the `else` of a `for`.
pub open spec fn hint_scope(t: TemplateV, sc: ScopeV, d: nat) -> Option<(int, Option<int>)>
    decreases t, d, sc,
{
    match sc {
        ScopeV::Root(s) => hint_stmts(t, s, d),
        ScopeV::If(_, s, e) => merge_opt(
            hint_stmts(t, s, d),
            match e {
                Some(b) => hint_scope(t, *b, d),
                None => Some((0, None)),
            },
        ),
        ScopeV::For(_, _, s, e) => merge_opt(
            hint_stmts(t, s, d),
            match e {
                Some(b) => hint_scope(t, *b, d),
                None => Some((0, None)),
            },
        ),
        ScopeV::Block(..) => None,
    }
}

/// A known hint as mathematical integers.
pub open spec fn opt_hint(h: Option<SizeHint>) -> Option<(int, Option<int>)> {
    match h {
        Some(x) => Some(hint_view(x)),
        None => None,
    }
}

/// The hint of two parts in sequence, unless a bound overflows.
fn add_or_none(a: SizeHint, b: SizeHint) -> (r: Option<SizeHint>)
    ensures
        opt_hint(r) == add_checked(Some(hint_view(a)), Some(hint_view(b))),
{
    if a.0 > usize::MAX - b.0 {
        return None;
    }
    match (a.1, b.1) {
        (Some(m), Some(n)) => {
            if m > usize::MAX - n {
                return None;
            }
        },
        _ => {},
    }
    Some(self::add(a, b))
}

pub proof fn lemma_hint_prefix(t: TemplateV, v: Seq<StmtV>, d: nat, n: int)
    requires
        0 <= n <= v.len(),
        hint_stmts(t, v.take(n), d) is None,
    ensures
        hint_stmts(t, v, d) is None,
    decreases v.len() - n,
{
    if n < v.len() {
        assert(v.take(n + 1).drop_last() =~= v.take(n));
        lemma_hint_prefix(t, v, d, n + 1);
    } else {
        assert(v.take(n) =~= v);
    }
}

/// `a + b`, or `usize::MAX` when the sum does not fit.
fn sat_add_exec(a: usize, b: usize) -> (r: usize)
    ensures
        r == sat_add(a as int, b as int),
{
    if a > usize::MAX - b {
        usize::MAX
    } else {
        a + b
    }
}

/// Size hint calculation over a template.
pub struct Visitor<'a> {
    templ: &'a Template,
}

/// The hint of what template `t` renders.
pub open spec fn spec_calculate(t: TemplateV) -> Option<(int, Option<int>)> {
    match templ_body(t) {
        Some(body) => hint_stmts(t, body, nest_limit(t) as nat),
        None => None,
    }
}

/// The hint of block `block` of template `t`.
pub open spec fn spec_calculate_block(t: TemplateV, block: Seq<char>) -> Option<(int, Option<int>)> {
    let k = block_pos(t.file.blocks, block);
    if 0 <= k < t.file.blocks.len() {
        hint_stmts(t, t.file.blocks[k].3, nest_limit(t) as nat)
    } else {
        None
    }
}

impl<'a> Visitor<'a> {
    /// A size hint calculation over `templ`.
    pub fn new(templ: &'a Template) -> (r: Visitor<'a>)
        ensures
            r.spec_templ() == templ@,
    {
        Visitor { templ }
    }

    /// The template the hints are calculated for.
    pub closed spec fn spec_templ(&self) -> TemplateV {
        self.templ@
    }

    /// The hint of what the template renders; `None` when a render does not
    /// resolve, renders nest within themselves, or a bound overflows.
    pub fn try_calculate(&self) -> (r: Option<SizeHint>)
        ensures
            opt_hint(r) == spec_calculate(self.spec_templ()),
    {
        match body_of(self.templ) {
            Some(body) => visit_stmts(self.templ, body, limit_of(self.templ)),
            None => None,
        }
    }

    /// The hint of what the template renders.
    pub fn calculate(&self) -> (r: SizeHint)
        requires
            spec_calculate(self.spec_templ()) is Some,
        ensures
            spec_calculate(self.spec_templ()) == Some(hint_view(r)),
    {
        self.try_calculate().unwrap()
    }

    /// The hint of block `block` of the template; `None` when there is no
    /// such block, or as for [`Visitor::try_calculate`].
    pub fn try_calculate_block(&self, block: &str) -> (r: Option<SizeHint>)
        ensures
            opt_hint(r) == spec_calculate_block(self.spec_templ(), block@),
    {
        proof {
            lemma_block_pos(self.templ@.file.blocks, block@);
        }
        match self.templ.file().get_block(block) {
            Some(b) => visit_stmts(self.templ, &b.stmts, limit_of(self.templ)),
            None => None,
        }
    }

    /// The hint of block `block` of the template.
    pub fn calculate_block(&self, block: &str) -> (r: SizeHint)
        requires
            spec_calculate_block(self.spec_templ(), block@) is Some,
        ensures
            spec_calculate_block(self.spec_templ(), block@) == Some(hint_view(r)),
    {
        self.try_calculate_block(block).unwrap()
    }
}

/// The statements template `t` renders.
fn body_of(t: &Template) -> (r: Option<&Vec<StmtTempl>>)
    ensures
        match r {
            Some(v) => templ_body(t@) == Some(view_stmts(v@)),
            None => templ_body(t@) is None,
        },
{
    match t.meta().block() {
        Some(b) => match t.file().get_block(b.as_str()) {
            Some(block) => Some(&block.stmts),
            None => None,
        },
        None => Some(t.all_stmts()),
    }
}

/// [`nest_limit`] of template `t`.
fn limit_of(t: &Template) -> (r: usize)
    ensures
        r == nest_limit(t@),
{
    let imports = t.file().imports();
    let mut w: usize = 0;
    let mut k: usize = 0;
    let ghost is = t@.file.imports;
    assert(is.take(0) =~= Seq::<ImportV>::empty());
    while k < imports.len()
        invariant
            k <= imports@.len() == is.len(),
            is == t@.file.imports,
            forall|j: int| 0 <= j < imports@.len() ==> (#[trigger] imports@[j])@ == is[j],
            w == imports_weight(is.take(k as int)),
        decreases imports@.len() - k,
    {
        assert(is.take(k + 1).drop_last() =~= is.take(k as int));
        assert(imports@[k as int]@ == is[k as int]);
        let n = imports[k].templ().file().blocks().len();
        w = sat_add_exec(w, sat_add_exec(1, n));
        k = k + 1;
    }
    assert(is.take(k as int) =~= is);
    sat_add_exec(t.file().blocks().len(), w)
}

fn visit_stmts(t: &Template, stmts: &Vec<StmtTempl>, d: usize) -> (r: Option<SizeHint>)
    ensures
        opt_hint(r) == hint_stmts(t@, view_stmts(stmts@), d as nat),
    decreases t@, d, view_stmts(stmts@),
{
    proof {
        crate::template::lemma_view_stmts_index(stmts@);
    }
    let ghost v = view_stmts(stmts@);
    let mut acc: SizeHint = (0, None);
    let mut k: usize = 0;
    assert(stmts@.take(0) =~= Seq::<StmtTempl>::empty());
    while k < stmts.len()
        invariant
            k <= stmts@.len(),
            v == view_stmts(stmts@),
            v.len() == stmts@.len(),
            forall|j: int| 0 <= j < stmts@.len() ==> #[trigger] v[j] == view_stmt(stmts@[j]),
            hint_stmts(t@, view_stmts(stmts@.take(k as int)), d as nat) == Some(hint_view(acc)),
        decreases stmts@.len() - k,
    {
        proof {
            assert(stmts@.take(k + 1) =~= stmts@.take(k as int).push(stmts@[k as int]));
            crate::ast::lemma_view_stmts_push(stmts@.take(k as int), stmts@[k as int]);
            assert(view_stmts(stmts@.take(k as int)).push(view_stmt(stmts@[k as int])).drop_last()
                =~= view_stmts(stmts@.take(k as int)));
            assert(v[k as int] == view_stmt(stmts@[k as int]));
        }
        let h = match visit_stmt(t, &stmts[k], d) {
            Some(h) => h,
            None => {
                proof {
                    lemma_hint_prefix(t@, v, d as nat, k + 1);
                    assert(v.take(k + 1) =~= view_stmts(stmts@.take(k + 1))) by {
                        crate::template::lemma_view_stmts_index(stmts@.take(k + 1));
                    }
                }
                return None;
            },
        };
        match add_or_none(acc, h) {
            Some(sum) => {
                acc = sum;
            },
            None => {
                proof {
                    assert(v.take(k + 1) =~= view_stmts(stmts@.take(k + 1))) by {
                        crate::template::lemma_view_stmts_index(stmts@.take(k + 1));
                    }
                    lemma_hint_prefix(t@, v, d as nat, k + 1);
                }
                return None;
            },
        }
        k = k + 1;
    }
    assert(stmts@.take(k as int) =~= stmts@);
    Some(acc)
}

fn visit_stmt(t: &Template, stmt: &StmtTempl, d: usize) -> (r: Option<SizeHint>)
    ensures
        opt_hint(r) == hint_stmt(t@, stmt@, d as nat),
    decreases t@, d, stmt@,
{
    match stmt {
        StmtTempl::Scalar(Scalar::Static { value, .. }) => {
            let n = value.as_str().as_bytes().len();
            Some(exact(n))
        },
        StmtTempl::Scalar(Scalar::Render(RenderTempl { value: RenderValue::Ident(id), block })) => {
            proof {
                lemma_block_pos(t@.file.blocks, id@);
                lemma_alias_pos(t@.file.imports, id@);
            }
            match t.file().get_block(id.as_str()) {
                Some(b) => {
                    if block.is_none() && d > 0 {
                        visit_stmts(t, &b.stmts, d - 1)
                    } else {
                        None
                    }
                },
                None => match t.file().get_import_by_id(id.as_str()) {
                    Some(import) => {
                        let it = import.templ();
                        assert(it@ == t@.file.imports[alias_pos(t@.file.imports, id@)].templ);
                        match block {
                            None => match body_of(it) {
                                Some(body) => visit_stmts(it, body, limit_of(it)),
                                None => None,
                            },
                            Some(b) => {
                                proof {
                                    lemma_block_pos(it@.file.blocks, b@);
                                }
                                match it.file().get_block(b.as_str()) {
                                    Some(blk) => visit_stmts(it, &blk.stmts, limit_of(it)),
                                    None => None,
                                }
                            },
                        }
                    },
                    None => None,
                },
            }
        },
        StmtTempl::Scalar(Scalar::Render(RenderTempl { value: RenderValue::Path(p), block })) => {
            proof {
                lemma_path_pos(t@.file.imports, p@);
            }
            if d == 0 {
                return None;
            }
            match t.file().get_import_by_path(p.as_str()) {
                Some(import) => {
                    let it = import.templ();
                    match block {
                        None => match body_of(it) {
                            Some(body) => visit_stmts(t, body, d - 1),
                            None => None,
                        },
                        Some(b) => {
                            proof {
                                lemma_block_pos(it@.file.blocks, b@);
                            }
                            match it.file().get_block(b.as_str()) {
                                Some(blk) => visit_stmts(t, &blk.stmts, d - 1),
                                None => None,
                            }
                        },
                    }
                },
                None => None,
            }
        },
        StmtTempl::Scalar(_) => Some((0, None)),
        StmtTempl::Scope(scope) => visit_scope(t, scope, d),
    }
}

fn visit_scope(t: &Template, scope: &Scope, d: usize) -> (r: Option<SizeHint>)
    ensures
        opt_hint(r) == hint_scope(t@, scope@, d as nat),
    decreases t@, d, scope@,
{
    match scope {
        Scope::Root { stmts } => visit_stmts(t, stmts, d),
        Scope::If { stmts, else_branch, .. } => {
            let s1 = visit_stmts(t, stmts, d);
            let s2 = match else_branch {
                Some(b) => visit_scope(t, &**b, d),
                None => Some((0, None)),
            };
            match (s1, s2) {
                (Some(a), Some(b)) => Some(merge(a, b)),
                _ => None,
            }
        },
        Scope::For { stmts, else_branch, .. } => {
            let s1 = visit_stmts(t, stmts, d);
            let s2 = match else_branch {
                Some(b) => visit_scope(t, &**b, d),
                None => Some((0, None)),
            };
            match (s1, s2) {
                (Some(a), Some(b)) => Some(merge(a, b)),
                _ => None,
            }
        },
        Scope::Block { .. } => None,
    }
}

/// The block found by name is the first block with that name.
proof fn lemma_block_pos_first(bs: Seq<BlockV>, name: Seq<char>, k: int)
    requires
        0 <= k < bs.len(),
        bs[k].2 == name,
        forall|j: int| 0 <= j < k ==> (#[trigger] bs[j]).2 != name,
    ensures
        block_pos(bs, name) == k,
    decreases bs.len(),
{
    if k < bs.len() - 1 {
        let init = bs.drop_last();
        assert(init[k] == bs[k]);
        assert forall|j: int| 0 <= j < k implies (#[trigger] init[j]).2 != name by {
            assert(init[j] == bs[j]);
        }
        lemma_block_pos_first(init, name, k);
    } else {
        lemma_block_pos(bs.drop_last(), name);
        if block_pos(bs.drop_last(), name) >= 0 {
            let q = block_pos(bs.drop_last(), name);
            assert(bs.drop_last()[q] == bs[q]);
        }
    }
}

/// The import found by path is the first import with that path.
proof fn lemma_path_pos_first(is: Seq<ImportV>, path: Seq<char>, k: int)
    requires
        0 <= k < is.len(),
        is[k].path == path,
        forall|j: int| 0 <= j < k ==> (#[trigger] is[j]).path != path,
    ensures
        path_pos(is, path) == k,
    decreases is.len(),
{
    if k < is.len() - 1 {
        let init = is.drop_last();
        assert(init[k] == is[k]);
        assert forall|j: int| 0 <= j < k implies (#[trigger] init[j]).path != path by {
            assert(init[j] == is[j]);
        }
        lemma_path_pos_first(init, path, k);
    } else {
        lemma_path_pos(is.drop_last(), path);
        if path_pos(is.drop_last(), path) >= 0 {
            let q = path_pos(is.drop_last(), path);
            assert(is.drop_last()[q] == is[q]);
        }
    }
}

/// The import found by alias is the first import with that alias.
proof fn lemma_alias_pos_first(is: Seq<ImportV>, alias: Seq<char>, k: int)
    requires
        0 <= k < is.len(),
        is[k].alias == alias,
        forall|j: int| 0 <= j < k ==> (#[trigger] is[j]).alias != alias,
    ensures
        alias_pos(is, alias) == k,
    decreases is.len(),
{
    if k < is.len() - 1 {
        let init = is.drop_last();
        assert(init[k] == is[k]);
        assert forall|j: int| 0 <= j < k implies (#[trigger] init[j]).alias != alias by {
            assert(init[j] == is[j]);
        }
        lemma_alias_pos_first(init, alias, k);
    } else {
        lemma_alias_pos(is.drop_last(), alias);
        if alias_pos(is.drop_last(), alias) >= 0 {
            let q = alias_pos(is.drop_last(), alias);
            assert(is.drop_last()[q] == is[q]);
        }
    }
}

/// Rendering block `b` of the template imported from path `p` counts just
/// that block: its hint, with one nested render spent, is the hint of the
/// statements of the first block named `b` in that template, not of the
/// template's whole body.
pub proof fn law_render_path_block_hint(t: TemplateV, p: Seq<char>, b: Seq<char>, d: nat, i: int, k: int)
    requires
        0 <= i < t.file.imports.len(),
        t.file.imports[i].path == p,
        forall|j: int| 0 <= j < i ==> (#[trigger] t.file.imports[j]).path != p,
        0 <= k < t.file.imports[i].templ.file.blocks.len(),
        t.file.imports[i].templ.file.blocks[k].2 == b,
        forall|j: int| 0 <= j < k ==> (#[trigger] t.file.imports[i].templ.file.blocks[j]).2 != b,
    ensures
        hint_stmt(t, StmtV::Scalar(ScalarV::Render(RenderValueV::Path(p), Some(b))), d + 1)
            == hint_stmts(t, t.file.imports[i].templ.file.blocks[k].3, d),
{
    lemma_path_pos_first(t.file.imports, p, i);
    lemma_block_pos_first(t.file.imports[i].templ.file.blocks, b, k);
}

/// Rendering block `b` of the template imported as `a` counts what that
/// template's own hint for block `b` counts ([`spec_calculate_block`], the
/// `size_hint_block` of the imported template), when `a` names no block of
/// the rendering template.
pub proof fn law_render_alias_block_hint(t: TemplateV, a: Seq<char>, b: Seq<char>, d: nat, i: int)
    requires
        forall|j: int| 0 <= j < t.file.blocks.len() ==> (#[trigger] t.file.blocks[j]).2 != a,
        0 <= i < t.file.imports.len(),
        t.file.imports[i].alias == a,
        forall|j: int| 0 <= j < i ==> (#[trigger] t.file.imports[j]).alias != a,
    ensures
        hint_stmt(t, StmtV::Scalar(ScalarV::Render(RenderValueV::Ident(a), Some(b))), d)
            == spec_calculate_block(t.file.imports[i].templ, b),
{
    lemma_alias_pos_first(t.file.imports, a, i);
    lemma_block_pos(t.file.blocks, a);
    lemma_block_pos(t.file.imports[i].templ.file.blocks, b);
}

/// The UTF-8 length of the static contents among statements `v`.
pub open spec fn static_total(v: Seq<StmtV>) -> int
    decreases v.len(),
{
    if v.len() == 0 {
        0
    } else {
        static_total(v.drop_last()) + match v.last() {
            StmtV::Scalar(ScalarV::Static(value, _)) => encode_utf8(value).len() as int,
            _ => 0,
        }
    }
}

proof fn lemma_static_total_nonneg(v: Seq<StmtV>)
    ensures
        static_total(v) >= 0,
    decreases v.len(),
{
    if v.len() > 0 {
        lemma_static_total_nonneg(v.drop_last());
    }
}

/// Static content counts exactly: the hint of statements that are all
/// static content is their total UTF-8 length, as lower and upper bound
/// (nothing known of no statements at all).
pub proof fn law_static_hint(t: TemplateV, v: Seq<StmtV>, d: nat)
    requires
        forall|k: int| 0 <= k < v.len() ==> (#[trigger] v[k]) matches StmtV::Scalar(ScalarV::Static(..)),
        static_total(v) <= usize::MAX,
    ensures
        hint_stmts(t, v, d) == if v.len() == 0 {
            Some((0int, None::<int>))
        } else {
            Some((static_total(v), Some(static_total(v))))
        },
    decreases v.len(),
{
    if v.len() > 0 {
        let init = v.drop_last();
        assert forall|k: int| 0 <= k < init.len() implies (#[trigger] init[k]) matches StmtV::Scalar(ScalarV::Static(..)) by {
            assert(init[k] == v[k]);
        }
        assert(v.last() == v[v.len() - 1]);
        let n = match v.last() {
            StmtV::Scalar(ScalarV::Static(value, _)) => encode_utf8(value).len() as int,
            _ => 0,
        };
        assert(static_total(v) == static_total(init) + n);
        assert(n >= 0);
        lemma_static_total_nonneg(init);
        law_static_hint(t, init, d);
        assert(hint_stmt(t, v.last(), d) == Some((n, Some(n))));
        assert(hint_stmts(t, v, d) == add_checked(hint_stmts(t, init, d), hint_stmt(t, v.last(), d)));
    }
}

/// Hint `h` covers hint `x`: its lower bound is no more than `x`'s, and
/// when `x` has an upper bound, `h` has one no less.
pub open spec fn covers(h: (int, Option<int>), x: (int, Option<int>)) -> bool {
    &&& h.0 <= x.0
    &&& (x.1 matches Some(u) ==> (h.1 matches Some(v) && u <= v))
}

/// The hint of an `if` or a `for` covers every branch it may render: its
/// body and each part of its `else` chain; without an `else`, nothing may
/// be rendered, so its lower bound is 0.
pub proof fn law_branch_hint(t: TemplateV, sc: ScopeV, d: nat)
    requires
        sc is If || sc is For,
    ensures
        hint_scope(t, sc, d) matches Some(h) ==> {
            let (s, e) = match sc {
                ScopeV::If(_, s, e) => (s, e),
                ScopeV::For(_, _, s, e) => (s, e),
                _ => (seq![], None),
            };
            &&& hint_stmts(t, s, d) matches Some(hs) && covers(h, hs)
            &&& match e {
                Some(b) => hint_scope(t, *b, d) matches Some(he) && covers(h, he),
                None => h.0 == 0,
            }
        },
{
}

} // verus!
