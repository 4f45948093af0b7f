//! Template syntax tree: statements nested in scopes.
use vstd::prelude::*;
use crate::delimiter::Delimiter;
use crate::syntax::{
    BlockTempl, ForTempl, IfTempl, ItemTempl, RenderTempl, RenderValueV, UseTempl, opt_view,
};

verus! {

/// Template statement.
#[derive(Debug)]
pub enum StmtTempl {
    /// Regular statement.
    Scalar(Scalar),
    /// Scoped statement.
    Scope(Scope),
}

/// A statement that holds no other statement.
#[derive(Debug)]
pub enum Scalar {
    /// Static content, the `index`-th of its template.
    Static { value: String, index: u32 },
    /// Import and alias external template.
    Use(UseTempl),
    /// Render block or external template.
    Render(RenderTempl),
    /// Render body for layout.
    Yield,
    /// Rust item that will be generated as is.
    Item(ItemTempl),
    /// Rust expression.
    Expr { expr: String, delim: Delimiter },
}

/// Scoped statements.
#[derive(Debug)]
#[allow(inconsistent_fields)]
pub enum Scope {
    /// Block of statements.
    Root { stmts: Vec<StmtTempl> },
    /// If statement.
    If { templ: IfTempl, stmts: Vec<StmtTempl>, else_branch: Option<Box<Scope>> },
    /// For statement.
    For { templ: ForTempl, stmts: Vec<StmtTempl>, else_branch: Option<Box<Scope>> },
    /// Block declaration.
    Block { templ: BlockTempl, stmts: Vec<StmtTempl> },
}

/// The view of a scalar statement.
pub enum ScalarV {
    Static(Seq<char>, int),
    Use(Seq<char>, Seq<char>),
    Render(RenderValueV, Option<Seq<char>>),
    Yield,
    ItemUse(Seq<char>),
    ItemConst(Seq<char>),
    Expr(Seq<char>, Delimiter),
}

/// The view of a statement.
pub enum StmtV {
    Scalar(ScalarV),
    Scope(ScopeV),
}

/// The view of a scope: `If(cond, stmts, else)`, `For(pat, expr, stmts, else)`,
/// `Block(pub, static, name, stmts)`.
pub enum ScopeV {
    Root(Seq<StmtV>),
    If(Seq<char>, Seq<StmtV>, Option<Box<ScopeV>>),
    For(Seq<char>, Seq<char>, Seq<StmtV>, Option<Box<ScopeV>>),
    Block(bool, bool, Seq<char>, Seq<StmtV>),
}

pub open spec fn view_scalar(s: Scalar) -> ScalarV {
    match s {
        Scalar::Static { value, index } => ScalarV::Static(value@, index as int),
        Scalar::Use(u) => ScalarV::Use(u.path@, u.ident@),
        Scalar::Render(r) => ScalarV::Render(r.value@, opt_view(r.block)),
        Scalar::Yield => ScalarV::Yield,
        Scalar::Item(ItemTempl::Use(s)) => ScalarV::ItemUse(s@),
        Scalar::Item(ItemTempl::Const(s)) => ScalarV::ItemConst(s@),
        Scalar::Expr { expr, delim } => ScalarV::Expr(expr@, delim),
    }
}

pub open spec fn view_stmts(v: Seq<StmtTempl>) -> Seq<StmtV>
    decreases v,
{
    if v.len() == 0 {
        seq![]
    } else {
        view_stmts(v.drop_last()).push(view_stmt(v.last()))
    }
}

pub open spec fn view_stmt(s: StmtTempl) -> StmtV
    decreases s,
{
    match s {
        StmtTempl::Scalar(sc) => StmtV::Scalar(view_scalar(sc)),
        StmtTempl::Scope(sc) => StmtV::Scope(view_scope(sc)),
    }
}

pub open spec fn view_scope(s: Scope) -> ScopeV
    decreases s,
{
    match s {
        Scope::Root { stmts } => ScopeV::Root(view_stmts(stmts@)),
        Scope::If { templ, stmts, else_branch } => ScopeV::If(
            templ.cond@,
            view_stmts(stmts@),
            match else_branch {
                Some(b) => Some(Box::new(view_scope(*b))),
                None => None,
            },
        ),
        Scope::For { templ, stmts, else_branch } => ScopeV::For(
            templ.pat@,
            templ.expr@,
            view_stmts(stmts@),
            match else_branch {
                Some(b) => Some(Box::new(view_scope(*b))),
                None => None,
            },
        ),
        Scope::Block { templ, stmts } => ScopeV::Block(
            templ.pub_token,
            templ.static_token,
            templ.name@,
            view_stmts(stmts@),
        ),
    }
}

impl View for StmtTempl {
    type V = StmtV;

    open spec fn view(&self) -> StmtV {
        view_stmt(*self)
    }
}

impl View for Scope {
    type V = ScopeV;

    open spec fn view(&self) -> ScopeV {
        view_scope(*self)
    }
}

pub proof fn lemma_view_stmts_push(v: Seq<StmtTempl>, s: StmtTempl)
    ensures
        view_stmts(v.push(s)) == view_stmts(v).push(view_stmt(s)),
{
    assert(v.push(s).drop_last() =~= v);
}

/// `st` appended to the statements that scope `sc` currently fills: the
/// innermost `else` branch if there is one.
pub open spec fn scope_push(sc: ScopeV, st: StmtV) -> ScopeV
    decreases sc,
{
    match sc {
        ScopeV::Root(s) => ScopeV::Root(s.push(st)),
        ScopeV::Block(p, t, n, s) => ScopeV::Block(p, t, n, s.push(st)),
        ScopeV::If(c, s, e) => match e {
            Some(b) => ScopeV::If(c, s, Some(Box::new(scope_push(*b, st)))),
            None => ScopeV::If(c, s.push(st), None),
        },
        ScopeV::For(p, x, s, e) => match e {
            Some(b) => ScopeV::For(p, x, s, Some(Box::new(scope_push(*b, st)))),
            None => ScopeV::For(p, x, s.push(st), None),
        },
    }
}

/// The `else` chains of `sc` hold only root and `if` scopes.
pub open spec fn else_wf(sc: ScopeV) -> bool
    decreases sc,
{
    match sc {
        ScopeV::If(_, _, Some(b)) => match *b {
            ScopeV::Root(_) | ScopeV::If(..) => else_wf(*b),
            _ => false,
        },
        ScopeV::For(_, _, _, Some(b)) => match *b {
            ScopeV::Root(_) => true,
            _ => false,
        },
        _ => true,
    }
}

/// The name of a scope in messages.
pub open spec fn scope_name(sc: ScopeV) -> Seq<char> {
    match sc {
        ScopeV::Root(_) => "root"@,
        ScopeV::Block(..) => "block"@,
        ScopeV::If(..) => "if"@,
        ScopeV::For(..) => "for"@,
    }
}

/// The `else` chain `eb` with `new` put in its first empty place; `None` when
/// the chain already ends with a plain `else`.
pub open spec fn else_fill(eb: Option<Box<ScopeV>>, new: ScopeV) -> Option<Option<Box<ScopeV>>>
    decreases eb,
{
    match eb {
        None => Some(Some(Box::new(new))),
        Some(b) => match *b {
            ScopeV::If(c, s, e) => match else_fill(e, new) {
                Some(e2) => Some(Some(Box::new(ScopeV::If(c, s, e2)))),
                None => None,
            },
            _ => None,
        },
    }
}

impl Scope {
    /// The name of this scope in messages.
    pub fn name(&self) -> (r: &'static str)
        ensures
            r@ == scope_name(self@),
    {
        match self {
            Scope::Root { .. } => "root",
            Scope::Block { .. } => "block",
            Scope::If { .. } => "if",
            Scope::For { .. } => "for",
        }
    }

    /// This scope with `stmt` appended to the statements it currently fills.
    pub fn pushed(self, stmt: StmtTempl) -> (r: Scope)
        ensures
            r@ == scope_push(self@, stmt@),
            else_wf(self@) ==> else_wf(r@),
        decreases self,
    {
        match self {
            Scope::Root { mut stmts } => {
                proof { lemma_view_stmts_push(stmts@, stmt); }
                stmts.push(stmt);
                Scope::Root { stmts }
            },
            Scope::Block { templ, mut stmts } => {
                proof { lemma_view_stmts_push(stmts@, stmt); }
                stmts.push(stmt);
                Scope::Block { templ, stmts }
            },
            Scope::If { templ, mut stmts, else_branch } => match else_branch {
                Some(b) => {
                    let inner = (*b).pushed(stmt);
                    Scope::If { templ, stmts, else_branch: Some(Box::new(inner)) }
                },
                None => {
                    proof { lemma_view_stmts_push(stmts@, stmt); }
                    stmts.push(stmt);
                    Scope::If { templ, stmts, else_branch: None }
                },
            },
            Scope::For { templ, mut stmts, else_branch } => match else_branch {
                Some(b) => {
                    let inner = (*b).pushed(stmt);
                    Scope::For { templ, stmts, else_branch: Some(Box::new(inner)) }
                },
                None => {
                    proof { lemma_view_stmts_push(stmts@, stmt); }
                    stmts.push(stmt);
                    Scope::For { templ, stmts, else_branch: None }
                },
            },
        }
    }
}

/// Puts `new` in the first empty place of the `else` chain `else_branch`;
/// `None` when the chain already ends with a plain `else`.
pub fn fill_else(else_branch: Option<Box<Scope>>, new: Scope) -> (r: Option<Option<Box<Scope>>>)
    requires
        match else_branch {
            Some(b) => (b@ is Root || b@ is If) && else_wf(b@),
            None => true,
        },
    ensures
        match (r, else_fill(
            match else_branch {
                Some(b) => Some(Box::new(b@)),
                None => None,
            },
            new@,
        )) {
            (Some(Some(b)), Some(Some(v))) => b@ == *v,
            (None, None) => true,
            _ => false,
        },
    decreases else_branch,
{
    match else_branch {
        None => Some(Some(Box::new(new))),
        Some(b) => match *b {
            Scope::If { templ, stmts, else_branch: eb } => {
                match fill_else(eb, new) {
                    Some(e2) => Some(Some(Box::new(Scope::If { templ, stmts, else_branch: e2 }))),
                    None => None,
                }
            },
            _ => None,
        },
    }
}

/// Filling the innermost empty `else` of a well-formed `if` scope with a
/// well-formed scope keeps it well-formed.
pub proof fn lemma_else_fill_wf(sc: ScopeV, new: ScopeV)
    requires
        sc is If,
        else_wf(sc),
        new is Root || new is If,
        else_wf(new),
    ensures
        match sc {
            ScopeV::If(c, s, e) => match else_fill(e, new) {
                Some(e2) => else_wf(ScopeV::If(c, s, e2)),
                None => true,
            },
            _ => true,
        },
    decreases sc,
{
    match sc {
        ScopeV::If(c, s, e) => match e {
            Some(b) => match *b {
                ScopeV::If(..) => {
                    lemma_else_fill_wf(*b, new);
                },
                _ => {},
            },
            None => {},
        },
        _ => {},
    }
}

/// Statement `s` holds no block scope: blocks are taken out of the tree when
/// they close.
pub open spec fn stmt_ok(s: StmtV) -> bool
    decreases s,
{
    match s {
        StmtV::Scalar(_) => true,
        StmtV::Scope(sc) => !(sc is Block) && scope_ok(sc),
    }
}

/// No statement of `v` holds a block scope.
pub open spec fn stmts_ok(v: Seq<StmtV>) -> bool
    decreases v,
{
    if v.len() == 0 {
        true
    } else {
        stmts_ok(v.drop_last()) && stmt_ok(v.last())
    }
}

/// The statements of scope `sc`, and of its `else` chain, hold no block scope.
pub open spec fn scope_ok(sc: ScopeV) -> bool
    decreases sc,
{
    match sc {
        ScopeV::Root(s) => stmts_ok(s),
        ScopeV::Block(_, _, _, s) => stmts_ok(s),
        ScopeV::If(_, s, e) => stmts_ok(s) && match e {
            Some(b) => scope_ok(*b),
            None => true,
        },
        ScopeV::For(_, _, s, e) => stmts_ok(s) && match e {
            Some(b) => scope_ok(*b),
            None => true,
        },
    }
}

pub proof fn lemma_stmts_ok_push(v: Seq<StmtV>, s: StmtV)
    ensures
        stmts_ok(v.push(s)) == (stmts_ok(v) && stmt_ok(s)),
{
    assert(v.push(s).drop_last() =~= v);
}

pub proof fn lemma_stmts_ok_empty()
    ensures
        stmts_ok(Seq::<StmtV>::empty()),
{
}

/// Every statement of `v` holds no block scope.
pub proof fn lemma_stmts_ok_index(v: Seq<StmtV>, k: int)
    requires
        stmts_ok(v),
        0 <= k < v.len(),
    ensures
        stmt_ok(v[k]),
    decreases v.len(),
{
    if k < v.len() - 1 {
        lemma_stmts_ok_index(v.drop_last(), k);
    }
}

pub proof fn lemma_scope_push_ok(sc: ScopeV, st: StmtV)
    requires
        scope_ok(sc),
        stmt_ok(st),
    ensures
        scope_ok(scope_push(sc, st)),
    decreases sc,
{
    match sc {
        ScopeV::Root(s) => lemma_stmts_ok_push(s, st),
        ScopeV::Block(_, _, _, s) => lemma_stmts_ok_push(s, st),
        ScopeV::If(_, s, e) => match e {
            Some(b) => lemma_scope_push_ok(*b, st),
            None => lemma_stmts_ok_push(s, st),
        },
        ScopeV::For(_, _, s, e) => match e {
            Some(b) => lemma_scope_push_ok(*b, st),
            None => lemma_stmts_ok_push(s, st),
        },
    }
}

pub proof fn lemma_else_fill_ok(e: Option<Box<ScopeV>>, new: ScopeV)
    requires
        match e {
            Some(b) => scope_ok(*b),
            None => true,
        },
        scope_ok(new),
    ensures
        match else_fill(e, new) {
            Some(Some(b)) => scope_ok(*b),
            _ => true,
        },
    decreases e,
{
    match e {
        Some(b) => match *b {
            ScopeV::If(c, s, e2) => lemma_else_fill_ok(e2, new),
            _ => {},
        },
        None => {},
    }
}

} // verus!
