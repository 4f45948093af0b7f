//! Rust token trees of a template statement, as plain values.
//!
//! Lexing Rust and parsing embedded Rust expressions, patterns and items is
//! done by `proc_macro2` and `syn`; the template statement grammar built on
//! top of these tokens is in [`crate::syntax`]. Which lexer `proc_macro2`
//! runs depends on the process (the compiler's inside a procedural macro,
//! its own elsewhere), so nothing is claimed of what lexing a source gives:
//! what is stated is over the tokens that came back, and `syn`'s verdicts
//! are on those tokens.
use vstd::prelude::*;
use proc_macro2::{Delimiter, Spacing, TokenTree};
use crate::text::{concat, copy_string, owned, push_char};

verus! {

/// The kind of a top-level token tree.
#[derive(Clone, Copy, Debug, PartialEq, Eq, Structural)]
pub enum TokKind {
    Ident,
    Punct,
    Literal,
    Group,
}

/// The delimiter of a token group.
#[derive(Clone, Copy, Debug, PartialEq, Eq, Structural)]
pub enum GroupDelim {
    Paren,
    Bracket,
    Brace,
    Invisible,
}

/// A token as the lexers of `proc_macro2` give it: an identifier, a
/// punctuation character (joint to the next one or not) or a literal, by
/// their text; a group is given by its delimiter opening and closing around
/// its tokens.
#[derive(Debug)]
pub enum Atom {
    Ident(String),
    Punct(char, bool),
    Literal(String),
    Open(GroupDelim),
    Close(GroupDelim),
}

/// The view of an [`Atom`].
pub enum AtomV {
    Ident(Seq<char>),
    Punct(char, bool),
    Literal(Seq<char>),
    Open(GroupDelim),
    Close(GroupDelim),
}

impl View for Atom {
    type V = AtomV;

    open spec fn view(&self) -> AtomV {
        match self {
            Atom::Ident(t) => AtomV::Ident(t@),
            Atom::Punct(c, j) => AtomV::Punct(*c, *j),
            Atom::Literal(t) => AtomV::Literal(t@),
            Atom::Open(d) => AtomV::Open(*d),
            Atom::Close(d) => AtomV::Close(*d),
        }
    }
}

/// The views of atoms.
pub open spec fn atoms_view(v: Seq<Atom>) -> Seq<AtomV> {
    Seq::new(v.len(), |i: int| v[i]@)
}

/// `proc_macro2::TokenStream`, a sequence of token trees.
#[verifier::external_type_specification]
#[verifier::external_body]
pub struct ExTokenStream(proc_macro2::TokenStream);

/// `proc_macro2::TokenTree`, a token or a group of tokens.
#[verifier::external_type_specification]
#[verifier::external_body]
pub struct ExTokenTree(proc_macro2::TokenTree);

/// The tokens a `proc_macro2::TokenStream` holds, groups opened and closed
/// around their own tokens.
pub uninterp spec fn stream_atoms(s: proc_macro2::TokenStream) -> Seq<AtomV>;

/// The tokens a `proc_macro2::TokenTree` holds: the token itself, or a
/// group's delimiter opening and closing around its tokens.
pub uninterp spec fn tree_atoms(t: proc_macro2::TokenTree) -> Seq<AtomV>;

/// The tokens of trees `ts`, in order.
pub open spec fn trees_atoms(ts: Seq<proc_macro2::TokenTree>) -> Seq<AtomV>
    decreases ts.len(),
{
    if ts.len() == 0 {
        seq![]
    } else {
        trees_atoms(ts.drop_last()) + tree_atoms(ts.last())
    }
}

/// What a token tree is: a single token, or a group with the stream of its
/// tokens.
pub enum Head {
    Leaf(Atom),
    Group(GroupDelim, proc_macro2::TokenStream),
}

/// The tokens of `h`.
pub open spec fn head_atoms(h: Head) -> Seq<AtomV> {
    match h {
        Head::Leaf(a) => seq![a@],
        Head::Group(d, s) => seq![AtomV::Open(d)] + stream_atoms(s) + seq![AtomV::Close(d)],
    }
}

/// A top-level token tree: its kind, its text, for punctuation whether it is
/// joined to the next token, and the tree itself.
#[derive(Debug)]
pub struct Tok {
    pub kind: TokKind,
    pub text: String,
    pub joint: bool,
    pub tree: proc_macro2::TokenTree,
}

/// The view of a top-level token tree: its kind, its text, whether it is
/// joint punctuation, and its tokens.
pub type TokV = (TokKind, Seq<char>, bool, Seq<AtomV>);

impl View for Tok {
    type V = TokV;

    open spec fn view(&self) -> TokV {
        (self.kind, self.text@, self.joint, tree_atoms(self.tree))
    }
}

/// The views of a sequence of tokens.
pub open spec fn toks_view(v: Seq<Tok>) -> Seq<TokV> {
    Seq::new(v.len(), |i: int| v[i]@)
}

/// `str::parse::<proc_macro2::TokenStream>` on `src`, then the stream's
/// top-level token trees in order; `None` when `proc_macro2` refuses `src`.
/// Which lexer runs depends on the process, so nothing is stated of the
/// trees, nor of when `src` is refused.
#[verifier::external_body]
fn lex_trees(src: &str) -> (r: Option<Vec<proc_macro2::TokenTree>>) {
    let stream: proc_macro2::TokenStream = src.parse().ok()?;
    Some(stream.into_iter().collect())
}

/// What token tree `t` is (`Group::delimiter` and `Group::stream` for a
/// group; `to_string` of an identifier or literal; `Punct::as_char` and
/// `Punct::spacing` of punctuation).
#[verifier::external_body]
fn tree_head(t: &proc_macro2::TokenTree) -> (r: Head)
    ensures
        tree_atoms(*t) == head_atoms(r),
{
    match t {
        TokenTree::Group(g) => Head::Group(match g.delimiter() {
            Delimiter::Parenthesis => GroupDelim::Paren,
            Delimiter::Bracket => GroupDelim::Bracket,
            Delimiter::Brace => GroupDelim::Brace,
            Delimiter::None => GroupDelim::Invisible,
        }, g.stream()),
        TokenTree::Ident(i) => Head::Leaf(Atom::Ident(i.to_string())),
        TokenTree::Punct(p) => Head::Leaf(Atom::Punct(p.as_char(), matches!(p.spacing(), Spacing::Joint))),
        TokenTree::Literal(l) => Head::Leaf(Atom::Literal(l.to_string())),
    }
}

/// The token trees of `s`, in order (`IntoIterator` of
/// `proc_macro2::TokenStream`).
#[verifier::external_body]
fn trees_of(s: proc_macro2::TokenStream) -> (r: Vec<proc_macro2::TokenTree>)
    ensures
        stream_atoms(s) == trees_atoms(r@),
{
    s.into_iter().collect()
}

/// The tokens of a prefix of trees are a prefix of their tokens.
proof fn lemma_trees_atoms_prefix(ts: Seq<proc_macro2::TokenTree>, m: int)
    requires
        0 <= m <= ts.len(),
    ensures
        trees_atoms(ts.take(m)).len() <= trees_atoms(ts).len(),
    decreases ts.len(),
{
    if m == ts.len() {
        assert(ts.take(m) =~= ts);
    } else {
        lemma_trees_atoms_prefix(ts.drop_last(), m);
        assert(ts.drop_last().take(m) =~= ts.take(m));
    }
}

/// Appends the tokens of tree `t` to `out`.
fn flatten_tree(t: &proc_macro2::TokenTree, out: &mut Vec<Atom>)
    ensures
        atoms_view(final(out)@) == atoms_view(old(out)@) + tree_atoms(*t),
    decreases tree_atoms(*t).len(),
{
    let ghost out0 = atoms_view(out@);
    match tree_head(t) {
        Head::Leaf(a) => {
            let ghost av = a@;
            out.push(a);
            assert(atoms_view(out@) =~= out0 + seq![av]);
        },
        Head::Group(d, s) => {
            let ghost inner = stream_atoms(s);
            out.push(Atom::Open(d));
            let trees = trees_of(s);
            let ghost start = out0.push(AtomV::Open(d));
            assert(atoms_view(out@) =~= start);
            assert(trees@.take(0) =~= Seq::<proc_macro2::TokenTree>::empty());
            assert(start + trees_atoms(trees@.take(0)) =~= start);
            let mut k: usize = 0;
            while k < trees.len()
                invariant
                    k <= trees@.len(),
                    trees_atoms(trees@) == inner,
                    tree_atoms(*t) == seq![AtomV::Open(d)] + inner + seq![AtomV::Close(d)],
                    start == out0.push(AtomV::Open(d)),
                    atoms_view(out@) == start + trees_atoms(trees@.take(k as int)),
                decreases trees@.len() - k,
            {
                proof {
                    let p = trees@.take(k + 1);
                    assert(p.drop_last() =~= trees@.take(k as int));
                    assert(p.last() == trees@[k as int]);
                    lemma_trees_atoms_prefix(trees@, k + 1);
                }
                let ghost before = atoms_view(out@);
                flatten_tree(&trees[k], out);
                proof {
                    assert(atoms_view(out@) =~= start + trees_atoms(trees@.take(k + 1)));
                }
                k = k + 1;
            }
            assert(trees@.take(k as int) =~= trees@);
            let ghost mid = atoms_view(out@);
            out.push(Atom::Close(d));
            assert(atoms_view(out@) =~= mid.push(AtomV::Close(d)));
            assert(atoms_view(out@) =~= out0 + tree_atoms(*t));
        },
    }
}

/// The text of a group's opening delimiter.
pub open spec fn open_text(d: GroupDelim) -> Seq<char> {
    match d {
        GroupDelim::Paren => seq!['('],
        GroupDelim::Bracket => seq!['['],
        GroupDelim::Brace => seq!['{'],
        GroupDelim::Invisible => seq![],
    }
}

/// The text of a group's closing delimiter.
pub open spec fn close_text(d: GroupDelim) -> Seq<char> {
    match d {
        GroupDelim::Paren => seq![')'],
        GroupDelim::Bracket => seq![']'],
        GroupDelim::Brace => seq!['}'],
        GroupDelim::Invisible => seq![],
    }
}

/// The source text of a token.
pub open spec fn atom_text(a: AtomV) -> Seq<char> {
    match a {
        AtomV::Ident(t) => t,
        AtomV::Literal(t) => t,
        AtomV::Punct(c, _) => seq![c],
        AtomV::Open(d) => open_text(d),
        AtomV::Close(d) => close_text(d),
    }
}

/// Whether a space separates tokens `a` and `b` in a group's text: not
/// after joint punctuation or an opening delimiter, nor before a closing
/// one.
pub open spec fn spaced(a: AtomV, b: AtomV) -> bool {
    !(a matches AtomV::Punct(_, true)) && !(a is Open) && !(b is Close)
}

/// The source text of tokens `a[i..j]`.
pub open spec fn atoms_text(a: Seq<AtomV>, i: int, j: int) -> Seq<char>
    decreases j - i,
{
    if j <= i {
        seq![]
    } else if j == i + 1 {
        atom_text(a[i])
    } else {
        atoms_text(a, i, j - 1) + (if spaced(a[j - 2], a[j - 1]) { seq![' '] } else { seq![] }) + atom_text(a[j - 1])
    }
}

/// The kind, text and spacing of a top-level token tree with tokens `a`:
/// a single identifier, literal or punctuation by itself, otherwise a group
/// whose text is the text of its tokens.
pub open spec fn tok_of(a: Seq<AtomV>) -> (TokKind, Seq<char>, bool) {
    if a.len() == 1 {
        match a[0] {
            AtomV::Ident(t) => (TokKind::Ident, t, false),
            AtomV::Literal(t) => (TokKind::Literal, t, false),
            AtomV::Punct(c, j) => (TokKind::Punct, seq![c], j),
            _ => (TokKind::Group, atoms_text(a, 0, 1), false),
        }
    } else {
        (TokKind::Group, atoms_text(a, 0, a.len() as int), false)
    }
}

/// The kind, text and spacing of token `t` are those its tokens give.
pub open spec fn tok_ok(t: TokV) -> bool {
    (t.0, t.1, t.2) == tok_of(t.3)
}

/// Every token of `ts` is consistent with its tokens.
pub open spec fn toks_ok(ts: Seq<TokV>) -> bool {
    forall|k: int| 0 <= k < ts.len() ==> tok_ok(#[trigger] ts[k])
}

/// The tokens of top-level trees `ts[from..to]`, in order.
pub open spec fn span_atoms(ts: Seq<TokV>, from: int, to: int) -> Seq<AtomV>
    decreases to - from,
{
    if to <= from {
        seq![]
    } else {
        span_atoms(ts, from, to - 1) + ts[to - 1].3
    }
}

/// Whether `syn` parses tokens `a` as a Rust expression (`syn::Expr`).
pub uninterp spec fn is_rust_expr(a: Seq<AtomV>) -> bool;

/// Whether `syn` parses tokens `a` as a Rust pattern with an optional
/// leading `|` (`syn::Pat::parse_multi_with_leading_vert`).
pub uninterp spec fn is_rust_pat(a: Seq<AtomV>) -> bool;

/// The value of tokens `a` as a Rust string literal (`syn::LitStr::value`),
/// if `syn` parses them as one.
pub uninterp spec fn lit_str_value(a: Seq<AtomV>) -> Option<Seq<char>>;

/// Whether `syn` parses tokens `a` as a `use` item (`syn::ItemUse`).
pub uninterp spec fn is_item_use(a: Seq<AtomV>) -> bool;

/// Whether `syn` parses tokens `a` as the tree of a `use` item
/// (`syn::UseTree`).
pub uninterp spec fn is_use_tree(a: Seq<AtomV>) -> bool;

/// Whether `syn` parses tokens `a` as a `const` item (`syn::ItemConst`).
pub uninterp spec fn is_item_const(a: Seq<AtomV>) -> bool;

/// `syn::parse2::<syn::Expr>` on the stream of trees `toks[from..to]`;
/// named by [`is_rust_expr`].
#[verifier::external_body]
pub(crate) fn parses_as_expr(toks: &Vec<Tok>, from: usize, to: usize) -> (r: bool)
    requires
        from <= to <= toks@.len(),
    ensures
        r == is_rust_expr(span_atoms(toks_view(toks@), from as int, to as int)),
{
    syn::parse2::<syn::Expr>(toks[from..to].iter().map(|t| t.tree.clone()).collect()).is_ok()
}

/// `syn::Pat::parse_multi_with_leading_vert` on the stream of trees
/// `toks[from..to]`; named by [`is_rust_pat`].
#[verifier::external_body]
pub(crate) fn parses_as_pat(toks: &Vec<Tok>, from: usize, to: usize) -> (r: bool)
    requires
        from <= to <= toks@.len(),
    ensures
        r == is_rust_pat(span_atoms(toks_view(toks@), from as int, to as int)),
{
    let stream: proc_macro2::TokenStream = toks[from..to].iter().map(|t| t.tree.clone()).collect();
    syn::parse::Parser::parse2(syn::Pat::parse_multi_with_leading_vert, stream).is_ok()
}

/// `syn::parse2::<syn::LitStr>` on tree `t`, then `LitStr::value`; named by
/// [`lit_str_value`].
#[verifier::external_body]
pub(crate) fn parse_lit_str(t: &Tok) -> (r: Option<String>)
    ensures
        match r {
            Some(s) => lit_str_value(t@.3) == Some(s@),
            None => lit_str_value(t@.3) is None,
        },
{
    match syn::parse2::<syn::LitStr>(proc_macro2::TokenStream::from(t.tree.clone())) {
        Ok(lit) => Some(lit.value()),
        Err(_) => None,
    }
}

/// `syn::parse2::<syn::ItemUse>` on the stream of trees `toks[from..to]`;
/// named by [`is_item_use`].
#[verifier::external_body]
pub(crate) fn parses_as_item_use(toks: &Vec<Tok>, from: usize, to: usize) -> (r: bool)
    requires
        from <= to <= toks@.len(),
    ensures
        r == is_item_use(span_atoms(toks_view(toks@), from as int, to as int)),
{
    syn::parse2::<syn::ItemUse>(toks[from..to].iter().map(|t| t.tree.clone()).collect()).is_ok()
}

/// `syn::parse2::<syn::UseTree>` on the stream of trees `toks[from..to]`;
/// named by [`is_use_tree`].
#[verifier::external_body]
pub(crate) fn parses_as_use_tree(toks: &Vec<Tok>, from: usize, to: usize) -> (r: bool)
    requires
        from <= to <= toks@.len(),
    ensures
        r == is_use_tree(span_atoms(toks_view(toks@), from as int, to as int)),
{
    syn::parse2::<syn::UseTree>(toks[from..to].iter().map(|t| t.tree.clone()).collect()).is_ok()
}

/// `syn::parse2::<syn::ItemConst>` on the stream of trees `toks[from..to]`;
/// named by [`is_item_const`].
#[verifier::external_body]
pub(crate) fn parses_as_item_const(toks: &Vec<Tok>, from: usize, to: usize) -> (r: bool)
    requires
        from <= to <= toks@.len(),
    ensures
        r == is_item_const(span_atoms(toks_view(toks@), from as int, to as int)),
{
    syn::parse2::<syn::ItemConst>(toks[from..to].iter().map(|t| t.tree.clone()).collect()).is_ok()
}

/// The separator written after token `t` when tokens are joined: nothing
/// after joint punctuation, a space otherwise.
pub open spec fn sep_after(t: TokV) -> Seq<char> {
    if t.0 == TokKind::Punct && t.2 {
        seq![]
    } else {
        seq![' ']
    }
}

/// The source text of tokens `ts`, each followed by its separator but the last.
pub open spec fn join_toks(ts: Seq<TokV>) -> Seq<char>
    decreases ts.len(),
{
    if ts.len() == 0 {
        seq![]
    } else if ts.len() == 1 {
        ts[0].1
    } else {
        ts[0].1 + sep_after(ts[0]) + join_toks(ts.drop_first())
    }
}

/// The source text of tokens `toks[from..to]`.
pub fn join(toks: &Vec<Tok>, from: usize, to: usize) -> (r: String)
    requires
        from <= to <= toks@.len(),
    ensures
        r@ == join_toks(toks_view(toks@).subrange(from as int, to as int)),
    decreases to - from,
{
    if from == to {
        assert(toks_view(toks@).subrange(from as int, to as int) =~= seq![]);
        String::new()
    } else if from + 1 == to {
        assert(toks_view(toks@).subrange(from as int, to as int) =~= seq![toks@[from as int]@]);
        owned(toks[from].text.as_str())
    } else {
        let rest = join(toks, from + 1, to);
        let mut r = owned(toks[from].text.as_str());
        if !(toks[from].kind == TokKind::Punct && toks[from].joint) {
            push_char(&mut r, ' ');
        }
        let ghost ts = toks_view(toks@).subrange(from as int, to as int);
        assert(ts.drop_first() =~= toks_view(toks@).subrange(from + 1, to as int));
        assert(ts[0] == toks@[from as int]@);
        let r2 = concat(r.as_str(), rest.as_str());
        assert(r2@ =~= join_toks(ts));
        r2
    }
}

/// The one-character string `c`.
fn char_string(c: char) -> (r: String)
    ensures
        r@ == seq![c],
{
    let mut r = String::new();
    push_char(&mut r, c);
    assert(r@ =~= seq![c]);
    r
}

/// The source text of token `a`.
fn atom_text_exec(a: &Atom) -> (r: String)
    ensures
        r@ == atom_text(a@),
{
    match a {
        Atom::Ident(t) => copy_string(t),
        Atom::Literal(t) => copy_string(t),
        Atom::Punct(c, _) => char_string(*c),
        Atom::Open(d) => match d {
            GroupDelim::Paren => char_string('('),
            GroupDelim::Bracket => char_string('['),
            GroupDelim::Brace => char_string('{'),
            GroupDelim::Invisible => String::new(),
        },
        Atom::Close(d) => match d {
            GroupDelim::Paren => char_string(')'),
            GroupDelim::Bracket => char_string(']'),
            GroupDelim::Brace => char_string('}'),
            GroupDelim::Invisible => String::new(),
        },
    }
}

fn spaced_exec(a: &Atom, b: &Atom) -> (r: bool)
    ensures
        r == spaced(a@, b@),
{
    let joint = match a {
        Atom::Punct(_, j) => *j,
        _ => false,
    };
    let open = match a {
        Atom::Open(_) => true,
        _ => false,
    };
    let close = match b {
        Atom::Close(_) => true,
        _ => false,
    };
    !joint && !open && !close
}

/// The source text of tokens `atoms[i..e]`.
fn atoms_text_exec(atoms: &Vec<Atom>, i: usize, e: usize) -> (r: String)
    requires
        i < e <= atoms@.len(),
    ensures
        r@ == atoms_text(atoms_view(atoms@), i as int, e as int),
{
    let ghost a = atoms_view(atoms@);
    assert(a[i as int] == atoms@[i as int]@);
    let mut s = atom_text_exec(&atoms[i]);
    let mut j: usize = i + 1;
    while j < e
        invariant
            a == atoms_view(atoms@),
            i < j <= e <= atoms@.len(),
            s@ == atoms_text(a, i as int, j as int),
        decreases e - j,
    {
        assert(a[j - 1] == atoms@[j - 1]@);
        assert(a[j as int] == atoms@[j as int]@);
        let ghost s0 = s@;
        if spaced_exec(&atoms[j - 1], &atoms[j]) {
            push_char(&mut s, ' ');
        }
        let t = atom_text_exec(&atoms[j]);
        s = concat(s.as_str(), t.as_str());
        assert(s@ =~= atoms_text(a, i as int, j + 1));
        j = j + 1;
    }
    s
}

fn push_tok(out: &mut Vec<Tok>, t: Tok)
    ensures
        toks_view(final(out)@) == toks_view(old(out)@).push(t@),
{
    out.push(t);
    assert(toks_view(out@) =~= toks_view(old(out)@).push(t@));
}

/// The kind, text and spacing of the top-level tree with tokens `atoms`.
fn tok_parts(atoms: &Vec<Atom>) -> (r: (TokKind, String, bool))
    ensures
        (r.0, r.1@, r.2) == tok_of(atoms_view(atoms@)),
{
    let n = atoms.len();
    let ghost a = atoms_view(atoms@);
    if n == 0 {
        return (TokKind::Group, String::new(), false);
    }
    assert(a[0] == atoms@[0]@);
    if n == 1 {
        match &atoms[0] {
            Atom::Ident(t) => {
                return (TokKind::Ident, copy_string(t), false);
            },
            Atom::Literal(t) => {
                return (TokKind::Literal, copy_string(t), false);
            },
            Atom::Punct(c, j) => {
                return (TokKind::Punct, char_string(*c), *j);
            },
            _ => {},
        }
    }
    (TokKind::Group, atoms_text_exec(atoms, 0, n), false)
}

/// Lexes `src` with `proc_macro2` into top-level token trees. Which lexer
/// runs depends on the process: what is stated is that each token's kind,
/// text and spacing are those its own tokens give.
pub(crate) fn lex(src: &str) -> (r: Option<Vec<Tok>>)
    ensures
        r matches Some(v) ==> toks_ok(toks_view(v@)),
{
    let mut trees = lex_trees(src)?;
    let mut out: Vec<Tok> = Vec::new();
    while trees.len() > 0
        invariant
            toks_ok(toks_view(out@)),
        decreases trees@.len(),
    {
        let tree = trees.remove(0);
        let mut atoms: Vec<Atom> = Vec::new();
        flatten_tree(&tree, &mut atoms);
        assert(atoms_view(atoms@) =~= tree_atoms(tree));
        let (kind, text, joint) = tok_parts(&atoms);
        let ghost before = toks_view(out@);
        push_tok(&mut out, Tok { kind, text, joint, tree });
        assert forall|k: int| 0 <= k < toks_view(out@).len() implies tok_ok(#[trigger] toks_view(out@)[k]) by {
            if k < before.len() {
                assert(toks_view(out@)[k] == before[k]);
            }
        }
    }
    Some(out)
}

} // verus!
