//! Path resolution over `/`-separated paths.
//!
//! User given template paths:
//!
//! - `layout`, resolve from the `templates` directory
//! - `/layout`, resolve from the current directory
//! - `./layout`, relative paths are refused
use vstd::prelude::*;
use crate::parser::ParseError;
use crate::text::{chars_of, owned, push_char};

verus! {

/// The components kept so far, after the part `a..b` of `s` ends:
/// empty parts and `.` are skipped, `..` drops the last kept component.
pub open spec fn finish_part(s: Seq<char>, stack: Seq<(int, int)>, a: int, b: int) -> Seq<(int, int)> {
    if b - a == 0 || (b - a == 1 && s[a] == '.') {
        stack
    } else if b - a == 2 && s[a] == '.' && s[a + 1] == '.' {
        if stack.len() > 0 {
            stack.drop_last()
        } else {
            stack
        }
    } else {
        stack.push((a, b))
    }
}

/// The kept components of `s`, as positions, scanning from `i` with the
/// current part starting at `start`.
pub open spec fn norm_parts(s: Seq<char>, i: int, start: int, stack: Seq<(int, int)>) -> Seq<(int, int)>
    decreases s.len() - i,
{
    if i < 0 || i >= s.len() {
        finish_part(s, stack, start, s.len() as int)
    } else if s[i] == '/' {
        norm_parts(s, i + 1, i + 1, finish_part(s, stack, start, i))
    } else {
        norm_parts(s, i + 1, start, stack)
    }
}

/// The components `parts` of `s` joined with `/`.
pub open spec fn join_parts(s: Seq<char>, parts: Seq<(int, int)>) -> Seq<char>
    decreases parts.len(),
{
    if parts.len() == 0 {
        seq![]
    } else if parts.len() == 1 {
        s.subrange(parts[0].0, parts[0].1)
    } else {
        join_parts(s, parts.drop_last()) + seq!['/'] + s.subrange(parts.last().0, parts.last().1)
    }
}

/// Whether `s` is an absolute path.
pub open spec fn is_absolute(s: Seq<char>) -> bool {
    s.len() > 0 && s[0] == '/'
}

/// The normal form of path `s`: `.` and empty components removed, `..`
/// removing the component before it, a leading `/` kept.
pub open spec fn spec_normalize(s: Seq<char>) -> Seq<char> {
    (if is_absolute(s) {
        seq!['/']
    } else {
        seq![]
    }) + join_parts(s, norm_parts(s, 0, 0, seq![]))
}

/// `path` pushed onto `cwd`: `path` itself when absolute.
pub open spec fn spec_join(path: Seq<char>, cwd: Seq<char>) -> Seq<char> {
    if is_absolute(path) || cwd.len() == 0 {
        path
    } else {
        cwd + seq!['/'] + path
    }
}

/// Every component position lies within `0..len`.
pub open spec fn parts_wf(parts: Seq<(int, int)>, len: int) -> bool {
    forall|k: int| 0 <= k < parts.len() ==> 0 <= (#[trigger] parts[k]).0 <= parts[k].1 <= len
}

pub proof fn lemma_norm_parts_wf(s: Seq<char>, i: int, start: int, stack: Seq<(int, int)>)
    requires
        0 <= start <= i <= s.len(),
        parts_wf(stack, s.len() as int),
    ensures
        parts_wf(norm_parts(s, i, start, stack), s.len() as int),
    decreases s.len() - i,
{
    if i < s.len() {
        if s[i] == '/' {
            lemma_norm_parts_wf(s, i + 1, i + 1, finish_part(s, stack, start, i));
        } else {
            lemma_norm_parts_wf(s, i + 1, start, stack);
        }
    }
}

fn finish_part_exec(s: &Vec<char>, stack: &mut Vec<(usize, usize)>, a: usize, b: usize)
    requires
        a <= b <= s@.len(),
    ensures
        final(stack)@.map_values(|p: (usize, usize)| (p.0 as int, p.1 as int)) == finish_part(
            s@,
            old(stack)@.map_values(|p: (usize, usize)| (p.0 as int, p.1 as int)),
            a as int,
            b as int,
        ),
{
    let ghost before = old(stack)@.map_values(|p: (usize, usize)| (p.0 as int, p.1 as int));
    if b - a == 0 || (b - a == 1 && s[a] == '.') {
    } else if b - a == 2 && s[a] == '.' && s[a + 1] == '.' {
        if stack.len() > 0 {
            stack.pop();
            assert(stack@.map_values(|p: (usize, usize)| (p.0 as int, p.1 as int)) =~= before.drop_last());
        }
    } else {
        stack.push((a, b));
        assert(stack@.map_values(|p: (usize, usize)| (p.0 as int, p.1 as int)) =~= before.push((a as int, b as int)));
    }
}

/// Normalizes `path`: removes `.` and empty components and resolves `..`
/// components against the component before them.
pub fn normalize(path: &str) -> (r: String)
    requires
        path@.len() < usize::MAX,
    ensures
        r@ == spec_normalize(path@),
{
    let s = chars_of(path);
    let len = s.len();
    let mut stack: Vec<(usize, usize)> = Vec::new();
    let mut start: usize = 0;
    let mut i: usize = 0;
    assert(stack@.map_values(|p: (usize, usize)| (p.0 as int, p.1 as int)) =~= seq![]);
    while i < len
        invariant
            len == s@.len() < usize::MAX,
            0 <= start <= i <= len,
            parts_wf(stack@.map_values(|p: (usize, usize)| (p.0 as int, p.1 as int)), len as int),
            norm_parts(s@, i as int, start as int, stack@.map_values(|p: (usize, usize)| (p.0 as int, p.1 as int)))
                == norm_parts(s@, 0, 0, seq![]),
        decreases len - i,
    {
        if s[i] == '/' {
            finish_part_exec(&s, &mut stack, start, i);
            start = i + 1;
        }
        i = i + 1;
    }
    finish_part_exec(&s, &mut stack, start, len);
    let ghost parts = norm_parts(s@, 0, 0, seq![]);
    assert(stack@.map_values(|p: (usize, usize)| (p.0 as int, p.1 as int)) == parts);
    let mut r = String::new();
    if len > 0 && s[0] == '/' {
        push_char(&mut r, '/');
    }
    let ghost prefix = r@;
    let mut k: usize = 0;
    while k < stack.len()
        invariant
            0 <= k <= stack@.len(),
            stack@.map_values(|p: (usize, usize)| (p.0 as int, p.1 as int)) == parts,
            parts_wf(parts, s@.len() as int),
            r@ == prefix + join_parts(s@, parts.take(k as int)),
        decreases stack@.len() - k,
    {
        let (a, b) = stack[k];
        if k > 0 {
            push_char(&mut r, '/');
        }
        let ghost before = r@;
        let mut j = a;
        assert(parts[k as int] == (a as int, b as int));
        while j < b
            invariant
                a <= j <= b <= s@.len(),
                r@ == before + s@.subrange(a as int, j as int),
            decreases b - j,
        {
            push_char(&mut r, s[j]);
            j = j + 1;
            assert(r@ =~= before + s@.subrange(a as int, j as int));
        }
        assert(parts.take(k + 1).drop_last() =~= parts.take(k as int));
        assert(parts.take(k + 1).last() == parts[k as int]);
        k = k + 1;
        assert(r@ =~= prefix + join_parts(s@, parts.take(k as int)));
    }
    assert(parts.take(stack@.len() as int) =~= parts);
    r
}

/// Same as [`normalize`].
pub fn normalize_path(path: &str) -> (r: String)
    requires
        path@.len() < usize::MAX,
    ensures
        r@ == spec_normalize(path@),
{
    normalize(path)
}

/// Resolve `path` relative to directory `cwd`.
pub fn resolve_at(path: &str, cwd: &str) -> (r: String)
    requires
        path@.len() + cwd@.len() + 1 < usize::MAX,
    ensures
        r@ == spec_normalize(spec_join(path@, cwd@)),
{
    let joined = resolve_at_raw(path, cwd);
    normalize(joined.as_str())
}

/// Template path configuration.
pub struct Config {
    templ_dir: String,
}

impl Config {
    /// The default configuration: templates live in `templates`.
    pub fn new() -> (r: Config)
        ensures
            r.spec_templ_dir() == "templates"@,
    {
        Config { templ_dir: String::from_str("templates") }
    }

    pub closed spec fn spec_templ_dir(&self) -> Seq<char> {
        self.templ_dir@
    }

    /// The templates directory.
    pub fn templ_dir(&self) -> (r: &str)
        ensures
            r@ == self.spec_templ_dir(),
    {
        self.templ_dir.as_str()
    }
}

/// `s` without its leading `/` characters.
pub open spec fn trim_slashes(s: Seq<char>) -> Seq<char>
    decreases s.len(),
{
    if s.len() > 0 && s[0] == '/' {
        trim_slashes(s.drop_first())
    } else {
        s
    }
}

/// Where `path` given by a user resolves to, from current directory `cwd`.
pub open spec fn spec_resolve(path: Seq<char>, templ_dir: Seq<char>, cwd: Seq<char>) -> Option<Seq<char>> {
    if path.len() > 0 && path[0] == '.' {
        None
    } else if path.len() > 0 && path[0] == '/' {
        Some(spec_normalize(spec_join(trim_slashes(path), cwd)))
    } else {
        Some(spec_normalize(spec_join(path, spec_join(templ_dir, cwd))))
    }
}

/// The message when a template path is relative.
pub open spec fn relative_path_message() -> Seq<char> {
    "cannot get template file using relative path"@
}

/// Resolve a user given template path, from current directory `cwd`.
///
/// `./path` is refused, `/path` resolves from `cwd`, and `path` resolves
/// from the templates directory in `cwd`.
pub fn resolve(path: &str, conf: &Config, cwd: &str) -> (r: Result<String, ParseError>)
    requires
        path@.len() + cwd@.len() + conf.spec_templ_dir().len() + 2 < usize::MAX,
    ensures
        match r {
            Ok(p) => spec_resolve(path@, conf.spec_templ_dir(), cwd@) == Some(p@),
            Err(e) => spec_resolve(path@, conf.spec_templ_dir(), cwd@) is None
                && e.spec_message() == relative_path_message(),
        },
{
    let chars = chars_of(path);
    if chars.len() > 0 && chars[0] == '.' {
        return Err(ParseError::Generic(String::from_str("cannot get template file using relative path")));
    }
    if chars.len() > 0 && chars[0] == '/' {
        let mut i: usize = 0;
        assert(chars@.skip(0) =~= chars@);
        while i < chars.len() && chars[i] == '/'
            invariant
                i <= chars@.len(),
                trim_slashes(chars@.skip(i as int)) == trim_slashes(chars@),
            decreases chars@.len() - i,
        {
            assert(chars@.skip(i as int).drop_first() =~= chars@.skip(i + 1));
            i = i + 1;
        }
        assert(trim_slashes(chars@.skip(i as int)) == chars@.skip(i as int));
        let rest = path.substring_char(i, chars.len());
        assert(rest@ =~= chars@.skip(i as int));
        Ok(resolve_at(rest, cwd))
    } else {
        let dir = resolve_at_raw(conf.templ_dir(), cwd);
        Ok(resolve_at(path, dir.as_str()))
    }
}

/// `path` pushed onto `cwd`, not normalized.
fn resolve_at_raw(path: &str, cwd: &str) -> (r: String)
    requires
        path@.len() + cwd@.len() + 1 < usize::MAX,
    ensures
        r@ == spec_join(path@, cwd@),
{
    let is_abs = !path.is_empty() && path.get_char(0) == '/';
    if is_abs || cwd.is_empty() {
        owned(path)
    } else {
        let mut joined = owned(cwd);
        push_char(&mut joined, '/');
        joined.append(path);
        joined
    }
}

/// The texts of the components at positions `parts` of `s`.
pub open spec fn part_texts(s: Seq<char>, parts: Seq<(int, int)>) -> Seq<Seq<char>> {
    Seq::new(parts.len(), |k: int| s.subrange(parts[k].0, parts[k].1))
}

/// Components `cs` joined with `/`.
pub open spec fn join_texts(cs: Seq<Seq<char>>) -> Seq<char>
    decreases cs.len(),
{
    if cs.len() == 0 {
        seq![]
    } else if cs.len() == 1 {
        cs[0]
    } else {
        join_texts(cs.drop_last()) + seq!['/'] + cs.last()
    }
}

/// A component that normalizing keeps: not empty, not `.` or `..`, and
/// without `/`.
pub open spec fn good_part(c: Seq<char>) -> bool {
    &&& c.len() > 0
    &&& c != seq!['.']
    &&& c != seq!['.', '.']
    &&& forall|k: int| 0 <= k < c.len() ==> c[k] != '/'
}

pub proof fn lemma_join_parts_texts(s: Seq<char>, parts: Seq<(int, int)>)
    ensures
        join_parts(s, parts) == join_texts(part_texts(s, parts)),
    decreases parts.len(),
{
    if parts.len() > 1 {
        lemma_join_parts_texts(s, parts.drop_last());
        assert(part_texts(s, parts.drop_last()) =~= part_texts(s, parts).drop_last());
    }
}

/// The components normalizing keeps are good ones.
pub proof fn lemma_norm_parts_good(s: Seq<char>, i: int, start: int, stack: Seq<(int, int)>)
    requires
        0 <= start <= i <= s.len(),
        parts_wf(stack, s.len() as int),
        forall|k: int| 0 <= k < stack.len() ==> good_part(#[trigger] part_texts(s, stack)[k]),
        forall|k: int| start <= k < i ==> s[k] != '/',
    ensures
        forall|k: int| 0 <= k < norm_parts(s, i, start, stack).len()
            ==> good_part(#[trigger] part_texts(s, norm_parts(s, i, start, stack))[k]),
    decreases s.len() - i,
{
    let b = if i < s.len() { i } else { s.len() as int };
    let next = finish_part(s, stack, start, b);
    assert forall|k: int| 0 <= k < next.len() implies good_part(#[trigger] part_texts(s, next)[k]) by {
        if k < stack.len() {
            assert(part_texts(s, next)[k] == part_texts(s, stack)[k]);
        } else {
            let c = s.subrange(start, b);
            assert(part_texts(s, next)[k] == c);
            if c == seq!['.'] {
                assert(c[0] == '.');
            }
            if c == seq!['.', '.'] {
                assert(c[0] == '.' && c[1] == '.');
            }
        }
    }
    if i < s.len() {
        if s[i] == '/' {
            assert(parts_wf(next, s.len() as int));
            assert(norm_parts(s, i, start, stack) == norm_parts(s, i + 1, i + 1, next));
            lemma_norm_parts_good(s, i + 1, i + 1, next);
        } else {
            assert(norm_parts(s, i, start, stack) == norm_parts(s, i + 1, start, stack));
            lemma_norm_parts_good(s, i + 1, start, stack);
        }
    } else {
        assert(norm_parts(s, i, start, stack) == next);
    }
}

/// Scanning characters other than `/` changes nothing yet.
pub proof fn lemma_norm_skip(t: Seq<char>, i: int, e: int, start: int, stack: Seq<(int, int)>)
    requires
        0 <= i <= e <= t.len(),
        forall|k: int| i <= k < e ==> t[k] != '/',
    ensures
        norm_parts(t, i, start, stack) == norm_parts(t, e, start, stack),
    decreases e - i,
{
    if i < e {
        lemma_norm_skip(t, i + 1, e, start, stack);
    }
}

/// Joined good components split back into themselves.
pub proof fn lemma_join_front(k0: Seq<char>, rest: Seq<Seq<char>>)
    requires
        rest.len() > 0,
    ensures
        join_texts(seq![k0] + rest) == k0 + seq!['/'] + join_texts(rest),
    decreases rest.len(),
{
    let cs = seq![k0] + rest;
    if rest.len() == 1 {
        assert(cs.drop_last() =~= seq![k0]);
        assert(cs.last() == rest[0]);
        assert(join_texts(seq![k0]) == k0);
        assert(join_texts(rest) == rest[0]);
        assert(join_texts(cs) == join_texts(cs.drop_last()) + seq!['/'] + cs.last());
    } else {
        lemma_join_front(k0, rest.drop_last());
        assert(cs.drop_last() =~= seq![k0] + rest.drop_last());
        assert(cs.last() == rest.last());
        assert(k0 + seq!['/'] + join_texts(rest.drop_last()) + seq!['/'] + rest.last()
            =~= k0 + seq!['/'] + (join_texts(rest.drop_last()) + seq!['/'] + rest.last()));
    }
}

/// Normalizing good components joined at position `i` of `t` keeps them
/// all, after what is kept already.
pub proof fn lemma_norm_joined(t: Seq<char>, i: int, cs: Seq<Seq<char>>, stack: Seq<(int, int)>)
    requires
        0 <= i <= t.len(),
        cs.len() > 0,
        forall|k: int| 0 <= k < cs.len() ==> good_part(#[trigger] cs[k]),
        t.subrange(i, t.len() as int) == join_texts(cs),
    ensures
        part_texts(t, norm_parts(t, i, i, stack)) == part_texts(t, stack) + cs,
    decreases cs.len(),
{
    let k0 = cs[0];
    let e = i + k0.len();
    if cs.len() == 1 {
        assert(cs =~= seq![k0]);
        assert(join_texts(cs) == k0);
        assert(e == t.len());
        assert forall|k: int| i <= k < e implies t[k] != '/' by {
            assert(t[k] == t.subrange(i, t.len() as int)[k - i]);
        }
        lemma_norm_skip(t, i, e, i, stack);
        let c = t.subrange(i, e);
        assert(c =~= k0);
        assert(!(e - i == 1 && t[i] == '.')) by {
            if e - i == 1 && t[i] == '.' {
                assert(k0 =~= seq!['.']);
            }
        }
        assert(!(e - i == 2 && t[i] == '.' && t[i + 1] == '.')) by {
            if e - i == 2 && t[i] == '.' && t[i + 1] == '.' {
                assert(k0 =~= seq!['.', '.']);
            }
        }
        assert(part_texts(t, stack.push((i, e))) =~= part_texts(t, stack) + cs);
    } else {
        let rest = cs.drop_first();
        assert(cs =~= seq![k0] + rest);
        lemma_join_front(k0, rest);
        let joined = k0 + seq!['/'] + join_texts(rest);
        assert(t.subrange(i, t.len() as int) == joined);
        assert forall|k: int| i <= k < e implies t[k] != '/' by {
            assert(t[k] == t.subrange(i, t.len() as int)[k - i]);
            assert(joined[k - i] == k0[k - i]);
        }
        assert(t[e] == '/') by {
            assert(t[e] == t.subrange(i, t.len() as int)[e - i]);
            assert(joined[e - i] == '/');
        }
        lemma_norm_skip(t, i, e, i, stack);
        let c = t.subrange(i, e);
        assert(c =~= k0) by {
            assert forall|k: int| 0 <= k < k0.len() implies c[k] == k0[k] by {
                assert(c[k] == t.subrange(i, t.len() as int)[k]);
                assert(joined[k] == k0[k]);
            }
        }
        assert(!(e - i == 1 && t[i] == '.')) by {
            if e - i == 1 && t[i] == '.' {
                assert(k0 =~= seq!['.']);
            }
        }
        assert(!(e - i == 2 && t[i] == '.' && t[i + 1] == '.')) by {
            if e - i == 2 && t[i] == '.' && t[i + 1] == '.' {
                assert(k0 =~= seq!['.', '.']);
            }
        }
        let stack2 = stack.push((i, e));
        assert(finish_part(t, stack, i, e) == stack2);
        assert(t.subrange(e + 1, t.len() as int) =~= join_texts(rest)) by {
            assert forall|k: int| 0 <= k < t.len() - (e + 1) implies t.subrange(e + 1, t.len() as int)[k] == join_texts(rest)[k] by {
                assert(t.subrange(e + 1, t.len() as int)[k] == t.subrange(i, t.len() as int)[k + e + 1 - i]);
                assert(joined[k + e + 1 - i] == join_texts(rest)[k]);
            }
        }
        assert forall|k: int| 0 <= k < rest.len() implies good_part(#[trigger] rest[k]) by {
            assert(rest[k] == cs[k + 1]);
        }
        lemma_norm_joined(t, e + 1, rest, stack2);
        assert(part_texts(t, stack2) =~= part_texts(t, stack).push(k0));
        assert(part_texts(t, stack) + cs =~= part_texts(t, stack).push(k0) + rest);
    }
}

/// The components normalizing `s` keeps, in order.
pub open spec fn norm_components(s: Seq<char>) -> Seq<Seq<char>> {
    part_texts(s, norm_parts(s, 0, 0, seq![]))
}

/// A normalized path has no empty, `.` or `..` component: it is a leading
/// `/` when the path is absolute, followed by the kept components joined
/// with `/`, none of them empty, `.` or `..`.
pub proof fn law_normalize_components(s: Seq<char>)
    ensures
        spec_normalize(s) == (if is_absolute(s) { seq!['/'] } else { Seq::<char>::empty() }) + join_texts(norm_components(s)),
        forall|k: int| 0 <= k < norm_components(s).len() ==> good_part(#[trigger] norm_components(s)[k]),
{
    let parts = norm_parts(s, 0, 0, seq![]);
    lemma_norm_parts_wf(s, 0, 0, seq![]);
    lemma_norm_parts_good(s, 0, 0, seq![]);
    lemma_join_parts_texts(s, parts);
}

/// A normalized path is its own normal form: normalizing twice is
/// normalizing once.
pub proof fn law_normalize_idempotent(s: Seq<char>)
    ensures
        spec_normalize(spec_normalize(s)) == spec_normalize(s),
{
    let parts = norm_parts(s, 0, 0, seq![]);
    let cs = part_texts(s, parts);
    lemma_norm_parts_wf(s, 0, 0, seq![]);
    lemma_norm_parts_good(s, 0, 0, seq![]);
    lemma_join_parts_texts(s, parts);
    let prefix: Seq<char> = if is_absolute(s) { seq!['/'] } else { seq![] };
    let t = spec_normalize(s);
    assert(t == prefix + join_texts(cs));
    let i = prefix.len() as int;
    assert(t.subrange(i, t.len() as int) =~= join_texts(cs));
    let tparts = norm_parts(t, 0, 0, seq![]);
    if cs.len() == 0 {
        assert(join_texts(cs) =~= Seq::<char>::empty());
        if is_absolute(s) {
            assert(t =~= seq!['/']);
            assert(finish_part(t, seq![], 0, 0) == Seq::<(int, int)>::empty());
            assert(norm_parts(t, 1, 1, seq![]) == Seq::<(int, int)>::empty());
            assert(tparts == norm_parts(t, 1, 1, finish_part(t, seq![], 0, 0)));
            assert(tparts == Seq::<(int, int)>::empty());
        } else {
            assert(t =~= Seq::<char>::empty());
        }
        assert(spec_normalize(t) =~= t);
    } else {
        if is_absolute(s) {
            assert(t[0] == '/');
            assert(finish_part(t, seq![], 0, 0) == Seq::<(int, int)>::empty());
            assert(tparts == norm_parts(t, 1, 1, seq![]));
            lemma_norm_joined(t, 1, cs, seq![]);
        } else {
            lemma_norm_joined(t, 0, cs, seq![]);
        }
        assert(part_texts(t, tparts) =~= cs) by {
            assert(part_texts(t, Seq::<(int, int)>::empty()) + cs =~= cs);
        }
        lemma_join_parts_texts(t, tparts);
        if !is_absolute(s) {
            assert(cs[0].len() > 0 && cs[0][0] != '/');
            assert(t[0] == join_texts(cs)[0]);
            lemma_join_first(cs);
        }
        assert(is_absolute(t) == is_absolute(s));
        assert(spec_normalize(t) =~= t);
    }
}

/// Joined components begin with the first one.
pub proof fn lemma_join_first(cs: Seq<Seq<char>>)
    requires
        cs.len() > 0,
        cs[0].len() > 0,
    ensures
        join_texts(cs).len() > 0,
        join_texts(cs)[0] == cs[0][0],
    decreases cs.len(),
{
    if cs.len() > 1 {
        lemma_join_first(cs.drop_last());
    }
}

} // verus!
