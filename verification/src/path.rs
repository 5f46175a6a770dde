//! Path handling: splitting on `/` and resolving `.` and `..` against a
//! working directory.

use vstd::prelude::*;
use vstd::string::StrSliceExecFns;

verus! {

/// `str::split('/')` from position `i`, the current piece starting at `start`.
pub open spec fn split_from(s: Seq<char>, start: int, i: int) -> Seq<Seq<char>>
    decreases s.len() - i,
{
    if i < 0 || i >= s.len() {
        seq![s.subrange(start, s.len() as int)]
    } else if s[i] == '/' {
        seq![s.subrange(start, i)] + split_from(s, i + 1, i + 1)
    } else {
        split_from(s, start, i + 1)
    }
}

/// The pieces of `s` between slashes, empty pieces included.
pub open spec fn split_slash(s: Seq<char>) -> Seq<Seq<char>> {
    split_from(s, 0, 0)
}

/// Keeps the pieces that are not empty.
pub open spec fn is_nonempty() -> spec_fn(Seq<char>) -> bool {
    |c: Seq<char>| c.len() > 0
}

/// The components of `s` that are not empty.
pub open spec fn nonempty_components(s: Seq<char>) -> Seq<Seq<char>> {
    split_slash(s).filter(is_nonempty())
}

pub open spec fn is_dot(c: Seq<char>) -> bool {
    c == seq!['.']
}

pub open spec fn is_dot_dot(c: Seq<char>) -> bool {
    c == seq!['.', '.']
}

/// One step of path resolution: empty and `.` components change nothing, `..`
/// drops the last component (an error at the root when `strict`), a name is appended.
pub open spec fn resolve_step(stack: Seq<Seq<char>>, c: Seq<char>, strict: bool) -> Option<Seq<Seq<char>>> {
    if c.len() == 0 || is_dot(c) {
        Some(stack)
    } else if is_dot_dot(c) {
        if stack.len() == 0 {
            if strict { None } else { Some(stack) }
        } else {
            Some(stack.drop_last())
        }
    } else {
        Some(stack.push(c))
    }
}

/// Resolves the components `comps`, in order, starting from `init`.
pub open spec fn resolve(init: Seq<Seq<char>>, comps: Seq<Seq<char>>, strict: bool) -> Option<Seq<Seq<char>>>
    decreases comps.len(),
{
    if comps.len() == 0 {
        Some(init)
    } else {
        match resolve(init, comps.drop_last(), strict) {
            None => None,
            Some(stack) => resolve_step(stack, comps.last(), strict),
        }
    }
}

/// `/` followed by the components separated by `/`.
pub open spec fn join_absolute(comps: Seq<Seq<char>>) -> Seq<char>
    decreases comps.len(),
{
    if comps.len() == 0 {
        seq!['/']
    } else if comps.len() == 1 {
        seq!['/'] + comps[0]
    } else {
        join_absolute(comps.drop_last()) + seq!['/'] + comps.last()
    }
}

/// The absolute form of `path` seen from the working directory `cwd`: a
/// relative path is resolved after the components of `cwd`; `..` in `cwd`
/// above the root is an error, in `path` it stays at the root.
pub open spec fn canonical_path(path: Seq<char>, cwd: Seq<char>) -> Option<Seq<char>> {
    let base = if path.len() > 0 && path[0] == '/' {
        Some(Seq::<Seq<char>>::empty())
    } else {
        resolve(Seq::empty(), split_slash(cwd), true)
    };
    match base {
        None => None,
        Some(stack) => match resolve(stack, split_slash(path), false) {
            Some(comps) => Some(join_absolute(comps)),
            None => None,
        },
    }
}

/// The text of each slice.
pub open spec fn views(v: Seq<&str>) -> Seq<Seq<char>> {
    v.map_values(|c: &str| c@)
}

proof fn lemma_split_from_slash_free(s: Seq<char>, start: int, i: int)
    requires
        0 <= start <= i <= s.len(),
        forall|j: int| start <= j < i ==> s[j] != '/',
    ensures
        forall|k: int| 0 <= k < split_from(s, start, i).len() ==> !(#[trigger] split_from(s, start, i)[k]).contains('/'),
    decreases s.len() - i,
{
    if i >= s.len() {
        let piece = s.subrange(start, s.len() as int);
        assert forall|j: int| 0 <= j < piece.len() implies piece[j] != '/' by {
            assert(piece[j] == s[start + j]);
        }
        assert(!piece.contains('/'));
        assert(split_from(s, start, i) == seq![piece]);
    } else if s[i] == '/' {
        let piece = s.subrange(start, i);
        assert forall|j: int| 0 <= j < piece.len() implies piece[j] != '/' by {
            assert(piece[j] == s[start + j]);
        }
        assert(!piece.contains('/'));
        lemma_split_from_slash_free(s, i + 1, i + 1);
        let rest = split_from(s, i + 1, i + 1);
        assert(split_from(s, start, i) == seq![piece] + rest);
        assert forall|k: int| 0 <= k < split_from(s, start, i).len() implies !(#[trigger] split_from(s, start, i)[k]).contains('/') by {
            if k > 0 {
                assert(split_from(s, start, i)[k] == rest[k - 1]);
            }
        }
    } else {
        lemma_split_from_slash_free(s, start, i + 1);
        assert(split_from(s, start, i) == split_from(s, start, i + 1));
    }
}

/// Every component of a path is a non-empty name without `/`.
pub proof fn lemma_components_are_names(s: Seq<char>)
    ensures
        forall|k: int|
            0 <= k < nonempty_components(s).len() ==> (#[trigger] nonempty_components(s)[k]).len() > 0
                && !nonempty_components(s)[k].contains('/'),
{
    let ps = split_slash(s);
    lemma_split_from_slash_free(s, 0, 0);
    assert forall|k: int| 0 <= k < nonempty_components(s).len() implies (#[trigger] nonempty_components(s)[k]).len()
        > 0 && !nonempty_components(s)[k].contains('/') by {
        let e = nonempty_components(s)[k];
        ps.lemma_filter_pred(is_nonempty(), k);
        assert(ps.filter(is_nonempty()).contains(e));
        ps.lemma_filter_contains_rev(is_nonempty(), e);
        let m = choose|m: int| 0 <= m < ps.len() && ps[m] == e;
        assert(!ps[m].contains('/'));
    }
}

/// A component that a canonical path can hold: not empty, no `/`, and
/// neither `.` nor `..`.
pub open spec fn is_name(c: Seq<char>) -> bool {
    c.len() > 0 && !c.contains('/') && !is_dot(c) && !is_dot_dot(c)
}

pub open spec fn all_names(cs: Seq<Seq<char>>) -> bool {
    forall|k: int| 0 <= k < cs.len() ==> is_name(#[trigger] cs[k])
}

proof fn lemma_split_no_slash(x: Seq<char>, start: int, i: int)
    requires
        0 <= start <= i <= x.len(),
        forall|j: int| i <= j < x.len() ==> x[j] != '/',
    ensures
        split_from(x, start, i) == seq![x.subrange(start, x.len() as int)],
    decreases x.len() - i,
{
    if i < x.len() {
        lemma_split_no_slash(x, start, i + 1);
    }
}

/// Splitting `s`, a slash and a slash-free `b` splits `s` and adds `b`.
proof fn lemma_split_append(s: Seq<char>, b: Seq<char>, start: int, i: int)
    requires
        0 <= start <= i <= s.len(),
        !b.contains('/'),
    ensures
        split_from(s + seq!['/'] + b, start, i) == split_from(s, start, i) + seq![b],
    decreases s.len() - i,
{
    let full = s + seq!['/'] + b;
    if i == s.len() {
        assert(full[i] == '/');
        assert forall|j: int| i + 1 <= j < full.len() implies full[j] != '/' by {
            assert(full[j] == b[j - i - 1]);
            if full[j] == '/' {
                assert(b.contains('/'));
            }
        }
        lemma_split_no_slash(full, i + 1, i + 1);
        assert(full.subrange(i + 1, full.len() as int) =~= b);
        assert(full.subrange(start, i) =~= s.subrange(start, i));
        assert(split_from(s, start, i) == seq![s.subrange(start, s.len() as int)]);
        assert(split_from(full, start, i) =~= split_from(s, start, i) + seq![b]);
    } else {
        assert(full[i] == s[i]);
        lemma_split_append(s, b, start, i + 1);
        if s[i] == '/' {
            lemma_split_append(s, b, i + 1, i + 1);
            assert(full.subrange(start, i) =~= s.subrange(start, i));
            assert(split_from(full, start, i) =~= split_from(s, start, i) + seq![b]);
        }
    }
}

/// The pieces of a joined absolute path: an empty one before the first
/// slash, then the components; `/` alone splits into two empty pieces.
proof fn lemma_split_join(comps: Seq<Seq<char>>)
    requires
        all_names(comps),
    ensures
        comps.len() > 0 ==> split_slash(join_absolute(comps)) == seq![Seq::<char>::empty()] + comps,
        comps.len() == 0 ==> split_slash(join_absolute(comps)) == seq![Seq::<char>::empty(), Seq::<char>::empty()],
    decreases comps.len(),
{
    let e = Seq::<char>::empty();
    if comps.len() == 0 {
        let x = seq!['/'];
        assert(x.subrange(0, 0) =~= e);
        lemma_split_no_slash(x, 1, 1);
        assert(x.subrange(1, 1) =~= e);
    } else if comps.len() == 1 {
        assert(is_name(comps[0]));
        lemma_split_append(e, comps[0], 0, 0);
        assert(e + seq!['/'] + comps[0] =~= seq!['/'] + comps[0]);
        lemma_split_no_slash(e, 0, 0);
        assert(e.subrange(0, 0) =~= e);
        assert(seq![e] + seq![comps[0]] =~= seq![e] + comps);
    } else {
        let init = comps.drop_last();
        assert(all_names(init)) by {
            assert forall|k: int| 0 <= k < init.len() implies is_name(#[trigger] init[k]) by {
                assert(init[k] == comps[k]);
            }
        }
        lemma_split_join(init);
        assert(is_name(comps[comps.len() - 1]));
        lemma_split_append(join_absolute(init), comps.last(), 0, 0);
        assert(seq![e] + init + seq![comps.last()] =~= seq![e] + comps);
    }
}

/// Resolving the pieces of a joined path from the root gives back its components.
proof fn lemma_resolve_names(comps: Seq<Seq<char>>)
    requires
        all_names(comps),
    ensures
        resolve(Seq::empty(), seq![Seq::<char>::empty()] + comps, false) == Some(comps),
    decreases comps.len(),
{
    let e = Seq::<char>::empty();
    let xs = seq![e] + comps;
    if comps.len() == 0 {
        assert(xs.drop_last() =~= Seq::<Seq<char>>::empty());
        assert(xs.last() == e);
        assert(comps =~= Seq::<Seq<char>>::empty());
        assert(resolve(Seq::<Seq<char>>::empty(), Seq::<Seq<char>>::empty(), false) == Some(Seq::<Seq<char>>::empty()));
        assert(resolve_step(Seq::<Seq<char>>::empty(), e, false) == Some(Seq::<Seq<char>>::empty()));
    } else {
        let init = comps.drop_last();
        assert(all_names(init)) by {
            assert forall|k: int| 0 <= k < init.len() implies is_name(#[trigger] init[k]) by {
                assert(init[k] == comps[k]);
            }
        }
        lemma_resolve_names(init);
        assert(xs.drop_last() =~= seq![e] + init);
        assert(xs.last() == comps.last());
        assert(is_name(comps[comps.len() - 1]));
        assert(init.push(comps.last()) =~= comps);
    }
}

/// Resolution keeps a stack of names when it starts from one and reads
/// slash-free components.
proof fn lemma_resolve_keeps_names(init: Seq<Seq<char>>, comps: Seq<Seq<char>>, strict: bool)
    requires
        all_names(init),
        forall|k: int| 0 <= k < comps.len() ==> !(#[trigger] comps[k]).contains('/'),
    ensures
        resolve(init, comps, strict) matches Some(st) ==> all_names(st),
    decreases comps.len(),
{
    if comps.len() > 0 {
        let init_c = comps.drop_last();
        assert forall|k: int| 0 <= k < init_c.len() implies !(#[trigger] init_c[k]).contains('/') by {
            assert(init_c[k] == comps[k]);
        }
        lemma_resolve_keeps_names(init, init_c, strict);
        if let Some(st0) = resolve(init, init_c, strict) {
            let c = comps.last();
            assert(!comps[comps.len() - 1].contains('/'));
            if let Some(st) = resolve_step(st0, c, strict) {
                assert forall|k: int| 0 <= k < st.len() implies is_name(#[trigger] st[k]) by {
                    if k < st0.len() {
                        assert(st[k] == st0[k]);
                    }
                }
            }
        }
    }
}

proof fn lemma_split_pieces_slash_free(s: Seq<char>)
    ensures
        forall|k: int| 0 <= k < split_slash(s).len() ==> !(#[trigger] split_slash(s)[k]).contains('/'),
{
    lemma_split_from_slash_free(s, 0, 0);
}

/// An absolute path does not depend on the working directory.
pub proof fn lemma_absolute_ignores_cwd(path: Seq<char>, cwd: Seq<char>, other_cwd: Seq<char>)
    requires
        path.len() > 0,
        path[0] == '/',
    ensures
        canonical_path(path, cwd) == canonical_path(path, other_cwd),
{
}

/// A canonical path is its own canonical form, from any working directory.
pub proof fn lemma_canonical_is_stable(path: Seq<char>, cwd: Seq<char>, other_cwd: Seq<char>)
    requires
        canonical_path(path, cwd) is Some,
    ensures
        canonical_path(canonical_path(path, cwd)->Some_0, other_cwd) == canonical_path(path, cwd),
{
    let base = if path.len() > 0 && path[0] == '/' {
        Some(Seq::<Seq<char>>::empty())
    } else {
        resolve(Seq::empty(), split_slash(cwd), true)
    };
    let stack = base->Some_0;
    lemma_split_pieces_slash_free(cwd);
    lemma_split_pieces_slash_free(path);
    assert(all_names(Seq::<Seq<char>>::empty()));
    lemma_resolve_keeps_names(Seq::empty(), split_slash(cwd), true);
    assert(all_names(stack));
    let comps = resolve(stack, split_slash(path), false)->Some_0;
    lemma_resolve_keeps_names(stack, split_slash(path), false);
    assert(all_names(comps));
    let q = join_absolute(comps);
    assert(canonical_path(path, cwd) == Some(q));
    lemma_split_join(comps);
    lemma_join_starts_with_slash(comps);
    if comps.len() == 0 {
        let e = Seq::<char>::empty();
        let pieces = seq![e, e];
        assert(pieces.drop_last() =~= seq![e]);
        assert(seq![e].drop_last() =~= Seq::<Seq<char>>::empty());
        assert(resolve(Seq::<Seq<char>>::empty(), Seq::<Seq<char>>::empty(), false) == Some(Seq::<Seq<char>>::empty()));
        assert(resolve_step(Seq::<Seq<char>>::empty(), e, false) == Some(Seq::<Seq<char>>::empty()));
        assert(resolve(Seq::empty(), seq![e], false) == Some(Seq::<Seq<char>>::empty()));
        assert(resolve(Seq::empty(), pieces, false) == Some(Seq::<Seq<char>>::empty()));
    } else {
        lemma_resolve_names(comps);
    }
}

proof fn lemma_join_starts_with_slash(comps: Seq<Seq<char>>)
    ensures
        join_absolute(comps).len() > 0,
        join_absolute(comps)[0] == '/',
    decreases comps.len(),
{
    if comps.len() > 1 {
        lemma_join_starts_with_slash(comps.drop_last());
    }
}

/// The pieces of `s` between slashes, as slices of `s`.
pub fn split_slash_exec<'a>(s: &'a str) -> (r: Vec<&'a str>)
    ensures
        views(r@) == split_slash(s@),
{
    let n = s.unicode_len();
    let mut pieces: Vec<&'a str> = Vec::new();
    let mut start: usize = 0;
    let mut i: usize = 0;
    while i < n
        invariant
            n == s@.len(),
            start <= i <= n,
            split_slash(s@) == views(pieces@) + split_from(s@, start as int, i as int),
        decreases n - i,
    {
        if s.get_char(i) == '/' {
            let piece = s.substring_char(start, i);
            proof {
                let old_pieces = views(pieces@);
                assert(views(pieces@.push(piece)) =~= old_pieces.push(piece@));
                assert(old_pieces + split_from(s@, start as int, i as int) =~= old_pieces.push(piece@) + split_from(
                    s@,
                    i + 1,
                    i + 1,
                ));
            }
            pieces.push(piece);
            start = i + 1;
        }
        i = i + 1;
    }
    let last = s.substring_char(start, n);
    proof {
        let old_pieces = views(pieces@);
        assert(views(pieces@.push(last)) =~= old_pieces.push(last@));
        assert(old_pieces + split_from(s@, start as int, i as int) =~= old_pieces.push(last@));
    }
    pieces.push(last);
    pieces
}

/// The components of `path` that are not empty, in order.
pub fn path_components<'a>(path: &'a str) -> (r: Vec<&'a str>)
    ensures
        views(r@) == nonempty_components(path@),
{
    let pieces = split_slash_exec(path);
    let ghost ps = views(pieces@);
    let mut out: Vec<&'a str> = Vec::new();
    let mut i: usize = 0;
    proof {
        assert(ps.subrange(0, 0) =~= Seq::<Seq<char>>::empty());
        reveal(Seq::filter);
        assert(views(out@) =~= ps.subrange(0, 0).filter(is_nonempty()));
    }
    while i < pieces.len()
        invariant
            i <= pieces@.len(),
            ps == views(pieces@),
            ps == split_slash(path@),
            views(out@) == ps.subrange(0, i as int).filter(is_nonempty()),
        decreases pieces@.len() - i,
    {
        let piece = pieces[i];
        proof {
            assert(ps.subrange(0, i + 1) =~= ps.subrange(0, i as int).push(piece@));
            ps.subrange(0, i as int).lemma_filter_push(piece@, is_nonempty());
        }
        let ghost before = out@;
        if piece.unicode_len() > 0 {
            out.push(piece);
            proof {
                assert(views(out@) =~= views(before).push(piece@));
            }
        }
        i = i + 1;
    }
    proof {
        assert(ps.subrange(0, ps.len() as int) =~= ps);
    }
    out
}

/// What a component means to path resolution.
enum ComponentKind {
    Skip,
    Parent,
    Name,
}

fn component_kind(c: &str) -> (k: ComponentKind)
    ensures
        k is Skip <==> (c@.len() == 0 || is_dot(c@)),
        k is Parent <==> is_dot_dot(c@),
{
    let n = c.unicode_len();
    if n == 0 {
        ComponentKind::Skip
    } else if n == 1 && c.get_char(0) == '.' {
        proof {
            assert(c@ =~= seq!['.']);
        }
        ComponentKind::Skip
    } else if n == 2 && c.get_char(0) == '.' && c.get_char(1) == '.' {
        proof {
            assert(c@ =~= seq!['.', '.']);
        }
        ComponentKind::Parent
    } else {
        proof {
            if n == 1 {
                assert(!is_dot(c@)) by {
                    if is_dot(c@) {
                        assert(c@[0] == '.');
                    }
                }
            }
            if n == 2 {
                assert(!is_dot_dot(c@)) by {
                    if is_dot_dot(c@) {
                        assert(c@[0] == '.' && c@[1] == '.');
                    }
                }
            }
        }
        ComponentKind::Name
    }
}

/// Applies the pieces `pieces` to the stack `components`, in order.
fn resolve_pieces<'a>(components: &mut Vec<&'a str>, pieces: &Vec<&'a str>, strict: bool) -> (ok: bool)
    ensures
        ({
            let r = resolve(views(old(components)@), views(pieces@), strict);
            &&& ok == r is Some
            &&& ok ==> r == Some(views(final(components)@))
        }),
{
    let ghost init = views(components@);
    let ghost ps = views(pieces@);
    let mut i: usize = 0;
    while i < pieces.len()
        invariant
            i <= pieces@.len(),
            ps == views(pieces@),
            init == views(old(components)@),
            resolve(init, ps.subrange(0, i as int), strict) == Some(views(components@)),
        decreases pieces@.len() - i,
    {
        let piece = pieces[i];
        proof {
            assert(ps.subrange(0, i + 1).drop_last() =~= ps.subrange(0, i as int));
            assert(ps.subrange(0, i + 1).last() == piece@);
        }
        let ghost before = views(components@);
        match component_kind(piece) {
            ComponentKind::Skip => {},
            ComponentKind::Parent => {
                if components.len() == 0 {
                    if strict {
                        proof {
                            assert(before =~= Seq::<Seq<char>>::empty());
                            assert(is_dot_dot(piece@));
                            assert(resolve_step(before, piece@, strict) is None);
                            assert(resolve(init, ps.subrange(0, i + 1), strict) is None);
                            lemma_resolve_none_stays(init, ps, i + 1, strict);
                            assert(ps.subrange(0, ps.len() as int) =~= ps);
                            assert(resolve(init, ps, strict) is None);
                            assert(init == views(old(components)@));
                            assert(ps == views(pieces@));
                        }
                        return false;
                    }
                } else {
                    components.pop();
                    proof {
                        assert(views(components@) =~= before.drop_last());
                    }
                }
            },
            ComponentKind::Name => {
                components.push(piece);
                proof {
                    assert(views(components@) =~= before.push(piece@));
                }
            },
        }
        i = i + 1;
    }
    proof {
        assert(ps.subrange(0, ps.len() as int) =~= ps);
    }
    true
}

proof fn lemma_resolve_none_stays(init: Seq<Seq<char>>, ps: Seq<Seq<char>>, k: int, strict: bool)
    requires
        0 <= k <= ps.len(),
        resolve(init, ps.subrange(0, k), strict) is None,
    ensures
        resolve(init, ps.subrange(0, ps.len() as int), strict) is None,
    decreases ps.len() - k,
{
    if k < ps.len() {
        assert(ps.subrange(0, k + 1).drop_last() =~= ps.subrange(0, k));
        lemma_resolve_none_stays(init, ps, k + 1, strict);
    }
}

/// Resolves `path` against the working directory `cwd` into an absolute path
/// without `.`, `..` or empty components.
pub fn canonicalize_path(path: &str, cwd: &str) -> (r: Option<String>)
    ensures
        match r {
            Some(s) => canonical_path(path@, cwd@) == Some(s@),
            None => canonical_path(path@, cwd@) is None,
        },
{
    let mut components: Vec<&str> = Vec::new();
    proof {
        assert(views(components@) =~= Seq::<Seq<char>>::empty());
    }
    let absolute = path.unicode_len() > 0 && path.get_char(0) == '/';
    if !absolute {
        let cwd_pieces = split_slash_exec(cwd);
        proof {
            assert(views(components@) =~= Seq::<Seq<char>>::empty());
        }
        if !resolve_pieces(&mut components, &cwd_pieces, true) {
            return None;
        }
    }
    let ghost stack = views(components@);
    let path_pieces = split_slash_exec(path);
    let ok = resolve_pieces(&mut components, &path_pieces, false);
    proof {
        lemma_resolve_lenient(stack, views(path_pieces@));
    }
    let ghost comps = views(components@);
    let slash = "/";
    proof {
        reveal_strlit("/");
    }
    let mut result = String::from_str(slash);
    let mut idx: usize = 0;
    while idx < components.len()
        invariant
            idx <= components@.len(),
            comps == views(components@),
            slash@ == seq!['/'],
            result@ == join_absolute(comps.subrange(0, idx as int)),
        decreases components@.len() - idx,
    {
        proof {
            assert(comps.subrange(0, idx + 1).drop_last() =~= comps.subrange(0, idx as int));
        }
        if idx != 0 {
            result.append(slash);
        }
        result.append(components[idx]);
        proof {
            if idx == 0 {
                assert(comps.subrange(0, 1) =~= seq![comps[0]]);
            }
        }
        idx = idx + 1;
    }
    proof {
        assert(comps.subrange(0, comps.len() as int) =~= comps);
    }
    Some(result)
}

proof fn lemma_resolve_lenient(init: Seq<Seq<char>>, comps: Seq<Seq<char>>)
    ensures
        resolve(init, comps, false) is Some,
    decreases comps.len(),
{
    if comps.len() > 0 {
        lemma_resolve_lenient(init, comps.drop_last());
    }
}

} // verus!
