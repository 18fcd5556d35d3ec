//! Paths as sequences of components.
//!
//! A path is text; what the library compares, sorts and strips is the
//! sequence of its components. Separators that repeat or end the path, and
//! `.` anywhere but at the start of a relative path, are no components.

use vstd::prelude::*;
use crate::order::{
    distinct, lemma_inserted_at, lemma_lex_connected, lemma_lex_irreflexive, lemma_lex_skip,
    lemma_lex_transitive, lex_less, sorted, strict_total, without,
};
use crate::text::{
    chars_of, find_char, first_index, joined, lemma_first_index, lemma_first_index_is,
    lemma_text_order, lemma_views_push, same_text, slice_of, text_before, text_less, views,
};

verus! {

/// The separator between two components.
pub open spec fn separator() -> Seq<char> {
    seq!['/']
}

/// The component that stands for the root directory.
pub open spec fn root() -> Seq<char> {
    seq!['/']
}

/// The component that stands for the current directory.
pub open spec fn cur_dir() -> Seq<char> {
    seq!['.']
}

/// The component that stands for the parent directory.
pub open spec fn parent_dir() -> Seq<char> {
    seq!['.', '.']
}

/// The runs of characters between the separators of `s`, in order, but
/// for the empty ones and the ones that are `.`.
pub open spec fn names(s: Seq<char>) -> Seq<Seq<char>>
    decreases s.len(),
{
    if s.len() == 0 {
        Seq::empty()
    } else if s[0] == '/' {
        names(s.skip(1))
    } else {
        proof {
            lemma_first_index(s, '/');
        }
        let n = first_index(s, '/');
        if s.take(n as int) == cur_dir() {
            names(s.skip(n as int))
        } else {
            seq![s.take(n as int)] + names(s.skip(n as int))
        }
    }
}

/// Whether `s` is a relative path that starts with `.` as a component.
pub open spec fn starts_in_cur_dir(s: Seq<char>) -> bool {
    s.len() > 0 && s[0] == '.' && (s.len() == 1 || s[1] == '/')
}

/// The components of the path `s`: the root directory if `s` starts with
/// a separator, the current directory if `s` starts with `.` as a
/// component, then its names.
pub open spec fn components(s: Seq<char>) -> Seq<Seq<char>> {
    if s.len() > 0 && s[0] == '/' {
        seq![root()] + names(s)
    } else if starts_in_cur_dir(s) {
        seq![cur_dir()] + names(s)
    } else {
        names(s)
    }
}

/// The text of the path made of the components `cs`: the components with
/// a separator between each two, none after the root directory.
pub open spec fn path_text(cs: Seq<Seq<char>>) -> Seq<char> {
    if cs.len() > 0 && cs[0] == root() {
        root() + joined(cs.skip(1), separator())
    } else {
        joined(cs, separator())
    }
}

/// Appends the names of `cs[from..]` to `out`.
pub fn push_names(cs: &Vec<char>, from: usize, out: &mut Vec<Vec<char>>)
    requires
        from <= cs.len(),
    ensures
        views(final(out)@) == views(old(out)@) + names(cs@.skip(from as int)),
{
    let ghost head = views(out@);
    let mut at: usize = from;
    proof {
        assert(views(out@) + Seq::<Seq<char>>::empty() =~= views(out@));
        assert(head + names(cs@.skip(from as int)) =~= views(out@) + names(cs@.skip(at as int)));
    }
    while at < cs.len()
        invariant
            at <= cs.len(),
            head + names(cs@.skip(from as int)) == views(out@) + names(cs@.skip(at as int)),
        decreases cs.len() - at,
    {
        let ghost rest = cs@.skip(at as int);
        if cs[at] == '/' {
            proof {
                assert(rest.skip(1) =~= cs@.skip(at + 1));
            }
            at += 1;
        } else {
            let end = find_char(cs, '/', at);
            let name = slice_of(cs, at, end);
            proof {
                let n = first_index(rest, '/');
                assert(name@ =~= rest.take(n as int));
                assert(rest.skip(n as int) =~= cs@.skip(end as int));
            }
            if name.len() == 1 && name[0] == '.' {
                proof {
                    assert(name@ =~= cur_dir());
                }
            } else {
                proof {
                    lemma_views_push(out@, name);
                    assert(views(out@.push(name)) + names(cs@.skip(end as int)) =~= views(out@)
                        + (seq![name@] + names(cs@.skip(end as int))));
                }
                out.push(name);
            }
            at = end;
        }
    }
    proof {
        assert(views(out@) + Seq::<Seq<char>>::empty() =~= views(out@));
    }
}

/// The components of the path `cs`.
pub fn split(cs: &Vec<char>) -> (out: Vec<Vec<char>>)
    ensures
        views(out@) == components(cs@),
{
    let mut out: Vec<Vec<char>> = Vec::new();
    if cs.len() > 0 && cs[0] == '/' {
        let first: Vec<char> = vec!['/'];
        proof {
            assert(first@ =~= root());
            lemma_views_push(out@, first);
        }
        out.push(first);
    } else if cs.len() > 0 && cs[0] == '.' && (cs.len() == 1 || cs[1] == '/') {
        let first: Vec<char> = vec!['.'];
        proof {
            assert(first@ =~= cur_dir());
            lemma_views_push(out@, first);
        }
        out.push(first);
    }
    proof {
        assert(cs@.skip(0) =~= cs@);
        assert(views(out@) + names(cs@) =~= components(cs@));
    }
    push_names(cs, 0, &mut out);
    out
}

/// The components of the path `s`.
pub fn path_components(s: &str) -> (out: Vec<Vec<char>>)
    ensures
        views(out@) == components(s@),
{
    let cs = chars_of(s);
    split(&cs)
}

/// The text of the path made of the components `cs[from..to]`.
pub fn render(cs: &Vec<Vec<char>>, from: usize, to: usize) -> (out: String)
    requires
        from <= to <= cs.len(),
    ensures
        out@ == path_text(views(cs@).subrange(from as int, to as int)),
{
    let ghost all = views(cs@).subrange(from as int, to as int);
    let mut out = String::new();
    let mut i: usize = from;
    if i < to && cs[i].len() == 1 && cs[i][0] == '/' {
        out.push('/');
        i += 1;
        proof {
            assert(all[0] =~= root());
        }
    } else {
        proof {
            if all.len() > 0 {
                assert(all[0] == cs@[from as int]@);
                assert(all[0] != root());
            }
        }
    }
    let first: usize = i;
    let ghost names = views(cs@).subrange(first as int, to as int);
    proof {
        assert(first > from ==> names =~= all.skip(1));
        assert(first == from ==> names =~= all);
        assert(names.take(0) =~= Seq::<Seq<char>>::empty());
    }
    while i < to
        invariant
            from <= first <= i <= to <= cs.len(),
            names == views(cs@).subrange(first as int, to as int),
            first > from ==> out@ == root() + joined(names.take(i - first), separator()),
            first == from ==> out@ == joined(names.take(i - first), separator()),
        decreases to - i,
    {
        let ghost before = out@;
        if i > first {
            out.push('/');
        }
        let name = &cs[i];
        let ghost mid = out@;
        let mut k: usize = 0;
        while k < name.len()
            invariant
                k <= name.len(),
                out@ == mid + name@.take(k as int),
            decreases name.len() - k,
        {
            out.push(name[k]);
            k += 1;
            proof {
                assert(name@.take(k as int) =~= name@.take(k - 1).push(name@[k - 1]));
            }
        }
        proof {
            assert(name@.take(name.len() as int) =~= name@);
            let done = names.take(i - first);
            let next = names.take(i - first + 1);
            assert(next.drop_last() =~= done);
            assert(next.last() == name@);
            if i == first {
                assert(joined(next, separator()) =~= name@);
            } else {
                assert(mid =~= before + separator());
                assert(joined(next, separator()) =~= joined(done, separator()) + separator()
                    + name@);
            }
            if first > from {
                assert(out@ =~= root() + joined(next, separator()));
            } else {
                assert(out@ =~= joined(next, separator()));
            }
        }
        i += 1;
    }
    proof {
        assert(names.take(to - first) =~= names);
    }
    out
}

/// Whether the components `prefix` are the first components of `path`.
pub fn is_ancestor(prefix: &Vec<Vec<char>>, path: &Vec<Vec<char>>) -> (b: bool)
    ensures
        b == views(prefix@).is_prefix_of(views(path@)),
{
    if prefix.len() > path.len() {
        return false;
    }
    let mut i: usize = 0;
    while i < prefix.len()
        invariant
            prefix.len() <= path.len(),
            i <= prefix.len(),
            forall|j: int| 0 <= j < i ==> prefix@[j]@ == path@[j]@,
        decreases prefix.len() - i,
    {
        if !same_text(&prefix[i], &path[i]) {
            proof {
                let p = views(prefix@);
                let q = views(path@);
                assert(q.subrange(0, p.len() as int)[i as int] == path@[i as int]@);
                assert(p[i as int] == prefix@[i as int]@);
            }
            return false;
        }
        i += 1;
    }
    proof {
        let p = views(prefix@);
        let q = views(path@);
        assert(q.subrange(0, p.len() as int) =~= p);
    }
    true
}

/// Where a component stands among the kinds of components: the root
/// directory first, then the current directory, the parent directory,
/// and names last.
pub open spec fn rank(c: Seq<char>) -> int {
    if c == root() {
        0
    } else if c == cur_dir() {
        1
    } else if c == parent_dir() {
        2
    } else {
        3
    }
}

/// Whether the component `a` comes before the component `b`: by kind,
/// and names by their text.
pub open spec fn component_less(a: Seq<char>, b: Seq<char>) -> bool {
    rank(a) < rank(b) || (rank(a) == rank(b) && text_less(a, b))
}

/// The order of components.
pub open spec fn by_component() -> spec_fn(Seq<char>, Seq<char>) -> bool {
    |a: Seq<char>, b: Seq<char>| component_less(a, b)
}

/// Whether the path with the components `a` comes before the path with
/// the components `b`: the lexicographic order of their components.
pub open spec fn path_less(a: Seq<Seq<char>>, b: Seq<Seq<char>>) -> bool {
    lex_less(a, b, by_component())
}

/// The order of paths.
pub open spec fn by_path() -> spec_fn(Seq<Seq<char>>, Seq<Seq<char>>) -> bool {
    |a: Seq<Seq<char>>, b: Seq<Seq<char>>| path_less(a, b)
}

/// The order of components is a strict total order.
pub proof fn lemma_component_order()
    ensures
        strict_total(by_component()),
{
    lemma_text_order();
    let less = by_component();
    let text = crate::text::by_text();
    assert forall|x: Seq<char>| !#[trigger] less(x, x) by {
        assert(!text(x, x));
    }
    assert forall|x: Seq<char>, y: Seq<char>, z: Seq<char>| #[trigger]
        less(x, y) && #[trigger] less(y, z) implies less(x, z) by {
        if rank(x) == rank(y) && rank(y) == rank(z) {
            assert(text(x, y) && text(y, z));
            assert(text(x, z));
        }
    }
    assert forall|x: Seq<char>, y: Seq<char>| x != y implies #[trigger] less(x, y) || less(
        y,
        x,
    ) by {
        if rank(x) == rank(y) {
            assert(text(x, y) || text(y, x));
        }
    }
}

/// The order of paths is a strict total order.
pub proof fn lemma_path_order()
    ensures
        strict_total(by_path()),
{
    lemma_component_order();
    let less = by_path();
    assert forall|x: Seq<Seq<char>>| !#[trigger] less(x, x) by {
        lemma_lex_irreflexive(x, by_component());
    }
    assert forall|x: Seq<Seq<char>>, y: Seq<Seq<char>>, z: Seq<Seq<char>>| #[trigger]
        less(x, y) && #[trigger] less(y, z) implies less(x, z) by {
        lemma_lex_transitive(x, y, z, by_component());
    }
    assert forall|x: Seq<Seq<char>>, y: Seq<Seq<char>>| x != y implies #[trigger] less(x, y)
        || less(y, x) by {
        lemma_lex_connected(x, y, by_component());
    }
}

/// Where the component `c` stands among the kinds of components.
fn component_rank(c: &Vec<char>) -> (r: u8)
    ensures
        r == rank(c@),
{
    if c.len() == 1 && c[0] == '/' {
        proof {
            assert(c@ =~= root());
        }
        0
    } else if c.len() == 1 && c[0] == '.' {
        proof {
            assert(c@ =~= cur_dir());
        }
        1
    } else if c.len() == 2 && c[0] == '.' && c[1] == '.' {
        proof {
            assert(c@ =~= parent_dir());
        }
        2
    } else {
        3
    }
}

/// Whether the component `a` comes before the component `b`.
pub fn component_before(a: &Vec<char>, b: &Vec<char>) -> (less: bool)
    ensures
        less == component_less(a@, b@),
{
    let ra = component_rank(a);
    let rb = component_rank(b);
    ra < rb || (ra == rb && text_before(a, b))
}

/// Whether the path with the components `a` comes before the path with
/// the components `b`.
pub fn path_before(a: &Vec<Vec<char>>, b: &Vec<Vec<char>>) -> (less: bool)
    ensures
        less == path_less(views(a@), views(b@)),
{
    let ghost pa = views(a@);
    let ghost pb = views(b@);
    let mut i: usize = 0;
    proof {
        assert(pa.take(0) =~= pb.take(0));
    }
    while i < a.len() && i < b.len()
        invariant
            i <= a.len(),
            i <= b.len(),
            pa == views(a@),
            pb == views(b@),
            pa.take(i as int) == pb.take(i as int),
        decreases a.len() - i,
    {
        if !same_text(&a[i], &b[i]) {
            proof {
                lemma_lex_skip(pa, pb, i as int, by_component());
                assert(pa.skip(i as int)[0] == a@[i as int]@);
                assert(pb.skip(i as int)[0] == b@[i as int]@);
            }
            return component_before(&a[i], &b[i]);
        }
        proof {
            assert(pa.take(i + 1) =~= pa.take(i as int).push(pa[i as int]));
            assert(pb.take(i + 1) =~= pb.take(i as int).push(pb[i as int]));
        }
        i += 1;
    }
    proof {
        lemma_lex_skip(pa, pb, i as int, by_component());
    }
    i < b.len()
}

/// Whether the paths with the components `a` and `b` are the same.
pub fn same_path(a: &Vec<Vec<char>>, b: &Vec<Vec<char>>) -> (same: bool)
    ensures
        same == (views(a@) == views(b@)),
{
    if a.len() != b.len() {
        proof {
            assert(views(a@).len() != views(b@).len());
        }
        return false;
    }
    let mut i: usize = 0;
    while i < a.len()
        invariant
            a.len() == b.len(),
            i <= a.len(),
            forall|j: int| 0 <= j < i ==> a@[j]@ == b@[j]@,
        decreases a.len() - i,
    {
        if !same_text(&a[i], &b[i]) {
            proof {
                assert(views(a@)[i as int] != views(b@)[i as int]);
            }
            return false;
        }
        i += 1;
    }
    proof {
        assert(views(a@) =~= views(b@));
    }
    true
}

/// Whether `c` can be a name in a path: it is not empty, holds no
/// separator, and is not `.`.
pub open spec fn is_name(c: Seq<char>) -> bool {
    c.len() > 0 && !c.contains('/') && c != cur_dir()
}

/// Whether `cs` can be the components of a path: names, but that the
/// first may be the root directory or the current directory.
pub open spec fn well_formed(cs: Seq<Seq<char>>) -> bool {
    forall|i: int|
        0 <= i < cs.len() ==> is_name(#[trigger] cs[i]) || (i == 0 && (cs[0] == root() || cs[0]
            == cur_dir()))
}

/// Whether each of `cs` can be a name in a path.
pub open spec fn all_names(cs: Seq<Seq<char>>) -> bool {
    forall|i: int| 0 <= i < cs.len() ==> is_name(#[trigger] cs[i])
}

/// What `names` gives are names.
pub proof fn lemma_names_are_names(s: Seq<char>)
    ensures
        all_names(names(s)),
    decreases s.len(),
{
    if s.len() == 0 {
    } else if s[0] == '/' {
        lemma_names_are_names(s.skip(1));
    } else {
        lemma_first_index(s, '/');
        let n = first_index(s, '/') as int;
        let name = s.take(n);
        let rest = names(s.skip(n));
        lemma_names_are_names(s.skip(n));
        if name != cur_dir() {
            assert(!name.contains('/')) by {
                if name.contains('/') {
                    let i = choose|i: int| 0 <= i < name.len() && name[i] == '/';
                    assert(s[i] == '/');
                }
            }
            let all = names(s);
            assert forall|i: int| 0 <= i < all.len() implies is_name(#[trigger] all[i]) by {
                if i > 0 {
                    assert(all[i] == rest[i - 1]);
                }
            }
        }
    }
}

/// The components of a path are well formed.
pub proof fn lemma_components_well_formed(s: Seq<char>)
    ensures
        well_formed(components(s)),
{
    lemma_names_are_names(s);
    let cs = components(s);
    let ns = names(s);
    assert forall|i: int| 0 <= i < cs.len() implies is_name(#[trigger] cs[i]) || (i == 0 && (cs[0]
        == root() || cs[0] == cur_dir())) by {
        if (s.len() > 0 && s[0] == '/') || starts_in_cur_dir(s) {
            if i > 0 {
                assert(cs[i] == ns[i - 1]);
            }
        } else {
            assert(cs[i] == ns[i]);
        }
    }
}

/// Two or more parts joined are the first, the separator, and the
/// others joined.
pub proof fn lemma_joined_front(parts: Seq<Seq<char>>, sep: Seq<char>)
    requires
        parts.len() >= 2,
    ensures
        joined(parts, sep) == parts[0] + sep + joined(parts.skip(1), sep),
    decreases parts.len(),
{
    let rest = parts.skip(1);
    if parts.len() == 2 {
        assert(parts.drop_last() =~= seq![parts[0]]);
        assert(rest =~= seq![parts[1]]);
        assert(joined(parts.drop_last(), sep) == parts[0]);
        assert(joined(rest, sep) == parts[1]);
    } else {
        lemma_joined_front(parts.drop_last(), sep);
        assert(parts.drop_last().skip(1) =~= rest.drop_last());
        assert(rest.last() == parts.last());
        assert(parts.drop_last()[0] == parts[0]);
        assert(joined(parts, sep) =~= parts[0] + sep + (joined(rest.drop_last(), sep) + sep
            + rest.last()));
    }
}

/// The names of a text that starts with a name and a separator are that
/// name and the names of what follows.
pub proof fn lemma_names_after_name(name: Seq<char>, rest: Seq<char>)
    requires
        is_name(name),
    ensures
        names(name + separator() + rest) == seq![name] + names(rest),
        names(name) == seq![name],
{
    let s = name + separator() + rest;
    let k = name.len() as int;
    assert forall|i: int| 0 <= i < k implies #[trigger] s[i] != '/' by {
        assert(s[i] == name[i]);
        assert(name.contains(name[i]));
    }
    assert(s[k] == '/');
    lemma_first_index_is(s, '/', k);
    assert(s.take(k) =~= name);
    let tail = s.skip(k);
    assert(tail[0] == '/');
    assert(tail.skip(1) =~= rest);
    assert(names(tail) == names(rest));
    assert forall|i: int| 0 <= i < k implies #[trigger] name[i] != '/' by {
        assert(name.contains(name[i]));
    }
    lemma_first_index_is(name, '/', k);
    assert(name.take(k) =~= name);
    assert(name.skip(k) =~= Seq::<char>::empty());
    assert(name[0] != '/');
    assert(names(name.skip(k)) =~= Seq::<Seq<char>>::empty());
    assert(names(name) =~= seq![name]);
}

/// The names of names joined by the separator are those names.
pub proof fn lemma_names_of_joined(parts: Seq<Seq<char>>)
    requires
        all_names(parts),
    ensures
        names(joined(parts, separator())) == parts,
    decreases parts.len(),
{
    if parts.len() == 0 {
        assert(names(joined(parts, separator())) =~= parts);
    } else if parts.len() == 1 {
        lemma_names_after_name(parts[0], Seq::empty());
        assert(seq![parts[0]] =~= parts);
    } else {
        let rest = parts.skip(1);
        assert forall|i: int| 0 <= i < rest.len() implies is_name(#[trigger] rest[i]) by {
            assert(rest[i] == parts[i + 1]);
        }
        lemma_joined_front(parts, separator());
        lemma_names_of_joined(rest);
        lemma_names_after_name(parts[0], joined(rest, separator()));
        assert(seq![parts[0]] + rest =~= parts);
    }
}

/// Components that are well formed are the components of their text.
pub proof fn lemma_components_of_text(cs: Seq<Seq<char>>)
    requires
        well_formed(cs),
    ensures
        components(path_text(cs)) == cs,
{
    let text = path_text(cs);
    if cs.len() == 0 {
        assert(components(text) =~= cs);
    } else {
        let rest = cs.skip(1);
        assert forall|i: int| 0 <= i < rest.len() implies is_name(#[trigger] rest[i]) by {
            assert(rest[i] == cs[i + 1]);
        }
        lemma_names_of_joined(rest);
        if cs[0] == root() {
            assert(text[0] == '/');
            assert(text.skip(1) =~= joined(rest, separator()));
            assert(names(text) == names(text.skip(1)));
            assert(seq![root()] + rest =~= cs);
        } else if cs[0] == cur_dir() {
            if cs.len() == 1 {
                assert(text =~= cur_dir());
                assert(first_index(text, '/') == 1) by {
                    lemma_first_index_is(text, '/', 1);
                }
                assert(text.take(1) =~= cur_dir());
                assert(text.skip(1) =~= Seq::<char>::empty());
                assert(names(text) =~= Seq::<Seq<char>>::empty());
                assert(seq![cur_dir()] + names(text) =~= cs);
            } else {
                lemma_joined_front(cs, separator());
                let tail = joined(rest, separator());
                assert(text =~= cur_dir() + separator() + tail);
                assert(text[0] == '.' && text[1] == '/');
                assert(first_index(text, '/') == 1) by {
                    lemma_first_index_is(text, '/', 1);
                }
                assert(text.take(1) =~= cur_dir());
                let after = text.skip(1);
                assert(after[0] == '/');
                assert(after.skip(1) =~= tail);
                assert(names(after) == names(tail));
                assert(names(text) == names(after));
                assert(seq![cur_dir()] + rest =~= cs);
            }
        } else {
            assert(all_names(cs)) by {
                assert forall|i: int| 0 <= i < cs.len() implies is_name(#[trigger] cs[i]) by {}
            }
            lemma_names_of_joined(cs);
            let first = cs[0];
            assert(first.contains(first[0]));
            if cs.len() == 1 {
                assert(text == first);
            } else {
                lemma_joined_front(cs, separator());
                assert(text =~= first + (separator() + joined(rest, separator())));
            }
            assert(text[0] == first[0]);
            if text[0] == '.' && text.len() > 1 {
                if first.len() == 1 {
                    assert(first =~= cur_dir());
                }
                assert(text[1] == first[1]);
                assert(first.contains(first[1]));
            }
            if text[0] == '.' && text.len() == 1 {
                assert(first =~= cur_dir());
            }
            assert(!starts_in_cur_dir(text));
        }
    }
}

/// The first components of well-formed components are well formed, and
/// so are the others once the first is taken away.
pub proof fn lemma_parts_well_formed(cs: Seq<Seq<char>>, n: int)
    requires
        well_formed(cs),
        0 <= n <= cs.len(),
    ensures
        well_formed(cs.take(n)),
        well_formed(cs.skip(n)),
{
    assert forall|i: int| 0 <= i < cs.take(n).len() implies is_name(#[trigger] cs.take(n)[i]) || (i
        == 0 && (cs.take(n)[0] == root() || cs.take(n)[0] == cur_dir())) by {
        assert(cs.take(n)[i] == cs[i]);
    }
    assert forall|i: int| 0 <= i < cs.skip(n).len() implies is_name(#[trigger] cs.skip(n)[i]) || (i
        == 0 && (cs.skip(n)[0] == root() || cs.skip(n)[0] == cur_dir())) by {
        assert(cs.skip(n)[i] == cs[i + n]);
    }
}

/// The components of each of the paths `texts`.
pub open spec fn paths_of(texts: Seq<Seq<char>>) -> Seq<Seq<Seq<char>>> {
    Seq::new(texts.len(), |i: int| components(texts[i]))
}

/// The text of each of the paths `paths`.
pub open spec fn texts_of(paths: Seq<Seq<Seq<char>>>) -> Seq<Seq<char>> {
    Seq::new(paths.len(), |i: int| path_text(paths[i]))
}

/// The components of each path of a list, as plain sequences.
pub open spec fn path_views(paths: Seq<Vec<Vec<char>>>) -> Seq<Seq<Seq<char>>> {
    Seq::new(paths.len(), |i: int| views(paths[i]@))
}

/// Appending a path appends its components.
pub proof fn lemma_path_views_push(paths: Seq<Vec<Vec<char>>>, path: Vec<Vec<char>>)
    ensures
        path_views(paths.push(path)) == path_views(paths).push(views(path@)),
{
    assert(path_views(paths.push(path)) =~= path_views(paths).push(views(path@)));
}

/// A copy of the path with the components `path`.
pub fn copy_path(path: &Vec<Vec<char>>) -> (out: Vec<Vec<char>>)
    ensures
        views(out@) == views(path@),
{
    let mut out: Vec<Vec<char>> = Vec::new();
    let mut i: usize = 0;
    while i < path.len()
        invariant
            i <= path.len(),
            views(out@) == views(path@).take(i as int),
        decreases path.len() - i,
    {
        let part = slice_of(&path[i], 0, path[i].len());
        proof {
            lemma_views_push(out@, part);
            assert(part@ =~= path@[i as int]@);
            assert(views(path@).take(i + 1) =~= views(path@).take(i as int).push(part@));
        }
        out.push(part);
        i += 1;
    }
    proof {
        assert(views(path@).take(path.len() as int) =~= views(path@));
    }
    out
}

/// The paths `items` in ascending order.
pub fn sort_paths(items: &Vec<Vec<Vec<char>>>) -> (out: Vec<Vec<Vec<char>>>)
    ensures
        path_views(out@) == sorted(path_views(items@), by_path()),
{
    let ghost all = path_views(items@);
    let mut out: Vec<Vec<Vec<char>>> = Vec::new();
    let mut i: usize = 0;
    proof {
        assert(path_views(out@) =~= sorted(all.take(0), by_path()));
    }
    while i < items.len()
        invariant
            i <= items.len(),
            all == path_views(items@),
            path_views(out@) == sorted(all.take(i as int), by_path()),
        decreases items.len() - i,
    {
        let x = copy_path(&items[i]);
        let mut at: usize = out.len();
        while at > 0 && path_before(&x, &out[at - 1])
            invariant
                at <= out.len(),
                forall|j: int|
                    at <= j < out.len() ==> by_path()(views(x@), #[trigger] path_views(out@)[j]),
            decreases at,
        {
            at -= 1;
        }
        proof {
            let before = path_views(out@);
            lemma_inserted_at(before, views(x@), at as int, by_path());
            assert(path_views(out@.insert(at as int, x)) =~= before.take(at as int).push(
                views(x@),
            ) + before.skip(at as int));
            assert(all.take(i + 1).drop_last() =~= all.take(i as int));
            assert(all.take(i + 1).last() == views(x@));
        }
        out.insert(at, x);
        i += 1;
    }
    proof {
        assert(all.take(items.len() as int) =~= all);
    }
    out
}

/// The paths `items` without those that equal the one kept before them.
pub fn dedup_paths(items: &Vec<Vec<Vec<char>>>) -> (out: Vec<Vec<Vec<char>>>)
    ensures
        path_views(out@) == distinct(path_views(items@)),
{
    let ghost all = path_views(items@);
    let mut out: Vec<Vec<Vec<char>>> = Vec::new();
    let mut i: usize = 0;
    proof {
        assert(path_views(out@) =~= distinct(all.take(0)));
    }
    while i < items.len()
        invariant
            i <= items.len(),
            all == path_views(items@),
            path_views(out@) == distinct(all.take(i as int)),
        decreases items.len() - i,
    {
        proof {
            assert(all.take(i + 1).drop_last() =~= all.take(i as int));
            assert(all.take(i + 1).last() == views(items@[i as int]@));
            if out.len() > 0 {
                assert(path_views(out@).last() == views(out@[out.len() - 1]@));
            }
        }
        if !(out.len() > 0 && same_path(&out[out.len() - 1], &items[i])) {
            let x = copy_path(&items[i]);
            proof {
                lemma_path_views_push(out@, x);
            }
            out.push(x);
        }
        i += 1;
    }
    proof {
        assert(all.take(items.len() as int) =~= all);
    }
    out
}

/// Whether `path` is one of `items`.
pub fn contains_path(items: &Vec<Vec<Vec<char>>>, path: &Vec<Vec<char>>) -> (found: bool)
    ensures
        found == path_views(items@).contains(views(path@)),
{
    let mut i: usize = 0;
    while i < items.len()
        invariant
            i <= items.len(),
            forall|j: int| 0 <= j < i ==> path_views(items@)[j] != views(path@),
        decreases items.len() - i,
    {
        if same_path(&items[i], path) {
            proof {
                assert(path_views(items@)[i as int] == views(path@));
            }
            return true;
        }
        i += 1;
    }
    false
}

/// The paths `items` without those that are among `banned`.
pub fn remove_paths(items: &Vec<Vec<Vec<char>>>, banned: &Vec<Vec<Vec<char>>>) -> (out: Vec<
    Vec<Vec<char>>,
>)
    ensures
        path_views(out@) == without(path_views(items@), path_views(banned@)),
{
    let ghost all = path_views(items@);
    let mut out: Vec<Vec<Vec<char>>> = Vec::new();
    let mut i: usize = 0;
    proof {
        assert(path_views(out@) =~= without(all.take(0), path_views(banned@)));
    }
    while i < items.len()
        invariant
            i <= items.len(),
            all == path_views(items@),
            path_views(out@) == without(all.take(i as int), path_views(banned@)),
        decreases items.len() - i,
    {
        proof {
            assert(all.take(i + 1).drop_last() =~= all.take(i as int));
            assert(all.take(i + 1).last() == views(items@[i as int]@));
        }
        if !contains_path(banned, &items[i]) {
            let x = copy_path(&items[i]);
            proof {
                lemma_path_views_push(out@, x);
            }
            out.push(x);
        }
        i += 1;
    }
    proof {
        assert(all.take(items.len() as int) =~= all);
    }
    out
}

/// The text of each of the paths `paths`.
pub fn render_paths(paths: &Vec<Vec<Vec<char>>>) -> (out: Vec<String>)
    ensures
        views(out@) == texts_of(path_views(paths@)),
{
    let ghost all = texts_of(path_views(paths@));
    let mut out: Vec<String> = Vec::new();
    let mut i: usize = 0;
    proof {
        assert(views(out@) =~= all.take(0));
    }
    while i < paths.len()
        invariant
            i <= paths.len(),
            all == texts_of(path_views(paths@)),
            views(out@) == all.take(i as int),
        decreases paths.len() - i,
    {
        let text = render(&paths[i], 0, paths[i].len());
        proof {
            let parts = views(paths@[i as int]@);
            assert(parts.subrange(0, parts.len() as int) =~= parts);
            lemma_views_push(out@, text);
            assert(all.take(i + 1) =~= all.take(i as int).push(text@));
        }
        out.push(text);
        i += 1;
    }
    proof {
        assert(all.take(paths.len() as int) =~= all);
    }
    out
}

} // verus!
