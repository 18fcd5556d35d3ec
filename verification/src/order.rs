//! Strict total orders, the lexicographic order that one induces on
//! sequences, and sorting by insertion.

use vstd::prelude::*;

verus! {

/// Nothing is less than itself.
pub open spec fn irreflexive<A>(less: spec_fn(A, A) -> bool) -> bool {
    forall|x: A| !#[trigger] less(x, x)
}

/// What is less than something that is less than a third thing is less
/// than the third.
pub open spec fn transitive<A>(less: spec_fn(A, A) -> bool) -> bool {
    forall|x: A, y: A, z: A| #[trigger] less(x, y) && #[trigger] less(y, z) ==> less(x, z)
}

/// Of two different things one is less than the other.
pub open spec fn connected<A>(less: spec_fn(A, A) -> bool) -> bool {
    forall|x: A, y: A| x != y ==> #[trigger] less(x, y) || less(y, x)
}

/// `less` is a strict total order.
pub open spec fn strict_total<A>(less: spec_fn(A, A) -> bool) -> bool {
    irreflexive(less) && transitive(less) && connected(less)
}

/// Whether `a` comes before `b` in the lexicographic order: at the first
/// index where they differ `a` has ended, or holds the lesser element.
pub open spec fn lex_less<A>(a: Seq<A>, b: Seq<A>, less: spec_fn(A, A) -> bool) -> bool
    decreases a.len(),
{
    if b.len() == 0 {
        false
    } else if a.len() == 0 {
        true
    } else if a[0] == b[0] {
        lex_less(a.skip(1), b.skip(1), less)
    } else {
        less(a[0], b[0])
    }
}

/// No sequence comes before itself.
pub proof fn lemma_lex_irreflexive<A>(a: Seq<A>, less: spec_fn(A, A) -> bool)
    requires
        irreflexive(less),
    ensures
        !lex_less(a, a, less),
    decreases a.len(),
{
    if a.len() > 0 {
        lemma_lex_irreflexive(a.skip(1), less);
    }
}

/// The lexicographic order is transitive.
pub proof fn lemma_lex_transitive<A>(a: Seq<A>, b: Seq<A>, c: Seq<A>, less: spec_fn(A, A) -> bool)
    requires
        irreflexive(less),
        transitive(less),
        lex_less(a, b, less),
        lex_less(b, c, less),
    ensures
        lex_less(a, c, less),
    decreases a.len(),
{
    if a.len() > 0 {
        if a[0] == b[0] && b[0] == c[0] {
            lemma_lex_transitive(a.skip(1), b.skip(1), c.skip(1), less);
        } else if a[0] != b[0] && b[0] != c[0] {
            assert(less(a[0], b[0]) && less(b[0], c[0]));
            assert(less(a[0], c[0]));
            assert(!less(a[0], a[0]));
        }
    }
}

/// Of two different sequences one comes before the other.
pub proof fn lemma_lex_connected<A>(a: Seq<A>, b: Seq<A>, less: spec_fn(A, A) -> bool)
    requires
        connected(less),
        a != b,
    ensures
        lex_less(a, b, less) || lex_less(b, a, less),
    decreases a.len(),
{
    if a.len() == 0 {
        if b.len() == 0 {
            assert(a =~= b);
        }
    } else if b.len() > 0 {
        if a[0] == b[0] {
            if a.skip(1) == b.skip(1) {
                assert(a =~= seq![a[0]] + a.skip(1));
                assert(b =~= seq![b[0]] + b.skip(1));
            }
            lemma_lex_connected(a.skip(1), b.skip(1), less);
        } else {
            assert(less(a[0], b[0]) || less(b[0], a[0]));
        }
    }
}

/// Sequences that agree on their first `n` elements compare as what
/// follows those elements.
pub proof fn lemma_lex_skip<A>(a: Seq<A>, b: Seq<A>, n: int, less: spec_fn(A, A) -> bool)
    requires
        0 <= n <= a.len(),
        n <= b.len(),
        a.take(n) == b.take(n),
    ensures
        lex_less(a, b, less) == lex_less(a.skip(n), b.skip(n), less),
    decreases n,
{
    if n == 0 {
        assert(a.skip(0) =~= a);
        assert(b.skip(0) =~= b);
    } else {
        assert(a[0] == a.take(n)[0]);
        assert(b[0] == b.take(n)[0]);
        assert(a.skip(1).take(n - 1) =~= a.take(n).skip(1));
        assert(b.skip(1).take(n - 1) =~= b.take(n).skip(1));
        lemma_lex_skip(a.skip(1), b.skip(1), n - 1, less);
        assert(a.skip(1).skip(n - 1) =~= a.skip(n));
        assert(b.skip(1).skip(n - 1) =~= b.skip(n));
    }
}

/// No element of `s` is less than one before it.
pub open spec fn ascending<A>(s: Seq<A>, less: spec_fn(A, A) -> bool) -> bool {
    forall|i: int, j: int| 0 <= i < j < s.len() ==> !less(#[trigger] s[j], #[trigger] s[i])
}

/// Each element of `s` is less than every one after it.
pub open spec fn strictly_ascending<A>(s: Seq<A>, less: spec_fn(A, A) -> bool) -> bool {
    forall|i: int, j: int| 0 <= i < j < s.len() ==> less(#[trigger] s[i], #[trigger] s[j])
}

/// `sorted` with `x` put behind its last element that is not greater
/// than `x`.
pub open spec fn inserted<A>(sorted: Seq<A>, x: A, less: spec_fn(A, A) -> bool) -> Seq<A>
    decreases sorted.len(),
{
    if sorted.len() == 0 {
        seq![x]
    } else if less(x, sorted.last()) {
        inserted(sorted.drop_last(), x, less).push(sorted.last())
    } else {
        sorted.push(x)
    }
}

/// The elements of `s` in ascending order; equal elements keep their
/// order.
pub open spec fn sorted<A>(s: Seq<A>, less: spec_fn(A, A) -> bool) -> Seq<A>
    decreases s.len(),
{
    if s.len() == 0 {
        s
    } else {
        inserted(sorted(s.drop_last(), less), s.last(), less)
    }
}

/// `s` without the elements that equal the one kept before them.
pub open spec fn distinct<A>(s: Seq<A>) -> Seq<A>
    decreases s.len(),
{
    if s.len() == 0 {
        s
    } else {
        let before = distinct(s.drop_last());
        if before.len() > 0 && before.last() == s.last() {
            before
        } else {
            before.push(s.last())
        }
    }
}

/// `s` without the elements that occur in `banned`.
pub open spec fn without<A>(s: Seq<A>, banned: Seq<A>) -> Seq<A>
    decreases s.len(),
{
    if s.len() == 0 {
        s
    } else {
        let before = without(s.drop_last(), banned);
        if banned.contains(s.last()) {
            before
        } else {
            before.push(s.last())
        }
    }
}

/// What a sequence holds after one more element is appended.
pub proof fn lemma_contains_push<A>(s: Seq<A>, x: A)
    ensures
        forall|e: A| #[trigger] s.push(x).contains(e) <==> s.contains(e) || e == x,
{
    let r = s.push(x);
    assert forall|e: A| #[trigger] r.contains(e) <==> s.contains(e) || e == x by {
        if r.contains(e) {
            let i = choose|i: int| 0 <= i < r.len() && r[i] == e;
            if i < s.len() {
                assert(s[i] == e);
            }
        }
        if s.contains(e) {
            let k = choose|k: int| 0 <= k < s.len() && s[k] == e;
            assert(r[k] == e);
        }
        if e == x {
            assert(r[s.len() as int] == e);
        }
    }
}

/// What a sequence holds, told by its last element and the rest.
pub proof fn lemma_contains_last<A>(s: Seq<A>)
    requires
        s.len() > 0,
    ensures
        forall|e: A| #[trigger] s.contains(e) <==> s.drop_last().contains(e) || e == s.last(),
{
    assert(s.drop_last().push(s.last()) =~= s);
    lemma_contains_push(s.drop_last(), s.last());
}

/// Where `x` goes: behind the first `at` elements, if `x` is less than
/// each element from there on and not less than the one before.
pub proof fn lemma_inserted_at<A>(s: Seq<A>, x: A, at: int, less: spec_fn(A, A) -> bool)
    requires
        0 <= at <= s.len(),
        forall|j: int| at <= j < s.len() ==> less(x, #[trigger] s[j]),
        at > 0 ==> !less(x, s[at - 1]),
    ensures
        inserted(s, x, less) == s.take(at).push(x) + s.skip(at),
    decreases s.len(),
{
    if s.len() == 0 {
        assert(s.take(at).push(x) + s.skip(at) =~= seq![x]);
    } else if at == s.len() {
        assert(s.take(at).push(x) + s.skip(at) =~= s.push(x));
    } else {
        let t = s.drop_last();
        assert(less(x, s[s.len() - 1]));
        assert forall|j: int| at <= j < t.len() implies less(x, #[trigger] t[j]) by {
            assert(t[j] == s[j]);
        }
        lemma_inserted_at(t, x, at, less);
        assert((t.take(at).push(x) + t.skip(at)).push(s.last()) =~= s.take(at).push(x) + s.skip(
            at,
        ));
    }
}

/// Inserting adds one element and keeps the others.
pub proof fn lemma_inserted_elements<A>(s: Seq<A>, x: A, less: spec_fn(A, A) -> bool)
    ensures
        inserted(s, x, less).len() == s.len() + 1,
        forall|e: A| #[trigger] inserted(s, x, less).contains(e) <==> s.contains(e) || e == x,
    decreases s.len(),
{
    if s.len() == 0 {
        assert(seq![x] =~= s.push(x));
        lemma_contains_push(s, x);
    } else if less(x, s.last()) {
        let t = s.drop_last();
        lemma_inserted_elements(t, x, less);
        lemma_contains_push(inserted(t, x, less), s.last());
        lemma_contains_last(s);
    } else {
        lemma_contains_push(s, x);
    }
}

/// Inserting into an ascending sequence gives an ascending sequence.
pub proof fn lemma_inserted_ascending<A>(s: Seq<A>, x: A, less: spec_fn(A, A) -> bool)
    requires
        strict_total(less),
        ascending(s, less),
    ensures
        ascending(inserted(s, x, less), less),
    decreases s.len(),
{
    let r = inserted(s, x, less);
    if s.len() == 0 {
    } else if less(x, s.last()) {
        let t = s.drop_last();
        let q = inserted(t, x, less);
        assert(ascending(t, less)) by {
            assert forall|i: int, j: int| 0 <= i < j < t.len() implies !less(
                #[trigger] t[j],
                #[trigger] t[i],
            ) by {
                assert(t[j] == s[j] && t[i] == s[i]);
            }
        }
        lemma_inserted_ascending(t, x, less);
        lemma_inserted_elements(t, x, less);
        assert forall|i: int, j: int| 0 <= i < j < r.len() implies !less(
            #[trigger] r[j],
            #[trigger] r[i],
        ) by {
            if j < q.len() {
                assert(r[j] == q[j] && r[i] == q[i]);
            } else {
                assert(r[j] == s.last());
                assert(r[i] == q[i]);
                assert(q.contains(q[i]));
                if q[i] == x {
                    assert(!less(x, x));
                } else {
                    assert(t.contains(q[i]));
                    let k = choose|k: int| 0 <= k < t.len() && t[k] == q[i];
                    assert(s[k] == q[i]);
                    assert(!less(s[s.len() - 1], s[k]));
                }
            }
        }
    } else {
        assert forall|i: int, j: int| 0 <= i < j < r.len() implies !less(
            #[trigger] r[j],
            #[trigger] r[i],
        ) by {
            if j < s.len() {
                assert(r[j] == s[j] && r[i] == s[i]);
            } else {
                assert(r[j] == x);
                assert(r[i] == s[i]);
                let last = s[s.len() - 1];
                if i < s.len() - 1 {
                    assert(!less(last, s[i]));
                    if less(x, s[i]) {
                        if s[i] != last {
                            assert(less(s[i], last) || less(last, s[i]));
                            assert(less(x, s[i]) && less(s[i], last));
                        }
                    }
                }
            }
        }
    }
}

/// Sorting keeps the length and the elements.
pub proof fn lemma_sorted_elements<A>(s: Seq<A>, less: spec_fn(A, A) -> bool)
    ensures
        sorted(s, less).len() == s.len(),
        forall|e: A| #[trigger] sorted(s, less).contains(e) <==> s.contains(e),
    decreases s.len(),
{
    if s.len() > 0 {
        let t = s.drop_last();
        lemma_sorted_elements(t, less);
        lemma_inserted_elements(sorted(t, less), s.last(), less);
        lemma_contains_last(s);
    }
}

/// What sorting gives is ascending.
pub proof fn lemma_sorted_ascending<A>(s: Seq<A>, less: spec_fn(A, A) -> bool)
    requires
        strict_total(less),
    ensures
        ascending(sorted(s, less), less),
    decreases s.len(),
{
    if s.len() > 0 {
        lemma_sorted_ascending(s.drop_last(), less);
        lemma_inserted_ascending(sorted(s.drop_last(), less), s.last(), less);
    }
}

/// Sorting an ascending sequence changes nothing.
pub proof fn lemma_sorted_of_ascending<A>(s: Seq<A>, less: spec_fn(A, A) -> bool)
    requires
        ascending(s, less),
    ensures
        sorted(s, less) == s,
    decreases s.len(),
{
    if s.len() > 0 {
        let t = s.drop_last();
        assert forall|i: int, j: int| 0 <= i < j < t.len() implies !less(
            #[trigger] t[j],
            #[trigger] t[i],
        ) by {
            assert(t[j] == s[j] && t[i] == s[i]);
        }
        lemma_sorted_of_ascending(t, less);
        if t.len() > 0 {
            assert(t.last() == s[s.len() - 2]);
            assert(!less(s[s.len() - 1], s[s.len() - 2]));
        }
        assert(t.push(s.last()) =~= s);
    }
}

/// `distinct` keeps the elements, and no more of them than there were.
pub proof fn lemma_distinct_elements<A>(s: Seq<A>)
    ensures
        distinct(s).len() <= s.len(),
        forall|e: A| #[trigger] distinct(s).contains(e) <==> s.contains(e),
        s.len() > 0 ==> distinct(s).len() > 0 && distinct(s).last() == s.last(),
    decreases s.len(),
{
    if s.len() > 0 {
        let t = s.drop_last();
        let before = distinct(t);
        lemma_distinct_elements(t);
        lemma_contains_last(s);
        if before.len() > 0 && before.last() == s.last() {
            assert(before[before.len() - 1] == s.last());
            assert(before.contains(s.last()));
        } else {
            lemma_contains_push(before, s.last());
        }
    }
}

/// The distinct elements of an ascending sequence are strictly
/// ascending.
pub proof fn lemma_distinct_strict<A>(s: Seq<A>, less: spec_fn(A, A) -> bool)
    requires
        strict_total(less),
        ascending(s, less),
    ensures
        strictly_ascending(distinct(s), less),
    decreases s.len(),
{
    if s.len() > 0 {
        let t = s.drop_last();
        let before = distinct(t);
        let r = distinct(s);
        assert forall|i: int, j: int| 0 <= i < j < t.len() implies !less(
            #[trigger] t[j],
            #[trigger] t[i],
        ) by {
            assert(t[j] == s[j] && t[i] == s[i]);
        }
        lemma_distinct_strict(t, less);
        lemma_distinct_elements(t);
        if !(before.len() > 0 && before.last() == s.last()) {
            assert forall|i: int, j: int| 0 <= i < j < r.len() implies less(
                #[trigger] r[i],
                #[trigger] r[j],
            ) by {
                if j < before.len() {
                    assert(r[i] == before[i] && r[j] == before[j]);
                } else {
                    let x = s[s.len() - 1];
                    let top = before[before.len() - 1];
                    assert(r[j] == x);
                    assert(r[i] == before[i]);
                    // The last element kept is the one before `x` in `s`.
                    assert(top == t.last());
                    assert(t.last() == s[s.len() - 2]);
                    assert(!less(x, s[s.len() - 2]));
                    assert(top != x);
                    assert(less(top, x) || less(x, top));
                    if i < before.len() - 1 {
                        assert(less(before[i], top));
                    }
                }
            }
        }
    }
}

/// A strictly ascending sequence has no element twice, so `distinct`
/// changes nothing.
pub proof fn lemma_distinct_of_strict<A>(s: Seq<A>, less: spec_fn(A, A) -> bool)
    requires
        irreflexive(less),
        strictly_ascending(s, less),
    ensures
        distinct(s) == s,
    decreases s.len(),
{
    if s.len() > 0 {
        let t = s.drop_last();
        assert forall|i: int, j: int| 0 <= i < j < t.len() implies less(
            #[trigger] t[i],
            #[trigger] t[j],
        ) by {
            assert(t[j] == s[j] && t[i] == s[i]);
        }
        lemma_distinct_of_strict(t, less);
        if t.len() > 0 {
            assert(t.last() == s[s.len() - 2]);
            assert(less(s[s.len() - 2], s[s.len() - 1]));
        }
        assert(t.push(s.last()) =~= s);
    }
}

/// `without` keeps exactly the elements that are not banned.
pub proof fn lemma_without_elements<A>(s: Seq<A>, banned: Seq<A>)
    ensures
        without(s, banned).len() <= s.len(),
        forall|e: A| #[trigger]
            without(s, banned).contains(e) <==> s.contains(e) && !banned.contains(e),
    decreases s.len(),
{
    if s.len() > 0 {
        let t = s.drop_last();
        lemma_without_elements(t, banned);
        lemma_contains_last(s);
        if !banned.contains(s.last()) {
            lemma_contains_push(without(t, banned), s.last());
        }
    }
}

/// What `without` leaves of a strictly ascending sequence is strictly
/// ascending.
pub proof fn lemma_without_strict<A>(s: Seq<A>, banned: Seq<A>, less: spec_fn(A, A) -> bool)
    requires
        strictly_ascending(s, less),
    ensures
        strictly_ascending(without(s, banned), less),
    decreases s.len(),
{
    if s.len() > 0 {
        let t = s.drop_last();
        let before = without(t, banned);
        let r = without(s, banned);
        assert forall|i: int, j: int| 0 <= i < j < t.len() implies less(
            #[trigger] t[i],
            #[trigger] t[j],
        ) by {
            assert(t[j] == s[j] && t[i] == s[i]);
        }
        lemma_without_strict(t, banned, less);
        lemma_without_elements(t, banned);
        if !banned.contains(s.last()) {
            assert forall|i: int, j: int| 0 <= i < j < r.len() implies less(
                #[trigger] r[i],
                #[trigger] r[j],
            ) by {
                if j < before.len() {
                    assert(r[i] == before[i] && r[j] == before[j]);
                } else {
                    assert(r[i] == before[i]);
                    assert(before.contains(before[i]));
                    let k = choose|k: int| 0 <= k < t.len() && t[k] == before[i];
                    assert(s[k] == before[i]);
                    assert(less(s[k], s[s.len() - 1]));
                }
            }
        }
    }
}

/// Taking out what does not occur changes nothing.
pub proof fn lemma_without_disjoint<A>(s: Seq<A>, banned: Seq<A>)
    requires
        forall|e: A| s.contains(e) ==> !banned.contains(e),
    ensures
        without(s, banned) == s,
    decreases s.len(),
{
    if s.len() > 0 {
        let t = s.drop_last();
        assert forall|e: A| t.contains(e) implies !banned.contains(e) by {
            let k = choose|k: int| 0 <= k < t.len() && t[k] == e;
            assert(s[k] == e);
        }
        lemma_without_disjoint(t, banned);
        assert(s[s.len() - 1] == s.last());
        assert(s.contains(s.last()));
        assert(t.push(s.last()) =~= s);
    }
}

/// A strictly ascending sequence is ascending.
pub proof fn lemma_strict_is_ascending<A>(s: Seq<A>, less: spec_fn(A, A) -> bool)
    requires
        irreflexive(less),
        transitive(less),
        strictly_ascending(s, less),
    ensures
        ascending(s, less),
{
    assert forall|i: int, j: int| 0 <= i < j < s.len() implies !less(
        #[trigger] s[j],
        #[trigger] s[i],
    ) by {
        assert(less(s[i], s[j]));
        if less(s[j], s[i]) {
            assert(less(s[i], s[i]));
        }
    }
}

} // verus!
