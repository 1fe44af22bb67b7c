//! Lexicographic order on character sequences, and sorted sets of strings.

use vstd::prelude::*;
use vstd::multiset::Multiset;


verus! {

/// `a` sorts strictly before `b` (std `str` ordering: UTF-8 byte order,
/// which is the order of code points).
pub open spec fn lex_lt(a: Seq<char>, b: Seq<char>) -> bool
    decreases a.len(),
{
    if a.len() == 0 {
        b.len() > 0
    } else if b.len() == 0 {
        false
    } else if a[0] < b[0] {
        true
    } else if a[0] == b[0] {
        lex_lt(a.drop_first(), b.drop_first())
    } else {
        false
    }
}

pub proof fn lemma_lex_irreflexive(a: Seq<char>)
    ensures
        !lex_lt(a, a),
    decreases a.len(),
{
    if a.len() > 0 {
        lemma_lex_irreflexive(a.drop_first());
    }
}

pub proof fn lemma_lex_transitive(a: Seq<char>, b: Seq<char>, c: Seq<char>)
    requires
        lex_lt(a, b),
        lex_lt(b, c),
    ensures
        lex_lt(a, c),
    decreases a.len(),
{
    if a.len() > 0 && b.len() > 0 && c.len() > 0 && a[0] == b[0] && b[0] == c[0] {
        lemma_lex_transitive(a.drop_first(), b.drop_first(), c.drop_first());
    }
}

pub proof fn lemma_lex_total(a: Seq<char>, b: Seq<char>)
    ensures
        a == b || lex_lt(a, b) || lex_lt(b, a),
    decreases a.len(),
{
    if a.len() > 0 && b.len() > 0 && a[0] == b[0] {
        lemma_lex_total(a.drop_first(), b.drop_first());
        if a.drop_first() == b.drop_first() {
            assert(a =~= seq![a[0]] + a.drop_first());
            assert(b =~= seq![b[0]] + b.drop_first());
        }
    } else if a.len() == 0 && b.len() == 0 {
        assert(a =~= b);
    } else if a.len() > 0 && b.len() > 0 {
        assert(a[0] != b[0]);
    }
}

pub proof fn lemma_lex_asymmetric(a: Seq<char>, b: Seq<char>)
    requires
        lex_lt(a, b),
    ensures
        !lex_lt(b, a),
{
    if lex_lt(b, a) {
        lemma_lex_transitive(a, b, a);
        lemma_lex_irreflexive(a);
    }
}

/// `s` is strictly increasing, hence free of duplicates.
pub open spec fn strictly_sorted(s: Seq<Seq<char>>) -> bool {
    forall|i: int, j: int| 0 <= i < j < s.len() ==> lex_lt(#[trigger] s[i], #[trigger] s[j])
}

/// Whether `a` sorts strictly before `b`.
pub fn lex_lt_exec(a: &[char], b: &[char]) -> (r: bool)
    ensures
        r == lex_lt(a@, b@),
{
    let mut i: usize = 0;
    proof {
        assert(a@.skip(0) =~= a@);
        assert(b@.skip(0) =~= b@);
    }
    while i < a.len() && i < b.len() && a[i] == b[i]
        invariant
            i <= a@.len(),
            i <= b@.len(),
            lex_lt(a@, b@) == lex_lt(a@.skip(i as int), b@.skip(i as int)),
        decreases a@.len() - i,
    {
        assert(a@.skip(i as int).drop_first() =~= a@.skip(i as int + 1));
        assert(b@.skip(i as int).drop_first() =~= b@.skip(i as int + 1));
        i = i + 1;
    }
    if i == a.len() {
        i < b.len()
    } else if i == b.len() {
        false
    } else {
        a[i] < b[i]
    }
}

/// Insert `x` into the strictly sorted `v` unless it is already there.
pub fn insert_sorted_unique(v: &mut Vec<Vec<char>>, x: Vec<char>)
    requires
        strictly_sorted(crate::textops::views(old(v)@)),
    ensures
        strictly_sorted(crate::textops::views(final(v)@)),
        crate::textops::views(final(v)@).to_set() == crate::textops::views(old(v)@).to_set().insert(
            x@,
        ),
{
    let ghost old_v = crate::textops::views(v@);
    let mut j: usize = 0;
    while j < v.len() && lex_lt_exec(v[j].as_slice(), x.as_slice())
        invariant
            j <= v@.len(),
            crate::textops::views(v@) == old_v,
            forall|k: int| 0 <= k < j ==> lex_lt(#[trigger] old_v[k], x@),
        decreases v@.len() - j,
    {
        j = j + 1;
    }
    if j < v.len() && crate::text::chars_eq(v[j].as_slice(), x.as_slice()) {
        proof {
            assert(old_v[j as int] == x@);
            assert(old_v.to_set().insert(x@) =~= old_v.to_set());
        }
        return;
    }
    let ghost xv = x@;
    proof {
        if j < old_v.len() {
            lemma_lex_total(old_v[j as int], xv);
            assert(lex_lt(xv, old_v[j as int]));
        }
    }
    v.insert(j, x);
    let ghost nv = crate::textops::views(v@);
    proof {
        assert(nv =~= old_v.insert(j as int, xv));
        assert forall|a: int, b: int| 0 <= a < b < nv.len() implies lex_lt(
            #[trigger] nv[a],
            #[trigger] nv[b],
        ) by {
            if b > j {
                if b - 1 > j {
                    lemma_lex_transitive(xv, old_v[j as int], old_v[b - 1]);
                }
                assert(lex_lt(xv, old_v[b - 1]));
                if a < j {
                    lemma_lex_transitive(old_v[a], xv, old_v[b - 1]);
                }
            }
        }
        assert(nv.to_set() =~= old_v.to_set().insert(xv)) by {
            assert forall|e: Seq<char>| nv.to_set().contains(e) <==> old_v.to_set().insert(
                xv,
            ).contains(e) by {
                if nv.to_set().contains(e) {
                    let k = choose|k: int| 0 <= k < nv.len() && nv[k] == e;
                    if k < j {
                        assert(old_v[k] == e);
                    } else if k > j {
                        assert(old_v[k - 1] == e);
                    }
                }
                if old_v.to_set().contains(e) {
                    let k = choose|k: int| 0 <= k < old_v.len() && old_v[k] == e;
                    if k < j {
                        assert(nv[k] == e);
                    } else {
                        assert(nv[k + 1] == e);
                    }
                }
                if e == xv {
                    assert(nv[j as int] == e);
                }
            }
        }
    }
}

} // verus!

verus! {

/// Two strictly sorted sequences with the same elements are the same sequence.
pub proof fn lemma_sorted_same_set(a: Seq<Seq<char>>, b: Seq<Seq<char>>)
    requires
        strictly_sorted(a),
        strictly_sorted(b),
        a.to_set() == b.to_set(),
    ensures
        a == b,
    decreases a.len(),
{
    if a.len() == 0 {
        if b.len() > 0 {
            assert(b.to_set().contains(b[0]));
        }
        assert(a =~= b);
    } else {
        assert(a.to_set().contains(a[0]));
        assert(b.len() > 0) by {
            assert(b.to_set().contains(a[0]));
        }
        assert(b.to_set().contains(b[0]));
        let k = choose|k: int| 0 <= k < b.len() && b[k] == a[0];
        let m = choose|m: int| 0 <= m < a.len() && a[m] == b[0];
        if k > 0 {
            if m > 0 {
                assert(lex_lt(b[0], b[k]));
                assert(lex_lt(a[0], a[m]));
                lemma_lex_asymmetric(b[0], a[0]);
            } else {
                assert(lex_lt(b[0], b[k]));
                lemma_lex_irreflexive(a[0]);
            }
        }
        assert(a[0] == b[0]);
        let a1 = a.drop_first();
        let b1 = b.drop_first();
        assert(a1.to_set() == b1.to_set()) by {
            assert forall|e: Seq<char>| a1.to_set().contains(e) <==> b1.to_set().contains(e) by {
                if a1.to_set().contains(e) {
                    let i = choose|i: int| 0 <= i < a1.len() && a1[i] == e;
                    assert(a.to_set().contains(e));
                    let j = choose|j: int| 0 <= j < b.len() && b[j] == e;
                    assert(lex_lt(a[0], a[i + 1]));
                    if j == 0 {
                        lemma_lex_irreflexive(e);
                    }
                    assert(b1[j - 1] == e);
                }
                if b1.to_set().contains(e) {
                    let i = choose|i: int| 0 <= i < b1.len() && b1[i] == e;
                    assert(b.to_set().contains(e));
                    let j = choose|j: int| 0 <= j < a.len() && a[j] == e;
                    assert(lex_lt(b[0], b[i + 1]));
                    if j == 0 {
                        lemma_lex_irreflexive(e);
                    }
                    assert(a1[j - 1] == e);
                }
            }
            assert(a1.to_set() =~= b1.to_set());
        }
        lemma_sorted_same_set(a1, b1);
        assert(a =~= seq![a[0]] + a1);
        assert(b =~= seq![b[0]] + b1);
    }
}

/// The strictly sorted sequence of the elements of the finite set `s`.
pub open spec fn sorted_elements(s: Set<Seq<char>>) -> Seq<Seq<char>> {
    choose|q: Seq<Seq<char>>| strictly_sorted(q) && q.to_set() == s
}

pub proof fn lemma_sorted_elements(q: Seq<Seq<char>>)
    requires
        strictly_sorted(q),
    ensures
        sorted_elements(q.to_set()) == q,
{
    let s = q.to_set();
    assert(exists|r: Seq<Seq<char>>| strictly_sorted(r) && r.to_set() == s);
    let r = sorted_elements(s);
    lemma_sorted_same_set(r, q);
}

/// No element of `s` should come before an earlier one under `before`.
pub open spec fn sorted_by<T>(s: Seq<T>, before: spec_fn(T, T) -> bool) -> bool {
    forall|j: int, k: int| 0 <= j < k < s.len() ==> !before(#[trigger] s[k], #[trigger] s[j])
}

/// `before` is transitive.
pub open spec fn transitive<T>(before: spec_fn(T, T) -> bool) -> bool {
    forall|a: T, b: T, c: T| #[trigger] before(a, b) && #[trigger] before(b, c) ==> before(a, c)
}

/// `before` never relates an element to itself.
pub open spec fn irreflexive<T>(before: spec_fn(T, T) -> bool) -> bool {
    forall|a: T| !#[trigger] before(a, a)
}

/// The elements of `v`, sorted by `before` (an element goes after all
/// those it does not come before, so ties keep their order).
pub fn sort_by_before<T, F: Fn(&T, &T) -> bool>(v: Vec<T>, goes_first: F, Ghost(before): Ghost<spec_fn(T, T) -> bool>) -> (r: Vec<T>)
    requires
        forall|a: T, b: T| #[trigger] goes_first.requires((&a, &b)),
        forall|a: T, b: T, x: bool| goes_first.ensures((&a, &b), x) ==> x == before(a, b),
        transitive(before),
        irreflexive(before),
    ensures
        sorted_by(r@, before),
        r@.to_multiset() == v@.to_multiset(),
{
    let mut rest = v;
    let mut r: Vec<T> = Vec::new();
    let ghost orig = rest@;
    proof {
        assert(r@.to_multiset() =~= Multiset::empty()) by {
            vstd::seq_lib::to_multiset_len(r@);
        }
        assert(orig.to_multiset() =~= rest@.to_multiset().add(r@.to_multiset()));
    }
    while rest.len() > 0
        invariant
            forall|a: T, b: T| #[trigger] goes_first.requires((&a, &b)),
            forall|a: T, b: T, x: bool| goes_first.ensures((&a, &b), x) ==> x == before(a, b),
            transitive(before),
            irreflexive(before),
            sorted_by(r@, before),
            orig.to_multiset() == rest@.to_multiset().add(r@.to_multiset()),
        decreases rest@.len(),
    {
        let ghost rest0 = rest@;
        let x = rest.remove(0);
        proof {
            vstd::seq_lib::to_multiset_remove(rest0, 0);
            assert(rest@ =~= rest0.remove(0));
            assert(rest0.to_multiset().count(x) > 0) by {
                vstd::seq_lib::to_multiset_contains(rest0, x);
                assert(rest0.contains(x)) by {
                    assert(rest0[0] == x);
                }
            }
            assert(rest0.to_multiset() =~= rest@.to_multiset().insert(x));
        }
        let mut p: usize = 0;
        let mut found = false;
        while p < r.len()
            invariant_except_break
                !found,
            invariant
                p <= r@.len(),
                forall|a: T, b: T| #[trigger] goes_first.requires((&a, &b)),
                forall|a: T, b: T, x: bool| goes_first.ensures((&a, &b), x) ==> x == before(a, b),
                forall|j: int| 0 <= j < p ==> !before(x, #[trigger] r@[j]),
            ensures
                p <= r@.len(),
                found ==> p < r@.len() && before(x, r@[p as int]),
                !found ==> p == r@.len(),
            decreases r@.len() - p,
        {
            if goes_first(&x, &r[p]) {
                found = true;
                break;
            }
            p = p + 1;
        }
        let ghost r0 = r@;
        r.insert(p, x);
        proof {
            r0.insert_ensures(p as int, x);
            assert forall|j: int, k: int| 0 <= j < k < r@.len() implies !before(#[trigger] r@[k], #[trigger] r@[j]) by {
                if k < p {
                    assert(r@[k] == r0[k]);
                    assert(r@[j] == r0[j]);
                } else if k == p {
                    assert(r@[j] == r0[j]);
                } else if j < p {
                    assert(r@[k] == r0[k - 1]);
                    assert(r@[j] == r0[j]);
                } else if j == p {
                    assert(r@[k] == r0[k - 1]);
                    assert(found);
                    assert(before(x, r0[p as int]));
                    if before(r0[k - 1], x) {
                        assert(before(r0[k - 1], r0[p as int]));
                        if k - 1 > p {
                            assert(!before(r0[k - 1], r0[p as int]));
                        } else {
                            assert(!before(r0[p as int], r0[p as int]));
                        }
                    }
                } else {
                    assert(r@[k] == r0[k - 1]);
                    assert(r@[j] == r0[j - 1]);
                }
            }
            vstd::seq_lib::to_multiset_insert(r0, p as int, x);
            assert(r@ =~= r0.insert(p as int, x));
            assert(orig.to_multiset() =~= rest@.to_multiset().add(r@.to_multiset()));
        }
    }
    proof {
        vstd::seq_lib::to_multiset_len(rest@);
        assert(rest@.to_multiset() =~= Multiset::empty());
        assert(orig.to_multiset() =~= r@.to_multiset());
    }
    r
}

} // verus!
