//! Stable insertion sort on repositories and strings, specified as a spec
//! function so that every ordering the library produces is determined.

use vstd::prelude::*;
use vstd::seq_lib::to_multiset_insert;

use crate::repo::{Repo, RepoView};
use crate::text::{
    lemma_lex_le_total, lemma_lex_le_transitive, lex_le, lower_of, lowercase, str_le, views,
};

verus! {

/// A field of a repository that listings can be sorted by.
#[derive(Clone, Copy, Debug, PartialEq, Eq, Structural)]
pub enum SortByComponent {
    Host,
    Name,
    Owner,
}

/// The field of `r` that `by` names.
pub open spec fn component_of(r: RepoView, by: SortByComponent) -> Seq<char> {
    match by {
        SortByComponent::Host => r.host,
        SortByComponent::Name => r.name,
        SortByComponent::Owner => r.owner,
    }
}

/// Sorting key: the field that `by` names.
pub open spec fn component_key(by: SortByComponent) -> spec_fn(RepoView) -> Seq<char> {
    |r: RepoView| component_of(r, by)
}

/// Sorting key: the lower-case form of a string.
pub open spec fn folded_key() -> spec_fn(Seq<char>) -> Seq<char> {
    |s: Seq<char>| lower_of(s)
}

/// The views of a sequence of repositories.
pub open spec fn rviews(s: Seq<Repo>) -> Seq<RepoView> {
    s.map_values(|r: Repo| r@)
}

/// Where a stable insertion puts an element with key `k` into `s`: after the
/// last element, scanning from the end, whose key is not above `k`.
pub open spec fn insert_pos<T>(s: Seq<T>, k: Seq<char>, key: spec_fn(T) -> Seq<char>) -> int
    decreases s.len(),
{
    if s.len() == 0 {
        0
    } else if lex_le(key(s.last()), k) {
        s.len() as int
    } else {
        insert_pos(s.drop_last(), k, key)
    }
}

/// `s` sorted by `key` in the order of `lex_le`, equal keys in their order in `s`.
pub open spec fn isort<T>(s: Seq<T>, key: spec_fn(T) -> Seq<char>) -> Seq<T>
    decreases s.len(),
{
    if s.len() == 0 {
        Seq::empty()
    } else {
        let t = isort(s.drop_last(), key);
        t.insert(insert_pos(t, key(s.last()), key), s.last())
    }
}

/// The keys of `s` never decrease.
pub open spec fn sorted_by<T>(s: Seq<T>, key: spec_fn(T) -> Seq<char>) -> bool {
    forall|a: int, b: int| 0 <= a < b < s.len() ==> lex_le(key(s[a]), key(s[b]))
}

/// `lex_le` is reflexive.
pub proof fn lemma_lex_le_refl(a: Seq<char>)
    ensures
        lex_le(a, a),
    decreases a.len(),
{
    if a.len() > 0 {
        lemma_lex_le_refl(a.drop_first());
    }
}

/// What `insert_pos` guarantees about its position.
pub proof fn lemma_insert_pos<T>(s: Seq<T>, k: Seq<char>, key: spec_fn(T) -> Seq<char>)
    ensures
        0 <= insert_pos(s, k, key) <= s.len(),
        insert_pos(s, k, key) > 0 ==> lex_le(key(s[insert_pos(s, k, key) - 1]), k),
        forall|j: int| insert_pos(s, k, key) <= j < s.len() ==> !lex_le(key(s[j]), k),
    decreases s.len(),
{
    if s.len() > 0 && !lex_le(key(s.last()), k) {
        let t = s.drop_last();
        lemma_insert_pos(t, k, key);
        assert forall|j: int| insert_pos(s, k, key) <= j < s.len() implies !lex_le(key(s[j]), k) by {
            if j < s.len() - 1 {
                assert(s[j] == t[j]);
            }
        }
    }
}

/// Inserting at `insert_pos` keeps a sorted sequence sorted.
#[verifier::rlimit(30)]
pub proof fn lemma_insert_sorted<T>(t: Seq<T>, x: T, key: spec_fn(T) -> Seq<char>)
    requires
        sorted_by(t, key),
    ensures
        sorted_by(t.insert(insert_pos(t, key(x), key), x), key),
{
    let p = insert_pos(t, key(x), key);
    lemma_insert_pos(t, key(x), key);
    let u = t.insert(p, x);
    t.insert_ensures(p, x);
    assert forall|a: int, b: int| 0 <= a < b < u.len() implies lex_le(key(u[a]), key(u[b])) by {
        if b < p {
            assert(u[a] == t[a] && u[b] == t[b]);
            assert(lex_le(key(t[a]), key(t[b])));
        } else if b == p {
            assert(u[a] == t[a] && u[b] == x);
            lemma_lex_le_refl(key(t[a]));
            if a < p - 1 {
                assert(lex_le(key(t[a]), key(t[p - 1])));
            }
            lemma_lex_le_transitive(key(t[a]), key(t[p - 1]), key(x));
        } else if a < p {
            assert(u[a] == t[a] && u[b] == t[b - 1]);
            assert(lex_le(key(t[a]), key(t[b - 1])));
        } else if a == p {
            assert(u[a] == x && u[b] == t[b - 1]);
            assert(!lex_le(key(t[b - 1]), key(x)));
            lemma_lex_le_total(key(t[b - 1]), key(x));
        } else {
            assert(u[a] == t[a - 1] && u[b] == t[b - 1]);
            assert(lex_le(key(t[a - 1]), key(t[b - 1])));
        }
    }
}

/// `isort` sorts, and rearranges its input: the result holds the same
/// elements, each as often.
pub proof fn lemma_isort<T>(s: Seq<T>, key: spec_fn(T) -> Seq<char>)
    ensures
        sorted_by(isort(s, key), key),
        isort(s, key).to_multiset() == s.to_multiset(),
        isort(s, key).len() == s.len(),
    decreases s.len(),
{
    broadcast use to_multiset_insert;
    broadcast use vstd::seq_lib::to_multiset_build;

    if s.len() == 0 {
        assert(s =~= Seq::<T>::empty());
    } else {
        let t = isort(s.drop_last(), key);
        lemma_isort(s.drop_last(), key);
        lemma_insert_sorted(t, s.last(), key);
        lemma_insert_pos(t, key(s.last()), key);
        assert(s.drop_last().push(s.last()) =~= s);
    }
}

/// The test "the key is `k`".
pub open spec fn key_is<T>(key: spec_fn(T) -> Seq<char>, k: Seq<char>) -> spec_fn(T) -> bool {
    |x: T| key(x) == k
}

/// The entries of `s` whose key is `k`, in their order in `s`.
pub open spec fn with_key<T>(s: Seq<T>, key: spec_fn(T) -> Seq<char>, k: Seq<char>) -> Seq<T> {
    s.filter(key_is(key, k))
}

/// Filtering keeps nothing of a sequence none of whose entries passes.
pub proof fn lemma_filter_none<T>(s: Seq<T>, pred: spec_fn(T) -> bool)
    requires
        forall|i: int| 0 <= i < s.len() ==> !pred(#[trigger] s[i]),
    ensures
        s.filter(pred) == Seq::<T>::empty(),
    decreases s.len(),
{
    reveal(Seq::filter);
    if s.len() > 0 {
        lemma_filter_none(s.drop_last(), pred);
        assert(!pred(s[s.len() - 1]));
    }
}

/// Filtering a single entry keeps it exactly when it passes.
pub proof fn lemma_filter_single<T>(x: T, pred: spec_fn(T) -> bool)
    ensures
        seq![x].filter(pred) == (if pred(x) {
            seq![x]
        } else {
            Seq::<T>::empty()
        }),
{
    reveal(Seq::filter);
    assert(seq![x].drop_last() =~= Seq::<T>::empty());
    lemma_filter_none(Seq::<T>::empty(), pred);
    assert(seq![x].last() == x);
    assert(Seq::<T>::empty().push(x) =~= seq![x]);
}

/// Stability: `isort` keeps the entries that share a key in their order.
pub proof fn lemma_isort_stable<T>(s: Seq<T>, key: spec_fn(T) -> Seq<char>, k: Seq<char>)
    ensures
        with_key(isort(s, key), key, k) == with_key(s, key, k),
    decreases s.len(),
{
    if s.len() > 0 {
        let pred = key_is(key, k);
        let d = s.drop_last();
        let x = s.last();
        let t = isort(d, key);
        lemma_isort_stable(d, key, k);
        let p = insert_pos(t, key(x), key);
        lemma_insert_pos(t, key(x), key);
        let a = t.take(p);
        let b = t.skip(p);
        assert(t.insert(p, x) =~= a + seq![x] + b);
        assert(t =~= a + b);
        assert(s =~= d + seq![x]);
        Seq::filter_distributes_over_add(a + seq![x], b, pred);
        Seq::filter_distributes_over_add(a, seq![x], pred);
        Seq::filter_distributes_over_add(a, b, pred);
        Seq::filter_distributes_over_add(d, seq![x], pred);
        lemma_filter_single(x, pred);
        if pred(x) {
            assert forall|i: int| 0 <= i < b.len() implies !pred(#[trigger] b[i]) by {
                assert(b[i] == t[p + i]);
                lemma_lex_le_refl(key(x));
                assert(key(b[i]) != key(x));
            }
            lemma_filter_none(b, pred);
            assert(a.filter(pred) + seq![x] + b.filter(pred) =~= a.filter(pred) + b.filter(pred)
                + seq![x]);
        } else {
            assert(a.filter(pred) + Seq::<T>::empty() + b.filter(pred) =~= a.filter(pred)
                + b.filter(pred));
            assert(d.filter(pred) + Seq::<T>::empty() =~= d.filter(pred));
        }
    }
}

/// The field of `r` that `by` names.
pub fn component(r: &Repo, by: SortByComponent) -> (c: &String)
    ensures
        c@ == component_of(r@, by),
{
    match by {
        SortByComponent::Host => &r.host,
        SortByComponent::Name => &r.name,
        SortByComponent::Owner => &r.owner,
    }
}

/// Sorts repositories by a field, case-sensitively; equal fields keep their
/// order.
pub fn sort_repos(items: &Vec<Repo>, by: SortByComponent) -> (r: Vec<Repo>)
    ensures
        rviews(r@) == isort(rviews(items@), component_key(by)),
{
    let ghost key = component_key(by);
    let mut out: Vec<Repo> = Vec::new();
    let mut i: usize = 0;
    assert(rviews(items@).take(0) =~= Seq::<RepoView>::empty());
    assert(rviews(out@) =~= Seq::<RepoView>::empty());
    while i < items.len()
        invariant
            i <= items.len(),
            key == component_key(by),
            rviews(out@) == isort(rviews(items@).take(i as int), key),
        decreases items.len() - i,
    {
        let x = items[i].copy();
        let ghost t = rviews(out@);
        let mut pos: usize = out.len();
        assert(t.take(pos as int) =~= t);
        loop
            invariant
                pos <= out.len(),
                t == rviews(out@),
                key == component_key(by),
                insert_pos(t, key(x@), key) == insert_pos(t.take(pos as int), key(x@), key),
            ensures
                pos <= out.len(),
                insert_pos(t, key(x@), key) == pos,
            decreases pos,
        {
            if pos == 0 {
                assert(t.take(0).len() == 0);
                break;
            }
            if str_le(component(&out[pos - 1], by).as_str(), component(&x, by).as_str()) {
                assert(t.take(pos as int).last() == t[pos - 1]);
                break;
            }
            assert(t.take(pos as int).drop_last() =~= t.take(pos - 1));
            pos = pos - 1;
        }
        out.insert(pos, x);
        assert(rviews(items@).take(i + 1).drop_last() =~= rviews(items@).take(i as int));
        assert(rviews(items@).take(i + 1).last() == x@);
        assert(rviews(out@) =~= t.insert(pos as int, x@));
        i = i + 1;
    }
    assert(rviews(items@).take(i as int) =~= rviews(items@));
    out
}

/// Sorts strings ignoring case (by their lower-case forms); strings that
/// are equal once lower-cased keep their order.
pub fn sort_ignoring_case(items: &Vec<String>) -> (r: Vec<String>)
    ensures
        views(r@) == isort(views(items@), folded_key()),
{
    let ghost key = folded_key();
    let mut out: Vec<String> = Vec::new();
    let mut i: usize = 0;
    assert(views(items@).take(0) =~= Seq::<Seq<char>>::empty());
    assert(views(out@) =~= Seq::<Seq<char>>::empty());
    while i < items.len()
        invariant
            i <= items.len(),
            key == folded_key(),
            views(out@) == isort(views(items@).take(i as int), key),
        decreases items.len() - i,
    {
        let x = items[i].clone();
        let lx = lowercase(x.as_str());
        let ghost t = views(out@);
        let mut pos: usize = out.len();
        assert(t.take(pos as int) =~= t);
        loop
            invariant
                pos <= out.len(),
                t == views(out@),
                key == folded_key(),
                lx@ == key(x@),
                insert_pos(t, key(x@), key) == insert_pos(t.take(pos as int), key(x@), key),
            ensures
                pos <= out.len(),
                insert_pos(t, key(x@), key) == pos,
            decreases pos,
        {
            if pos == 0 {
                assert(t.take(0).len() == 0);
                break;
            }
            let ly = lowercase(out[pos - 1].as_str());
            if str_le(ly.as_str(), lx.as_str()) {
                assert(t.take(pos as int).last() == t[pos - 1]);
                break;
            }
            assert(t.take(pos as int).drop_last() =~= t.take(pos - 1));
            pos = pos - 1;
        }
        out.insert(pos, x);
        assert(views(items@).take(i + 1).drop_last() =~= views(items@).take(i as int));
        assert(views(items@).take(i + 1).last() == x@);
        assert(views(out@) =~= t.insert(pos as int, x@));
        i = i + 1;
    }
    assert(views(items@).take(i as int) =~= views(items@));
    out
}

} // verus!
