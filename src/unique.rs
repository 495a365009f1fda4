//! Collapsing repositories that share an identity, preferring local clones.

use vstd::prelude::*;

use crate::repo::{Repo, RepoView};
use crate::sort::rviews;

verus! {

/// Same host, owner and name.
pub open spec fn same_id(a: RepoView, b: RepoView) -> bool {
    a.host == b.host && a.owner == b.owner && a.name == b.name
}

/// The entries of `s` that have a local path, in order.
pub open spec fn locals(s: Seq<RepoView>) -> Seq<RepoView>
    decreases s.len(),
{
    if s.len() == 0 {
        Seq::empty()
    } else if s.last().path is Some {
        locals(s.drop_last()).push(s.last())
    } else {
        locals(s.drop_last())
    }
}

/// The entries of `s` without a local path, in order.
pub open spec fn remotes(s: Seq<RepoView>) -> Seq<RepoView>
    decreases s.len(),
{
    if s.len() == 0 {
        Seq::empty()
    } else if s.last().path is None {
        remotes(s.drop_last()).push(s.last())
    } else {
        remotes(s.drop_last())
    }
}

/// An entry before position `i` has the identity of the entry at `i`.
pub open spec fn seen_before(s: Seq<RepoView>, i: int) -> bool {
    exists|j: int| 0 <= j < i && same_id(#[trigger] s[j], s[i])
}

/// The first entry of each identity, in order.
pub open spec fn keep_first(s: Seq<RepoView>) -> Seq<RepoView>
    decreases s.len(),
{
    if s.len() == 0 {
        Seq::empty()
    } else if seen_before(s, s.len() - 1) {
        keep_first(s.drop_last())
    } else {
        keep_first(s.drop_last()).push(s.last())
    }
}

/// One entry per identity: the local entries first, then the remote ones,
/// each identity kept at its first entry in that order.
pub open spec fn unique_spec(s: Seq<RepoView>) -> Seq<RepoView> {
    keep_first(locals(s) + remotes(s))
}

/// Every entry that `keep_first` keeps is an entry of `s`.
pub proof fn lemma_keep_first_from(s: Seq<RepoView>)
    ensures
        forall|k: int|
            #![trigger keep_first(s)[k]]
            0 <= k < keep_first(s).len() ==> exists|f: int|
                0 <= f < s.len() && keep_first(s)[k] == #[trigger] s[f],
    decreases s.len(),
{
    if s.len() > 0 {
        let t = s.drop_last();
        let n = s.len() - 1;
        lemma_keep_first_from(t);
        let p = keep_first(t);
        let u = keep_first(s);
        assert forall|k: int| #![trigger u[k]] 0 <= k < u.len() implies exists|f: int|
            0 <= f < s.len() && u[k] == #[trigger] s[f] by {
            if k < p.len() {
                assert(u[k] == p[k]);
                let f = choose|f: int| 0 <= f < t.len() && p[k] == #[trigger] t[f];
                assert(s[f] == t[f]);
            } else {
                assert(u[k] == s[n]);
            }
        }
    }
}

/// No two entries that `keep_first` keeps share an identity.
pub proof fn lemma_keep_first_distinct(s: Seq<RepoView>)
    ensures
        forall|a: int, b: int|
            0 <= a < b < keep_first(s).len() ==> !same_id(keep_first(s)[a], keep_first(s)[b]),
    decreases s.len(),
{
    if s.len() > 0 {
        let t = s.drop_last();
        let n = s.len() - 1;
        lemma_keep_first_distinct(t);
        lemma_keep_first_from(t);
        let p = keep_first(t);
        let u = keep_first(s);
        if !seen_before(s, n) {
            assert forall|a: int, b: int| 0 <= a < b < u.len() implies !same_id(u[a], u[b]) by {
                assert(u[a] == p[a]);
                if b == p.len() {
                    assert(u[b] == s[n]);
                    let f = choose|f: int| 0 <= f < t.len() && p[a] == #[trigger] t[f];
                    assert(s[f] == t[f]);
                    if same_id(u[a], u[b]) {
                        assert(same_id(s[f], s[n]));
                    }
                } else {
                    assert(u[b] == p[b]);
                }
            }
        }
    }
}

/// The identity of the entry at `i` is kept: at position `r.0` of
/// `keep_first(s)` stands the entry of `s` at `r.1`, at or before `i`.
pub proof fn lemma_kept_at(s: Seq<RepoView>, i: int) -> (r: (int, int))
    requires
        0 <= i < s.len(),
    ensures
        0 <= r.0 < keep_first(s).len(),
        0 <= r.1 <= i,
        keep_first(s)[r.0] == s[r.1],
        same_id(s[r.1], s[i]),
    decreases s.len(),
{
    let t = s.drop_last();
    let n = s.len() - 1;
    let p = keep_first(t);
    if i < n || seen_before(s, n) {
        let i2 = if i < n {
            i
        } else {
            choose|j: int| 0 <= j < n && same_id(#[trigger] s[j], s[n])
        };
        let (k, f) = lemma_kept_at(t, i2);
        assert(s[f] == t[f]);
        assert(s[i2] == t[i2]);
        assert(keep_first(s)[k] == p[k]);
        (k, f)
    } else {
        assert(keep_first(s)[p.len() as int] == s[n]);
        (p.len() as int, n)
    }
}

/// The local entries are exactly the entries of `s` with a local path.
pub proof fn lemma_locals(s: Seq<RepoView>)
    ensures
        forall|k: int|
            0 <= k < locals(s).len() ==> (#[trigger] locals(s)[k]).path is Some && s.contains(
                locals(s)[k],
            ),
        forall|i: int| 0 <= i < s.len() && (#[trigger] s[i]).path is Some ==> locals(s).contains(s[i]),
    decreases s.len(),
{
    if s.len() > 0 {
        let t = s.drop_last();
        lemma_locals(t);
        assert forall|k: int| 0 <= k < locals(s).len() implies (#[trigger] locals(s)[k]).path is Some
            && s.contains(locals(s)[k]) by {
            if k < locals(t).len() {
                assert(locals(s)[k] == locals(t)[k]);
                let f = choose|f: int| 0 <= f < t.len() && t[f] == locals(t)[k];
                assert(s[f] == t[f]);
            } else {
                assert(locals(s)[k] == s[s.len() - 1]);
            }
        }
        assert forall|i: int| 0 <= i < s.len() && (#[trigger] s[i]).path is Some implies locals(
            s,
        ).contains(s[i]) by {
            if i < t.len() {
                assert(s[i] == t[i]);
                let k = choose|k: int| 0 <= k < locals(t).len() && locals(t)[k] == t[i];
                assert(locals(s)[k] == locals(t)[k]);
            } else {
                assert(locals(s)[locals(t).len() as int] == s[i]);
            }
        }
    }
}

/// The remote entries are exactly the entries of `s` without a local path.
pub proof fn lemma_remotes(s: Seq<RepoView>)
    ensures
        forall|k: int|
            0 <= k < remotes(s).len() ==> (#[trigger] remotes(s)[k]).path is None && s.contains(
                remotes(s)[k],
            ),
        forall|i: int| 0 <= i < s.len() && (#[trigger] s[i]).path is None ==> remotes(s).contains(s[i]),
    decreases s.len(),
{
    if s.len() > 0 {
        let t = s.drop_last();
        lemma_remotes(t);
        assert forall|k: int| 0 <= k < remotes(s).len() implies (#[trigger] remotes(s)[k]).path is None
            && s.contains(remotes(s)[k]) by {
            if k < remotes(t).len() {
                assert(remotes(s)[k] == remotes(t)[k]);
                let f = choose|f: int| 0 <= f < t.len() && t[f] == remotes(t)[k];
                assert(s[f] == t[f]);
            } else {
                assert(remotes(s)[k] == s[s.len() - 1]);
            }
        }
        assert forall|i: int| 0 <= i < s.len() && (#[trigger] s[i]).path is None implies remotes(
            s,
        ).contains(s[i]) by {
            if i < t.len() {
                assert(s[i] == t[i]);
                let k = choose|k: int| 0 <= k < remotes(t).len() && remotes(t)[k] == t[i];
                assert(remotes(s)[k] == remotes(t)[k]);
            } else {
                assert(remotes(s)[remotes(t).len() as int] == s[i]);
            }
        }
    }
}

/// The entry that stands for the identity of `s[i]` after deduplication: an
/// entry of `s` with that identity, local where `s[i]` is.
pub proof fn lemma_unique_at(s: Seq<RepoView>, i: int) -> (r: (int, int))
    requires
        0 <= i < s.len(),
    ensures
        0 <= r.0 < unique_spec(s).len(),
        0 <= r.1 < s.len(),
        unique_spec(s)[r.0] == s[r.1],
        same_id(s[r.1], s[i]),
        s[i].path is Some ==> s[r.1].path is Some,
{
    let l = locals(s);
    let c = l + remotes(s);
    lemma_locals(s);
    lemma_remotes(s);
    let m = if s[i].path is Some {
        choose|m: int| 0 <= m < l.len() && l[m] == s[i]
    } else {
        let m2 = choose|m2: int| 0 <= m2 < remotes(s).len() && remotes(s)[m2] == s[i];
        l.len() + m2
    };
    assert(c[m] == s[i]);
    let (k, f) = lemma_kept_at(c, m);
    let j = if f < l.len() {
        assert(c[f] == l[f]);
        assert(l[f].path is Some && s.contains(l[f]));
        choose|j: int| 0 <= j < s.len() && s[j] == l[f]
    } else {
        assert(c[f] == remotes(s)[f - l.len()]);
        assert(s.contains(remotes(s)[f - l.len()]));
        choose|j: int| 0 <= j < s.len() && s[j] == remotes(s)[f - l.len()]
    };
    (k, j)
}

/// Deduplication keeps one entry per identity and prefers local clones: no
/// two entries of the result share an identity; every identity of the
/// input is in the result, as a local entry where the input has one; and a
/// local entry that is the only local one of its identity is itself in the
/// result.
pub proof fn law_unique_prefers_local(s: Seq<RepoView>)
    ensures
        forall|a: int, b: int|
            0 <= a < b < unique_spec(s).len() ==> !same_id(unique_spec(s)[a], unique_spec(s)[b]),
        forall|i: int|
            #![trigger s[i]]
            0 <= i < s.len() ==> exists|k: int|
                0 <= k < unique_spec(s).len() && same_id(#[trigger] unique_spec(s)[k], s[i]) && (
                s[i].path is Some ==> unique_spec(s)[k].path is Some),
        forall|i: int|
            #![trigger s[i]]
            0 <= i < s.len() && s[i].path is Some && (forall|j: int|
                0 <= j < s.len() && j != i && same_id(#[trigger] s[j], s[i]) ==> s[j].path is None)
                ==> unique_spec(s).contains(s[i]),
{
    let u = unique_spec(s);
    lemma_keep_first_distinct(locals(s) + remotes(s));
    assert forall|i: int| #![trigger s[i]] 0 <= i < s.len() implies exists|k: int|
        0 <= k < u.len() && same_id(#[trigger] u[k], s[i]) && (s[i].path is Some
            ==> u[k].path is Some) by {
        let (k, j) = lemma_unique_at(s, i);
    }
    assert forall|i: int|
        #![trigger s[i]]
        0 <= i < s.len() && s[i].path is Some && (forall|j: int|
            0 <= j < s.len() && j != i && same_id(#[trigger] s[j], s[i]) ==> s[j].path is None) implies u.contains(
        s[i]) by {
        let (k, j) = lemma_unique_at(s, i);
        if j != i {
            assert(s[j].path is None);
        }
        assert(u[k] == s[i]);
    }
}

/// Removes repeated identities, keeping local clones over remote references.
pub fn filter_unique_repos(repos: &Vec<Repo>) -> (r: Vec<Repo>)
    ensures
        rviews(r@) == unique_spec(rviews(repos@)),
{
    let ghost s = rviews(repos@);
    let mut ordered: Vec<Repo> = Vec::new();
    let mut i: usize = 0;
    assert(s.take(0) =~= Seq::<RepoView>::empty());
    assert(rviews(ordered@) =~= Seq::<RepoView>::empty());
    while i < repos.len()
        invariant
            i <= repos.len(),
            s == rviews(repos@),
            rviews(ordered@) == locals(s.take(i as int)),
        decreases repos.len() - i,
    {
        assert(s.take(i + 1).drop_last() =~= s.take(i as int));
        assert(s.take(i + 1).last() == repos[i as int]@);
        if repos[i].path.is_some() {
            let ghost before = ordered@;
            ordered.push(repos[i].copy());
            assert(rviews(ordered@) =~= rviews(before).push(repos[i as int]@));
        }
        i = i + 1;
    }
    assert(s.take(i as int) =~= s);
    i = 0;
    assert(rviews(ordered@) =~= locals(s) + remotes(s.take(0)));
    while i < repos.len()
        invariant
            i <= repos.len(),
            s == rviews(repos@),
            rviews(ordered@) == locals(s) + remotes(s.take(i as int)),
        decreases repos.len() - i,
    {
        assert(s.take(i + 1).drop_last() =~= s.take(i as int));
        assert(s.take(i + 1).last() == repos[i as int]@);
        if repos[i].path.is_none() {
            let ghost before = ordered@;
            ordered.push(repos[i].copy());
            assert(rviews(ordered@) =~= rviews(before).push(repos[i as int]@));
        }
        i = i + 1;
    }
    assert(s.take(i as int) =~= s);
    let ghost c = rviews(ordered@);
    let mut out: Vec<Repo> = Vec::new();
    i = 0;
    assert(c.take(0) =~= Seq::<RepoView>::empty());
    assert(rviews(out@) =~= Seq::<RepoView>::empty());
    while i < ordered.len()
        invariant
            i <= ordered.len(),
            c == rviews(ordered@),
            rviews(out@) == keep_first(c.take(i as int)),
        decreases ordered.len() - i,
    {
        let mut seen = false;
        let mut j: usize = 0;
        while j < i
            invariant
                j <= i < ordered.len(),
                c == rviews(ordered@),
                seen == exists|m: int| 0 <= m < j && same_id(#[trigger] c[m], c[i as int]),
            decreases i - j,
        {
            let same = ordered[j] == ordered[i];
            assert(c[j as int] == ordered@[j as int]@);
            assert(c[i as int] == ordered@[i as int]@);
            assert(same == same_id(c[j as int], c[i as int]));
            if same {
                seen = true;
            }
            j = j + 1;
        }
        let ghost ci = c.take(i + 1);
        assert(ci.drop_last() =~= c.take(i as int));
        assert(ci.last() == c[i as int]);
        assert(seen == seen_before(ci, i as int)) by {
            if seen {
                let m = choose|m: int| 0 <= m < j && same_id(#[trigger] c[m], c[i as int]);
                assert(ci[m] == c[m]);
            }
            if seen_before(ci, i as int) {
                let m = choose|m: int| 0 <= m < i && same_id(#[trigger] ci[m], ci[i as int]);
                assert(ci[m] == c[m]);
            }
        }
        if !seen {
            let ghost before = out@;
            out.push(ordered[i].copy());
            assert(rviews(out@) =~= rviews(before).push(c[i as int]));
        }
        i = i + 1;
    }
    assert(c.take(i as int) =~= c);
    out
}

} // verus!
