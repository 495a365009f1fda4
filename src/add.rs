//! Deciding which repositories to bring under the root directory.

use vstd::prelude::*;

use crate::reference::{is_managed, managed_contains};
use crate::repo::{managed_path, Repo, RepoView};
use crate::sort::rviews;
use crate::unique::{filter_unique_repos, unique_spec};

verus! {

/// A repository to bring in: cloned or moved from `source` to `target`.
pub struct Addition {
    pub source: String,
    pub target: String,
}

/// Where a repository is brought in from: its local clone, else its url.
pub open spec fn source_of(r: RepoView) -> Seq<char> {
    match r.path {
        Some(p) => p,
        None => r.url,
    }
}

/// The additions for `s`, in order: each repository that is not yet
/// managed, or every one under `force`.
pub open spec fn additions_spec(
    s: Seq<RepoView>,
    root: Seq<char>,
    managed: Seq<RepoView>,
    force: bool,
) -> Seq<(Seq<char>, Seq<char>)>
    decreases s.len(),
{
    if s.len() == 0 {
        Seq::empty()
    } else {
        let p = additions_spec(s.drop_last(), root, managed, force);
        let r = s.last();
        if force || !is_managed(managed, r) {
            p.push((source_of(r), managed_path(root, r.host, r.owner, r.name)))
        } else {
            p
        }
    }
}

/// The views of additions.
pub open spec fn additions_view(s: Seq<Addition>) -> Seq<(Seq<char>, Seq<char>)> {
    s.map_values(|a: Addition| (a.source@, a.target@))
}

/// Plans the additions for resolved repositories: one per identity (local
/// clones preferred), skipping those already managed unless `force`.
pub fn plan_additions(repos: &Vec<Repo>, root_directory: &str, managed: &Vec<Repo>, force: bool) -> (r:
    Vec<Addition>)
    ensures
        additions_view(r@) == additions_spec(
            unique_spec(rviews(repos@)),
            root_directory@,
            rviews(managed@),
            force,
        ),
{
    let unique = filter_unique_repos(repos);
    let ghost s = rviews(unique@);
    let mut out: Vec<Addition> = Vec::new();
    let mut i: usize = 0;
    assert(s.take(0) =~= Seq::<RepoView>::empty());
    assert(additions_view(out@) =~= Seq::<(Seq<char>, Seq<char>)>::empty());
    while i < unique.len()
        invariant
            i <= unique.len(),
            s == rviews(unique@),
            additions_view(out@) == additions_spec(
                s.take(i as int),
                root_directory@,
                rviews(managed@),
                force,
            ),
        decreases unique.len() - i,
    {
        let r = &unique[i];
        assert(s.take(i + 1).drop_last() =~= s.take(i as int));
        assert(s.take(i + 1).last() == r@);
        if force || !managed_contains(managed, r) {
            let source = match &r.path {
                Some(p) => p.clone(),
                None => r.url.clone(),
            };
            let target = r.path(root_directory);
            let ghost before = out@;
            out.push(Addition { source, target });
            assert(additions_view(out@) =~= additions_view(before).push((source@, target@)));
        }
        i = i + 1;
    }
    assert(s.take(i as int) =~= s);
    out
}

} // verus!
