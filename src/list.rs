//! Listing repositories: the managed ones found at `root/host/owner/name`,
//! the unmanaged working copies elsewhere under the home directory, and both.
//! Filesystem walks and git probes are made by the caller, which hands the
//! results in as plain values.

use vstd::prelude::*;

use crate::error::SrcRepoError;
use crate::reference::{from_spec, Location};
use crate::repo::{copy_opt, display_form, managed_path, Repo, RepoView};
use crate::sort::{
    component, component_key, component_of, folded_key, insert_pos, isort, lemma_insert_sorted,
    lemma_isort, lemma_isort_stable, rviews, with_key, sort_ignoring_case, sort_repos, sorted_by, SortByComponent,
};
use crate::text::{components, path_components, starts_with_char, str_le, views};
use crate::unique::{filter_unique_repos, unique_spec};

verus! {

/// How a filter matches a field: exactly, or by membership in the values
/// that a fuzzy matcher accepted.
pub enum Matcher {
    Exact(String),
    OneOf(Vec<String>),
}

/// Whether a field value passes an optional filter.
pub open spec fn accepts(m: Option<&Matcher>, v: Seq<char>) -> bool {
    match m {
        None => true,
        Some(Matcher::Exact(s)) => v == s@,
        Some(Matcher::OneOf(vs)) => views(vs@).contains(v),
    }
}

/// Whether a repository passes the host, owner and name filters.
pub open spec fn keeps(
    r: RepoView,
    host: Option<&Matcher>,
    owner: Option<&Matcher>,
    name: Option<&Matcher>,
) -> bool {
    accepts(host, r.host) && accepts(owner, r.owner) && accepts(name, r.name)
}

/// The repositories of `s` that pass the filters, in order.
pub open spec fn filter_spec(
    s: Seq<RepoView>,
    host: Option<&Matcher>,
    owner: Option<&Matcher>,
    name: Option<&Matcher>,
) -> Seq<RepoView>
    decreases s.len(),
{
    if s.len() == 0 {
        Seq::empty()
    } else if keeps(s.last(), host, owner, name) {
        filter_spec(s.drop_last(), host, owner, name).push(s.last())
    } else {
        filter_spec(s.drop_last(), host, owner, name)
    }
}

/// Whether a field value passes an optional filter.
pub fn matcher_accepts(m: Option<&Matcher>, v: &String) -> (r: bool)
    ensures
        r == accepts(m, v@),
{
    match m {
        None => true,
        Some(Matcher::Exact(s)) => *s == *v,
        Some(Matcher::OneOf(vs)) => contains_string(vs, v),
    }
}

/// Whether `vs` holds a string equal to `v`.
pub fn contains_string(vs: &Vec<String>, v: &String) -> (r: bool)
    ensures
        r == views(vs@).contains(v@),
{
    let mut i: usize = 0;
    while i < vs.len()
        invariant
            i <= vs.len(),
            forall|k: int| 0 <= k < i ==> views(vs@)[k] != v@,
        decreases vs.len() - i,
    {
        if vs[i] == *v {
            assert(views(vs@)[i as int] == v@);
            return true;
        }
        i = i + 1;
    }
    false
}

/// Keeps the repositories whose host, owner and name pass the filters.
pub fn filter_repos(
    repos: &Vec<Repo>,
    host: Option<&Matcher>,
    owner: Option<&Matcher>,
    name: Option<&Matcher>,
) -> (r: Vec<Repo>)
    ensures
        rviews(r@) == filter_spec(rviews(repos@), host, owner, name),
{
    let ghost s = rviews(repos@);
    let mut out: Vec<Repo> = Vec::new();
    let mut i: usize = 0;
    assert(s.take(0) =~= Seq::<RepoView>::empty());
    assert(rviews(out@) =~= Seq::<RepoView>::empty());
    while i < repos.len()
        invariant
            i <= repos.len(),
            s == rviews(repos@),
            rviews(out@) == filter_spec(s.take(i as int), host, owner, name),
        decreases repos.len() - i,
    {
        assert(s.take(i + 1).drop_last() =~= s.take(i as int));
        assert(s.take(i + 1).last() == repos[i as int]@);
        let r = &repos[i];
        if matcher_accepts(host, &r.host) && matcher_accepts(owner, &r.owner) && matcher_accepts(
            name,
            &r.name,
        ) {
            let ghost before = out@;
            out.push(r.copy());
            assert(rviews(out@) =~= rviews(before).push(repos[i as int]@));
        }
        i = i + 1;
    }
    assert(s.take(i as int) =~= s);
    out
}

/// How a repository is shown: its path (the local clone, else its canonical
/// place under `root`), or its display form.
pub open spec fn shown(r: RepoView, root: Seq<char>, no_host: bool, no_owner: bool, paths: bool) -> Seq<
    char,
> {
    if paths {
        match r.path {
            Some(p) => p,
            None => managed_path(root, r.host, r.owner, r.name),
        }
    } else {
        display_form(r.host, r.owner, r.name, no_host, no_owner)
    }
}

/// Each repository of `s` as shown.
pub open spec fn project(
    s: Seq<RepoView>,
    root: Seq<char>,
    no_host: bool,
    no_owner: bool,
    paths: bool,
) -> Seq<Seq<char>> {
    s.map_values(|r: RepoView| shown(r, root, no_host, no_owner, paths))
}

/// Shows each repository, as `shown` says.
pub fn project_repos(repos: &Vec<Repo>, root: &str, no_host: bool, no_owner: bool, paths: bool) -> (r:
    Vec<String>)
    ensures
        views(r@) == project(rviews(repos@), root@, no_host, no_owner, paths),
{
    let mut out: Vec<String> = Vec::new();
    let mut i: usize = 0;
    while i < repos.len()
        invariant
            i <= repos.len(),
            views(out@) == project(rviews(repos@).take(i as int), root@, no_host, no_owner, paths),
        decreases repos.len() - i,
    {
        let r = &repos[i];
        let s = if paths {
            match &r.path {
                Some(p) => p.clone(),
                None => r.path(root),
            }
        } else {
            r.display(no_host, no_owner)
        };
        let ghost before = out@;
        out.push(s);
        assert(views(out@) =~= views(before).push(s@));
        assert(project(rviews(repos@).take(i + 1), root@, no_host, no_owner, paths) =~= project(
            rviews(repos@).take(i as int),
            root@,
            no_host,
            no_owner,
            paths,
        ).push(shown(repos[i as int]@, root@, no_host, no_owner, paths)));
        i = i + 1;
    }
    assert(rviews(repos@).take(i as int) =~= rviews(repos@));
    out
}

/// The candidates that pass the filters, deduplicated if asked.
pub open spec fn deduplicated(
    cands: Seq<RepoView>,
    host: Option<&Matcher>,
    owner: Option<&Matcher>,
    name: Option<&Matcher>,
    dedup: bool,
) -> Seq<RepoView> {
    let kept = filter_spec(cands, host, owner, name);
    if dedup {
        unique_spec(kept)
    } else {
        kept
    }
}

/// The listing of candidates: filtered, deduplicated if asked, then sorted by
/// the chosen field and shown, or shown and sorted ignoring case.
pub open spec fn listing(
    cands: Seq<RepoView>,
    root: Seq<char>,
    host: Option<&Matcher>,
    owner: Option<&Matcher>,
    name: Option<&Matcher>,
    dedup: bool,
    no_host: bool,
    no_owner: bool,
    paths: bool,
    sort_by: Option<SortByComponent>,
) -> Seq<Seq<char>> {
    let uniq = deduplicated(cands, host, owner, name, dedup);
    match sort_by {
        Some(by) => project(isort(uniq, component_key(by)), root, no_host, no_owner, paths),
        None => isort(project(uniq, root, no_host, no_owner, paths), folded_key()),
    }
}

/// Filters, deduplicates if asked, sorts and shows candidates.
pub fn arrange(
    cands: &Vec<Repo>,
    root: &str,
    host: Option<&Matcher>,
    owner: Option<&Matcher>,
    name: Option<&Matcher>,
    dedup: bool,
    no_host: bool,
    no_owner: bool,
    paths: bool,
    sort_by: Option<SortByComponent>,
) -> (r: Vec<String>)
    ensures
        views(r@) == listing(
            rviews(cands@),
            root@,
            host,
            owner,
            name,
            dedup,
            no_host,
            no_owner,
            paths,
            sort_by,
        ),
{
    let kept = filter_repos(cands, host, owner, name);
    let uniq = if dedup {
        filter_unique_repos(&kept)
    } else {
        kept
    };
    match sort_by {
        Some(by) => {
            let sorted = sort_repos(&uniq, by);
            project_repos(&sorted, root, no_host, no_owner, paths)
        },
        None => {
            let shown = project_repos(&uniq, root, no_host, no_owner, paths);
            sort_ignoring_case(&shown)
        },
    }
}

/// A directory entry met by a walk: its path (the walk's base joined with
/// the names below it), its depth below the base, whether it is a
/// directory, and whether it holds a `.git` entry.
pub struct ScanEntry {
    pub path: String,
    pub depth: usize,
    pub is_dir: bool,
    pub has_git_dir: bool,
}

/// The components of `path` after those of `base`, where `base`'s
/// components begin `path`'s.
pub open spec fn below(base: Seq<char>, path: Seq<char>) -> Option<Seq<Seq<char>>> {
    let b = components(base);
    let c = components(path);
    if b.len() <= c.len() && c.take(b.len() as int) == b {
        Some(c.skip(b.len() as int))
    } else {
        None
    }
}

/// The view of optional component strings.
pub open spec fn opt_views(o: Option<Vec<String>>) -> Option<Seq<Seq<char>>> {
    match o {
        Some(v) => Some(views(v@)),
        None => None,
    }
}

/// The components of `path` below `base`, as `below` states.
pub fn relative_components(base: &str, path: &str) -> (r: Option<Vec<String>>)
    ensures
        opt_views(r) == below(base@, path@),
{
    let b = path_components(base);
    let c = path_components(path);
    if b.len() > c.len() {
        return None;
    }
    let mut k: usize = 0;
    while k < b.len()
        invariant
            k <= b.len() <= c.len(),
            views(b@) == components(base@),
            views(c@) == components(path@),
            forall|j: int| 0 <= j < k ==> views(c@)[j] == views(b@)[j],
        decreases b.len() - k,
    {
        if c[k] != b[k] {
            assert(views(c@)[k as int] == c@[k as int]@);
            assert(views(b@)[k as int] == b@[k as int]@);
            assert(views(c@).take(b.len() as int)[k as int] != views(b@)[k as int]);
            assert(views(c@).take(b.len() as int) != views(b@));
            return None;
        }
        k = k + 1;
    }
    assert(views(c@).take(b.len() as int) =~= views(b@));
    let mut rest: Vec<String> = Vec::new();
    let mut i: usize = b.len();
    while i < c.len()
        invariant
            b.len() <= i <= c.len(),
            views(b@) == components(base@),
            views(c@) == components(path@),
            views(c@).take(b.len() as int) == views(b@),
            views(rest@) == views(c@).subrange(b.len() as int, i as int),
        decreases c.len() - i,
    {
        let ghost before = rest@;
        rest.push(c[i].clone());
        assert(views(rest@) =~= views(before).push(views(c@)[i as int]));
        assert(views(c@).subrange(b.len() as int, i + 1) =~= views(c@).subrange(
            b.len() as int,
            i as int,
        ).push(views(c@)[i as int]));
        i = i + 1;
    }
    assert(views(c@).skip(b.len() as int) =~= views(c@).subrange(b.len() as int, i as int));
    Some(rest)
}

/// The managed repository an entry of a walk from `root` is: a directory at
/// depth three, whose components below `root` are its host, owner and name.
pub open spec fn managed_entry(root: Seq<char>, e: ScanEntry) -> Option<RepoView> {
    if e.is_dir && e.depth == 3 {
        match below(root, e.path@) {
            Some(rest) => if rest.len() == 3 {
                Some(
                    RepoView {
                        host: rest[0],
                        owner: rest[1],
                        name: rest[2],
                        path: Some(e.path@),
                        url: e.path@,
                    },
                )
            } else {
                None
            },
            None => None,
        }
    } else {
        None
    }
}

/// The managed repositories among the entries of a walk from `root`, in order.
pub open spec fn managed_spec(root: Seq<char>, entries: Seq<ScanEntry>) -> Seq<RepoView>
    decreases entries.len(),
{
    if entries.len() == 0 {
        Seq::empty()
    } else {
        let p = managed_spec(root, entries.drop_last());
        match managed_entry(root, entries.last()) {
            Some(r) => p.push(r),
            None => p,
        }
    }
}

/// The managed repositories among the entries of a walk from `root`.
pub fn managed_repos(root: &str, entries: &Vec<ScanEntry>) -> (r: Vec<Repo>)
    ensures
        rviews(r@) == managed_spec(root@, entries@),
{
    let mut out: Vec<Repo> = Vec::new();
    let mut i: usize = 0;
    assert(entries@.take(0) =~= Seq::<ScanEntry>::empty());
    assert(rviews(out@) =~= Seq::<RepoView>::empty());
    while i < entries.len()
        invariant
            i <= entries.len(),
            rviews(out@) == managed_spec(root@, entries@.take(i as int)),
        decreases entries.len() - i,
    {
        let e = &entries[i];
        assert(entries@.take(i + 1).drop_last() =~= entries@.take(i as int));
        assert(entries@.take(i + 1).last() == *e);
        if e.is_dir && e.depth == 3 {
            match relative_components(root, e.path.as_str()) {
                Some(rest) => {
                    if rest.len() == 3 {
                        let ghost before = out@;
                        out.push(
                            Repo {
                                host: rest[0].clone(),
                                name: rest[2].clone(),
                                owner: rest[1].clone(),
                                path: Some(e.path.clone()),
                                url: e.path.clone(),
                            },
                        );
                        assert(rviews(out@) =~= rviews(before).push(
                            managed_entry(root@, *e)->Some_0,
                        ));
                    }
                },
                None => {},
            }
        }
        i = i + 1;
    }
    assert(entries@.take(i as int) =~= entries@);
    out
}

/// The managed repositories under `root` that pass the filters, in the
/// walk's order.
pub fn get_repos(
    root_directory: &str,
    host: Option<&Matcher>,
    owner: Option<&Matcher>,
    name: Option<&Matcher>,
    entries: &Vec<ScanEntry>,
) -> (r: Vec<Repo>)
    ensures
        rviews(r@) == filter_spec(managed_spec(root_directory@, entries@), host, owner, name),
{
    let all = managed_repos(root_directory, entries);
    filter_repos(&all, host, owner, name)
}

/// The paths of the managed repositories under `root` that pass the
/// filters, in the walk's order.
pub fn get_repo_paths(
    root_directory: &str,
    host: Option<&Matcher>,
    owner: Option<&Matcher>,
    name: Option<&Matcher>,
    entries: &Vec<ScanEntry>,
) -> (r: Vec<String>)
    ensures
        views(r@) == project(
            filter_spec(managed_spec(root_directory@, entries@), host, owner, name),
            root_directory@,
            false,
            false,
            true,
        ),
{
    let repos = get_repos(root_directory, host, owner, name, entries);
    project_repos(&repos, root_directory, false, false, true)
}

/// The managed repositories under `root`, filtered, shown and sorted.
pub fn list_repos(
    root_directory: &str,
    host: Option<&Matcher>,
    owner: Option<&Matcher>,
    name: Option<&Matcher>,
    no_host: bool,
    no_owner: bool,
    path: bool,
    sort_by: Option<SortByComponent>,
    entries: &Vec<ScanEntry>,
) -> (r: Vec<String>)
    ensures
        views(r@) == listing(
            managed_spec(root_directory@, entries@),
            root_directory@,
            host,
            owner,
            name,
            false,
            no_host,
            no_owner,
            path,
            sort_by,
        ),
{
    let repos = managed_repos(root_directory, entries);
    arrange(&repos, root_directory, host, owner, name, false, no_host, no_owner, path, sort_by)
}

/// Whether the first component of `path` below `home` starts with `.`.
pub open spec fn hidden_below(rest: Seq<Seq<char>>) -> bool {
    rest.len() > 0 && rest[0].len() > 0 && rest[0][0] == '.'
}

/// Whether an entry of a walk from the home directory may be an unmanaged
/// working copy: a directory holding `.git`, under `home`, not at the
/// canonical depth under `root`, and not below a hidden directory of `home`
/// unless hidden ones are included.
pub open spec fn unmanaged_candidate(
    root: Seq<char>,
    home: Seq<char>,
    include_hidden: bool,
    e: ScanEntry,
) -> bool {
    &&& e.is_dir
    &&& e.has_git_dir
    &&& !(below(root, e.path@) matches Some(rest) && rest.len() == 3)
    &&& match below(home, e.path@) {
        Some(rest) => include_hidden || !hidden_below(rest),
        None => false,
    }
}

/// The paths of the candidates among `entries`, in order.
pub open spec fn candidates_spec(
    root: Seq<char>,
    home: Seq<char>,
    include_hidden: bool,
    entries: Seq<ScanEntry>,
) -> Seq<Seq<char>>
    decreases entries.len(),
{
    if entries.len() == 0 {
        Seq::empty()
    } else {
        let p = candidates_spec(root, home, include_hidden, entries.drop_last());
        if unmanaged_candidate(root, home, include_hidden, entries.last()) {
            p.push(entries.last().path@)
        } else {
            p
        }
    }
}

/// Whether an entry may be an unmanaged working copy, as
/// `unmanaged_candidate` states.
pub fn is_unmanaged_candidate(root: &str, home: &str, include_hidden: bool, e: &ScanEntry) -> (r:
    bool)
    ensures
        r == unmanaged_candidate(root@, home@, include_hidden, *e),
{
    if !e.is_dir || !e.has_git_dir {
        return false;
    }
    let at_managed_depth = match relative_components(root, e.path.as_str()) {
        Some(rest) => rest.len() == 3,
        None => false,
    };
    if at_managed_depth {
        return false;
    }
    match relative_components(home, e.path.as_str()) {
        Some(rest) => {
            if include_hidden {
                true
            } else if rest.len() == 0 {
                true
            } else {
                !starts_with_char(rest[0].as_str(), '.')
            }
        },
        None => false,
    }
}

/// The directories under the home directory that may be unmanaged working
/// copies, in the walk's order; they are still to be probed with git. Fails
/// with `HomeDir` when the home directory is unknown.
pub fn get_non_managed_repo_paths(
    root_directory: &str,
    home: Option<&String>,
    include_hidden: bool,
    entries: &Vec<ScanEntry>,
) -> (r: Result<Vec<String>, SrcRepoError>)
    ensures
        match home {
            None => r == Err::<Vec<String>, SrcRepoError>(SrcRepoError::HomeDir),
            Some(h) => r matches Ok(paths) && views(paths@) == candidates_spec(
                root_directory@,
                h@,
                include_hidden,
                entries@,
            ),
        },
{
    let home = match home {
        Some(h) => h,
        None => return Err(SrcRepoError::HomeDir),
    };
    let mut out: Vec<String> = Vec::new();
    let mut i: usize = 0;
    assert(entries@.take(0) =~= Seq::<ScanEntry>::empty());
    assert(views(out@) =~= Seq::<Seq<char>>::empty());
    while i < entries.len()
        invariant
            i <= entries.len(),
            views(out@) == candidates_spec(
                root_directory@,
                home@,
                include_hidden,
                entries@.take(i as int),
            ),
        decreases entries.len() - i,
    {
        let e = &entries[i];
        assert(entries@.take(i + 1).drop_last() =~= entries@.take(i as int));
        assert(entries@.take(i + 1).last() == *e);
        if is_unmanaged_candidate(root_directory, home.as_str(), include_hidden, e) {
            let ghost before = out@;
            out.push(e.path.clone());
            assert(views(out@) =~= views(before).push(e.path@));
        }
        i = i + 1;
    }
    assert(entries@.take(i as int) =~= entries@);
    Ok(out)
}

/// A working copy found outside the managed layout, with the url of its
/// remote `origin` if it has one.
pub struct LocalClone {
    pub path: String,
    pub origin: Option<String>,
}

/// The repository a local clone resolves to, if it resolves.
pub open spec fn clone_repo(c: LocalClone) -> Option<RepoView> {
    match from_spec(c.path@, Location::Local { path: c.path, origin: c.origin }) {
        Ok(v) => Some(v),
        Err(_) => None,
    }
}

/// The repositories that the clones resolve to, in order; clones that do
/// not resolve are left out.
pub open spec fn unmanaged_spec(clones: Seq<LocalClone>) -> Seq<RepoView>
    decreases clones.len(),
{
    if clones.len() == 0 {
        Seq::empty()
    } else {
        let p = unmanaged_spec(clones.drop_last());
        match clone_repo(clones.last()) {
            Some(r) => p.push(r),
            None => p,
        }
    }
}

/// Resolves local clones through their remotes, leaving out those that do
/// not resolve.
pub fn unmanaged_repos(clones: &Vec<LocalClone>) -> (r: Vec<Repo>)
    ensures
        rviews(r@) == unmanaged_spec(clones@),
{
    let mut out: Vec<Repo> = Vec::new();
    let mut i: usize = 0;
    assert(clones@.take(0) =~= Seq::<LocalClone>::empty());
    assert(rviews(out@) =~= Seq::<RepoView>::empty());
    while i < clones.len()
        invariant
            i <= clones.len(),
            rviews(out@) == unmanaged_spec(clones@.take(i as int)),
        decreases clones.len() - i,
    {
        let c = &clones[i];
        assert(clones@.take(i + 1).drop_last() =~= clones@.take(i as int));
        assert(clones@.take(i + 1).last() == *c);
        let location = Location::Local { path: c.path.clone(), origin: copy_opt(&c.origin) };
        match Repo::from(c.path.as_str(), &location) {
            Ok(repo) => {
                let ghost before = out@;
                out.push(repo);
                assert(rviews(out@) =~= rviews(before).push(clone_repo(*c)->Some_0));
            },
            Err(_) => {},
        }
        i = i + 1;
    }
    assert(clones@.take(i as int) =~= clones@);
    out
}

/// The unmanaged working copies, filtered, deduplicated, shown and sorted.
/// They are found under the home directory: without one, the listing fails
/// with `HomeDir`.
pub fn list_non_managed_repos(
    root_directory: &str,
    home: Option<&String>,
    host: Option<&Matcher>,
    owner: Option<&Matcher>,
    name: Option<&Matcher>,
    no_host: bool,
    no_owner: bool,
    path: bool,
    sort_by: Option<SortByComponent>,
    clones: &Vec<LocalClone>,
) -> (r: Result<Vec<String>, SrcRepoError>)
    ensures
        home is None ==> r matches Err(SrcRepoError::HomeDir),
        home is Some ==> (r matches Ok(lines) && views(lines@) == listing(
            unmanaged_spec(clones@),
            root_directory@,
            host,
            owner,
            name,
            true,
            no_host,
            no_owner,
            path,
            sort_by,
        )),
{
    if home.is_none() {
        return Err(SrcRepoError::HomeDir);
    }
    let repos = unmanaged_repos(clones);
    Ok(arrange(&repos, root_directory, host, owner, name, true, no_host, no_owner, path, sort_by))
}

/// The managed repositories and the unmanaged working copies together,
/// filtered, deduplicated, shown and sorted. Without a home directory, where
/// the unmanaged ones are found, the listing fails with `HomeDir`.
pub fn list_all_repos(
    root_directory: &str,
    home: Option<&String>,
    host: Option<&Matcher>,
    owner: Option<&Matcher>,
    name: Option<&Matcher>,
    no_host: bool,
    no_owner: bool,
    path: bool,
    sort_by: Option<SortByComponent>,
    entries: &Vec<ScanEntry>,
    clones: &Vec<LocalClone>,
) -> (r: Result<Vec<String>, SrcRepoError>)
    ensures
        home is None ==> r matches Err(SrcRepoError::HomeDir),
        home is Some ==> (r matches Ok(lines) && views(lines@) == listing(
            managed_spec(root_directory@, entries@) + unmanaged_spec(clones@),
            root_directory@,
            host,
            owner,
            name,
            true,
            no_host,
            no_owner,
            path,
            sort_by,
        )),
{
    if home.is_none() {
        return Err(SrcRepoError::HomeDir);
    }
    let mut repos = managed_repos(root_directory, entries);
    let mut others = unmanaged_repos(clones);
    let ghost a = repos@;
    let ghost b = others@;
    repos.append(&mut others);
    assert(rviews(repos@) =~= rviews(a) + rviews(b));
    Ok(arrange(&repos, root_directory, host, owner, name, true, no_host, no_owner, path, sort_by))
}

/// Sorting: sorted by a field, a listing shows repositories whose field
/// never decreases (case-sensitively); unsorted by field, the shown strings
/// themselves never decrease once lower-cased. Either way sorting only
/// reorders: each entry that survives filtering and deduplication is shown
/// exactly once. Sorted by a field, repositories with the same value of it
/// keep their order (the sort is stable).
pub proof fn law_listing_sorted(
    cands: Seq<RepoView>,
    root: Seq<char>,
    host: Option<&Matcher>,
    owner: Option<&Matcher>,
    name: Option<&Matcher>,
    dedup: bool,
    no_host: bool,
    no_owner: bool,
    paths: bool,
    sort_by: Option<SortByComponent>,
)
    ensures
        sort_by is None ==> sorted_by(
            listing(cands, root, host, owner, name, dedup, no_host, no_owner, paths, sort_by),
            folded_key(),
        ) && listing(
            cands,
            root,
            host,
            owner,
            name,
            dedup,
            no_host,
            no_owner,
            paths,
            sort_by,
        ).to_multiset() == project(
            deduplicated(cands, host, owner, name, dedup),
            root,
            no_host,
            no_owner,
            paths,
        ).to_multiset(),
        sort_by matches Some(by) ==> exists|t: Seq<RepoView>|
            sorted_by(t, component_key(by)) && t.to_multiset() == deduplicated(
                cands,
                host,
                owner,
                name,
                dedup,
            ).to_multiset() && (forall|k: Seq<char>|
                #[trigger] with_key(t, component_key(by), k) == with_key(
                    deduplicated(cands, host, owner, name, dedup),
                    component_key(by),
                    k,
                )) && listing(
                cands,
                root,
                host,
                owner,
                name,
                dedup,
                no_host,
                no_owner,
                paths,
                sort_by,
            ) == project(t, root, no_host, no_owner, paths),
{
    let uniq = deduplicated(cands, host, owner, name, dedup);
    match sort_by {
        Some(by) => {
            lemma_isort(uniq, component_key(by));
            assert forall|k: Seq<char>|
                #[trigger] with_key(isort(uniq, component_key(by)), component_key(by), k)
                    == with_key(uniq, component_key(by), k) by {
                lemma_isort_stable(uniq, component_key(by), k);
            }
            assert(sorted_by(isort(uniq, component_key(by)), component_key(by)));
        },
        None => {
            lemma_isort(project(uniq, root, no_host, no_owner, paths), folded_key());
        },
    }
}

/// Repeatability: listing the managed repositories twice over the same
/// directory tree, with the same settings, gives the same output in the
/// same order.
pub proof fn law_list_managed_repeatable(
    root: Seq<char>,
    host: Option<&Matcher>,
    owner: Option<&Matcher>,
    name: Option<&Matcher>,
    no_host: bool,
    no_owner: bool,
    paths: bool,
    sort_by: Option<SortByComponent>,
    first_walk: Seq<ScanEntry>,
    second_walk: Seq<ScanEntry>,
)
    requires
        first_walk == second_walk,
    ensures
        listing(
            managed_spec(root, first_walk),
            root,
            host,
            owner,
            name,
            false,
            no_host,
            no_owner,
            paths,
            sort_by,
        ) == listing(
            managed_spec(root, second_walk),
            root,
            host,
            owner,
            name,
            false,
            no_host,
            no_owner,
            paths,
            sort_by,
        ),
{
}

/// Sorting key: the string itself.
pub open spec fn plain_key() -> spec_fn(Seq<char>) -> Seq<char> {
    |s: Seq<char>| s
}

/// Where `v` goes in `out` by a stable insertion on the strings themselves.
fn sorted_position(out: &Vec<String>, v: &String) -> (pos: usize)
    ensures
        pos == insert_pos(views(out@), v@, plain_key()),
        pos <= out.len(),
{
    let ghost key = plain_key();
    let ghost t = views(out@);
    let mut pos: usize = out.len();
    assert(t.take(pos as int) =~= t);
    loop
        invariant
            pos <= out.len(),
            t == views(out@),
            key == plain_key(),
            insert_pos(t, v@, key) == insert_pos(t.take(pos as int), v@, key),
        ensures
            pos <= out.len(),
            insert_pos(t, v@, key) == pos,
        decreases pos,
    {
        if pos == 0 {
            assert(t.take(0).len() == 0);
            break;
        }
        if str_le(out[pos - 1].as_str(), v.as_str()) {
            assert(t.take(pos as int).last() == t[pos - 1]);
            break;
        }
        assert(t.take(pos as int).drop_last() =~= t.take(pos - 1));
        pos = pos - 1;
    }
    pos
}

/// The distinct values that a field takes among repositories, sorted
/// case-sensitively.
pub fn component_values(repos: &Vec<Repo>, by: SortByComponent) -> (r: Vec<String>)
    ensures
        sorted_by(views(r@), plain_key()),
        views(r@).no_duplicates(),
        forall|v: Seq<char>|
            views(r@).contains(v) <==> exists|i: int|
                0 <= i < repos.len() && component_of(#[trigger] repos[i]@, by) == v,
{
    let ghost key = plain_key();
    let mut out: Vec<String> = Vec::new();
    let mut i: usize = 0;
    while i < repos.len()
        invariant
            i <= repos.len(),
            key == plain_key(),
            sorted_by(views(out@), key),
            views(out@).no_duplicates(),
            forall|v: Seq<char>|
                views(out@).contains(v) <==> exists|j: int|
                    0 <= j < i && component_of(#[trigger] repos[j]@, by) == v,
        decreases repos.len() - i,
    {
        let v = component(&repos[i], by);
        let ghost t = views(out@);
        assert(forall|w: Seq<char>|
            t.contains(w) <==> exists|j: int|
                0 <= j < i && component_of(#[trigger] repos[j]@, by) == w);
        if !contains_string(&out, v) {
            let pos = sorted_position(&out, v);
            proof {
                lemma_insert_sorted(t, v@, key);
            }
            out.insert(pos, v.clone());
            assert(views(out@) =~= t.insert(pos as int, v@));
            assert forall|w: Seq<char>| views(out@).contains(w) <==> exists|j: int|
                0 <= j < i + 1 && component_of(#[trigger] repos[j]@, by) == w by {
                if views(out@).contains(w) && w != v@ {
                    let k = choose|k: int| 0 <= k < views(out@).len() && views(out@)[k] == w;
                    if k < pos {
                        assert(t[k] == w);
                    } else {
                        assert(t[k - 1] == w);
                    }
                    assert(t.contains(w));
                }
                if w == v@ {
                    assert(views(out@)[pos as int] == w);
                    assert(component_of(repos[i as int]@, by) == w);
                }
                if exists|j: int| 0 <= j < i + 1 && component_of(#[trigger] repos[j]@, by) == w {
                    if w != v@ {
                        let j = choose|j: int| 0 <= j < i + 1 && component_of(#[trigger] repos[j]@, by) == w;
                        assert(j < i);
                        assert(t.contains(w));
                        let k = choose|k: int| 0 <= k < t.len() && t[k] == w;
                        if k < pos {
                            assert(views(out@)[k] == w);
                        } else {
                            assert(views(out@)[k + 1] == w);
                        }
                    }
                }
            }
            assert(views(out@).no_duplicates()) by {
                assert forall|a: int, b: int|
                    0 <= a < views(out@).len() && 0 <= b < views(out@).len() && a != b implies views(
                    out@,
                )[a] != views(out@)[b] by {
                    let u = views(out@);
                    if a == pos as int {
                        if b < pos { assert(u[b] == t[b]); assert(t.contains(u[b])); } else { assert(u[b] == t[b - 1]); assert(t.contains(u[b])); }
                    } else if b == pos as int {
                        if a < pos { assert(u[a] == t[a]); assert(t.contains(u[a])); } else { assert(u[a] == t[a - 1]); assert(t.contains(u[a])); }
                    } else {
                        let a2 = if a < pos { a } else { a - 1 };
                        let b2 = if b < pos { b } else { b - 1 };
                        assert(u[a] == t[a2]);
                        assert(u[b] == t[b2]);
                    }
                }
            }
        } else {
            assert(views(out@).contains(v@));
            assert forall|w: Seq<char>| views(out@).contains(w) <==> exists|j: int|
                0 <= j < i + 1 && component_of(#[trigger] repos[j]@, by) == w by {
                if w == v@ {
                    assert(component_of(repos[i as int]@, by) == w);
                }
            }
        }
        i = i + 1;
    }
    out
}

} // verus!
