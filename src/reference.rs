//! Turning a repository reference (a url, a shorthand, or a local clone)
//! into a repository identity.

use vstd::prelude::*;

use crate::error::SrcRepoError;
use crate::config::Config;
use crate::repo::{
    display_form, opt_view, parse_url, parse_url_spec, result_view, valid_segment, Repo, RepoView,
};
use crate::sort::rviews;
use crate::unique::{filter_unique_repos, same_id, unique_spec};
use crate::text::{
    contains_char, eq_ignore_case, lemma_pieces_nonempty, lemma_pieces_pair, pieces,
    same_ignoring_case, split_on,
};

verus! {

/// A segment of a shorthand reference: a valid segment without `@`.
pub open spec fn plain_segment(s: Seq<char>) -> bool {
    valid_segment(s) && !s.contains('@')
}

/// The parts of a shorthand reference `[host:][owner/]name`, each part a
/// plain segment; `None` where the text has another shape.
pub open spec fn shorthand_of(s: Seq<char>) -> Option<(Option<Seq<char>>, Option<Seq<char>>, Seq<char>)> {
    let by_colon = pieces(s, ':');
    let host = if by_colon.len() == 2 {
        Some(by_colon[0])
    } else {
        None
    };
    let by_slash = pieces(by_colon.last(), '/');
    let owner = if by_slash.len() == 2 {
        Some(by_slash[0])
    } else {
        None
    };
    let name = by_slash.last();
    if by_colon.len() <= 2 && by_slash.len() <= 2 && (host is Some ==> plain_segment(host->0)) && (
    owner is Some ==> plain_segment(owner->0)) && plain_segment(name) {
        Some((host, owner, name))
    } else {
        None
    }
}

/// Whether `s` is a plain segment.
pub fn is_plain_segment(s: &str) -> (r: bool)
    ensures
        r == plain_segment(s@),
{
    s.unicode_len() > 0 && !contains_char(s, '/') && !contains_char(s, ':') && !contains_char(
        s,
        '@',
    )
}

/// The view of the parts of a shorthand reference.
pub open spec fn shorthand_view(r: Option<(Option<String>, Option<String>, String)>) -> Option<
    (Option<Seq<char>>, Option<Seq<char>>, Seq<char>),
> {
    match r {
        Some((h, o, n)) => Some((opt_view(h), opt_view(o), n@)),
        None => None,
    }
}

/// Splits a shorthand reference `[host:][owner/]name` into its parts.
pub fn parse_shorthand(s: &str) -> (r: Option<(Option<String>, Option<String>, String)>)
    ensures
        shorthand_view(r) == shorthand_of(s@),
{
    let by_colon = split_on(s, ':');
    proof {
        lemma_pieces_nonempty(s@, ':');
    }
    let nc = by_colon.len();
    if nc > 2 {
        return None;
    }
    let host = if nc == 2 {
        Some(by_colon[0].clone())
    } else {
        None
    };
    let rest = &by_colon[nc - 1];
    let by_slash = split_on(rest.as_str(), '/');
    proof {
        lemma_pieces_nonempty(rest@, '/');
    }
    let ns = by_slash.len();
    if ns > 2 {
        return None;
    }
    let owner = if ns == 2 {
        Some(by_slash[0].clone())
    } else {
        None
    };
    let name = by_slash[ns - 1].clone();
    let host_ok = match &host {
        Some(h) => is_plain_segment(h.as_str()),
        None => true,
    };
    let owner_ok = match &owner {
        Some(o) => is_plain_segment(o.as_str()),
        None => true,
    };
    if host_ok && owner_ok && is_plain_segment(name.as_str()) {
        Some((host, owner, name))
    } else {
        None
    }
}

/// The full display form of an identity made of plain segments reads back
/// as a shorthand with the same host, owner and name.
pub proof fn lemma_display_is_shorthand(host: Seq<char>, owner: Seq<char>, name: Seq<char>)
    requires
        plain_segment(host),
        plain_segment(owner),
        plain_segment(name),
    ensures
        shorthand_of(display_form(host, owner, name, false, false)) == Some(
            (Some(host), Some(owner), name),
        ),
{
    let rest = owner + seq!['/'] + name;
    let s = display_form(host, owner, name, false, false);
    assert(s =~= host + seq![':'] + rest);
    assert(!rest.contains(':')) by {
        if rest.contains(':') {
            let k = choose|k: int| 0 <= k < rest.len() && rest[k] == ':';
            if k < owner.len() {
                assert(owner[k] == ':');
            } else if k > owner.len() {
                assert(name[k - owner.len() - 1] == ':');
            }
        }
    }
    lemma_pieces_pair(host, rest, ':');
    lemma_pieces_pair(owner, name, '/');
    assert(pieces(s, ':') =~= seq![host, rest]);
}

/// Where a reference points: nowhere on disk, or at a local directory, with
/// the url of that directory's remote `origin` if it is a working copy that
/// has one.
pub enum Location {
    Remote,
    Local { path: String, origin: Option<String> },
}

/// A reference as given, with what the filesystem says of it.
pub struct Reference {
    pub text: String,
    pub location: Location,
}

/// What `Repo::from` returns.
pub open spec fn from_spec(repo: Seq<char>, location: Location) -> Result<RepoView, SrcRepoError> {
    match location {
        Location::Remote => parse_url_spec(repo, None),
        Location::Local { path, origin } => match origin {
            Some(url) => parse_url_spec(url@, Some(path@)),
            None => Err(SrcRepoError::Git),
        },
    }
}

impl Repo {
    /// Resolves a url, or a local clone through its remote `origin`.
    pub fn from(repo: &str, location: &Location) -> (r: Result<Repo, SrcRepoError>)
        ensures
            result_view(r) == from_spec(repo@, *location),
    {
        match location {
            Location::Remote => parse_url(repo, None),
            Location::Local { path, origin } => match origin {
                Some(url) => parse_url(url.as_str(), Some(path)),
                None => Err(SrcRepoError::Git),
            },
        }
    }
}

/// Resolves a reference as `Repo::from` does.
pub fn parse_repo(repo: &str, location: &Location) -> (r: Result<Repo, SrcRepoError>)
    ensures
        result_view(r) == from_spec(repo@, *location),
{
    Repo::from(repo, location)
}

/// The value a field takes: the reference's own, else the filter's, else the
/// configured default.
pub open spec fn pick(
    explicit: Option<Seq<char>>,
    filter: Option<Seq<char>>,
    default: Option<Seq<char>>,
) -> Option<Seq<char>> {
    match explicit {
        Some(e) => Some(e),
        None => match filter {
            Some(f) => Some(f),
            None => default,
        },
    }
}

/// A field that the reference states disagrees, ignoring case, with the
/// filter for it.
pub open spec fn conflicts(explicit: Option<Seq<char>>, filter: Option<Seq<char>>) -> bool {
    explicit is Some && filter is Some && !eq_ignore_case(explicit->0, filter->0)
}

/// A resolved repository, unless its host or owner conflicts with the filters.
pub open spec fn unless_conflict(
    r: Result<RepoView, SrcRepoError>,
    host: Option<Seq<char>>,
    owner: Option<Seq<char>>,
) -> Result<Option<RepoView>, SrcRepoError> {
    match r {
        Err(e) => Err(e),
        Ok(v) => if conflicts(Some(v.host), host) || conflicts(Some(v.owner), owner) {
            Ok(None)
        } else {
            Ok(Some(v))
        },
    }
}

/// What `resolve_reference` returns: `Ok(None)` for a reference whose own
/// host or owner conflicts with a filter.
pub open spec fn resolve_spec(
    reference: Seq<char>,
    location: Location,
    default_host: Option<Seq<char>>,
    default_owner: Option<Seq<char>>,
    host: Option<Seq<char>>,
    owner: Option<Seq<char>>,
) -> Result<Option<RepoView>, SrcRepoError> {
    match location {
        Location::Local { .. } => unless_conflict(from_spec(reference, location), host, owner),
        Location::Remote => match shorthand_of(reference) {
            None => unless_conflict(parse_url_spec(reference, None), host, owner),
            Some((h, o, n)) => if conflicts(h, host) || conflicts(o, owner) {
                Ok(None)
            } else {
                match (pick(h, host, default_host), pick(o, owner, default_owner)) {
                    (Some(rh), Some(ro)) => Ok(
                        Some(RepoView { host: rh, owner: ro, name: n, path: None, url: reference }),
                    ),
                    _ => Err(SrcRepoError::Incomplete),
                }
            },
        },
    }
}

/// The view of an optional borrowed string.
pub open spec fn ref_view(o: Option<&String>) -> Option<Seq<char>> {
    match o {
        Some(s) => Some(s@),
        None => None,
    }
}

/// The view of a resolution.
pub open spec fn resolution_view(r: Result<Option<Repo>, SrcRepoError>) -> Result<
    Option<RepoView>,
    SrcRepoError,
> {
    match r {
        Ok(Some(repo)) => Ok(Some(repo@)),
        Ok(None) => Ok(None),
        Err(e) => Err(e),
    }
}

/// Whether a field that the reference states conflicts with the filter.
fn conflicts_with(explicit: Option<&String>, filter: Option<&String>) -> (r: bool)
    ensures
        r == conflicts(ref_view(explicit), ref_view(filter)),
{
    match (explicit, filter) {
        (Some(e), Some(f)) => !same_ignoring_case(e.as_str(), f.as_str()),
        _ => false,
    }
}

/// The field's value: the reference's own, else the filter's, else the default.
fn pick_value(explicit: Option<&String>, filter: Option<&String>, default: Option<&String>) -> (r:
    Option<String>)
    ensures
        opt_view(r) == pick(ref_view(explicit), ref_view(filter), ref_view(default)),
{
    match explicit {
        Some(e) => Some(e.clone()),
        None => match filter {
            Some(f) => Some(f.clone()),
            None => match default {
                Some(d) => Some(d.clone()),
                None => None,
            },
        },
    }
}

/// Drops a resolved repository whose host or owner conflicts with a filter.
fn drop_conflicting(r: Result<Repo, SrcRepoError>, host: Option<&String>, owner: Option<&String>) -> (out:
    Result<Option<Repo>, SrcRepoError>)
    ensures
        resolution_view(out) == unless_conflict(result_view(r), ref_view(host), ref_view(owner)),
{
    match r {
        Err(e) => Err(e),
        Ok(repo) => {
            if conflicts_with(Some(&repo.host), host) || conflicts_with(Some(&repo.owner), owner) {
                Ok(None)
            } else {
                Ok(Some(repo))
            }
        },
    }
}

/// Resolves a reference into a repository. A local clone is read through
/// its remote; a shorthand takes its missing host and owner from the
/// filters, else from the defaults; anything else goes to the url parser.
/// A reference whose own host or owner conflicts (ignoring case) with a
/// filter is not an error: it resolves to `Ok(None)`.
pub fn resolve_reference(
    reference: &str,
    location: &Location,
    default_host: Option<&String>,
    default_owner: Option<&String>,
    host: Option<&String>,
    owner: Option<&String>,
) -> (r: Result<Option<Repo>, SrcRepoError>)
    ensures
        resolution_view(r) == resolve_spec(
            reference@,
            *location,
            ref_view(default_host),
            ref_view(default_owner),
            ref_view(host),
            ref_view(owner),
        ),
{
    match location {
        Location::Local { .. } => drop_conflicting(Repo::from(reference, location), host, owner),
        Location::Remote => match parse_shorthand(reference) {
            None => drop_conflicting(parse_url(reference, None), host, owner),
            Some((h, o, n)) => {
                if conflicts_with(h.as_ref(), host) || conflicts_with(o.as_ref(), owner) {
                    return Ok(None);
                }
                let rh = pick_value(h.as_ref(), host, default_host);
                let ro = pick_value(o.as_ref(), owner, default_owner);
                match (rh, ro) {
                    (Some(rh), Some(ro)) => Ok(
                        Some(Repo { host: rh, name: n, owner: ro, path: None, url: reference.to_owned() }),
                    ),
                    _ => Err(SrcRepoError::Incomplete),
                }
            },
        },
    }
}

/// Round trip: the full display form `host:owner/name` of a repository whose
/// fields are plain segments, resolved again as a reference with the same
/// host and owner as defaults, gives back the same host, owner and name.
pub proof fn law_display_round_trip(repo: Repo)
    requires
        plain_segment(repo.host@),
        plain_segment(repo.owner@),
        plain_segment(repo.name@),
    ensures
        resolve_spec(
            display_form(repo.host@, repo.owner@, repo.name@, false, false),
            Location::Remote,
            Some(repo.host@),
            Some(repo.owner@),
            None,
            None,
        ) matches Ok(Some(v)) && v.host == repo.host@ && v.owner == repo.owner@ && v.name
            == repo.name@,
{
    lemma_display_is_shorthand(repo.host@, repo.owner@, repo.name@);
}

/// The resolutions of `refs` against the filters, in order; references that
/// a filter excludes are left out.
pub open spec fn parse_repos_spec(
    refs: Seq<Reference>,
    default_host: Option<Seq<char>>,
    default_owner: Option<Seq<char>>,
    host: Option<Seq<char>>,
    owner: Option<Seq<char>>,
) -> Seq<Result<RepoView, SrcRepoError>>
    decreases refs.len(),
{
    if refs.len() == 0 {
        Seq::empty()
    } else {
        let p = parse_repos_spec(refs.drop_last(), default_host, default_owner, host, owner);
        match resolve_spec(
            refs.last().text@,
            refs.last().location,
            default_host,
            default_owner,
            host,
            owner,
        ) {
            Ok(Some(v)) => p.push(Ok(v)),
            Ok(None) => p,
            Err(e) => p.push(Err(e)),
        }
    }
}

/// The views of a sequence of results.
pub open spec fn results_view(s: Seq<Result<Repo, SrcRepoError>>) -> Seq<Result<RepoView, SrcRepoError>> {
    s.map_values(|r: Result<Repo, SrcRepoError>| result_view(r))
}

/// Resolves each reference, leaving out those that a filter excludes.
pub fn parse_repos(
    refs: &Vec<Reference>,
    default_host: Option<&String>,
    default_owner: Option<&String>,
    host: Option<&String>,
    owner: Option<&String>,
) -> (r: Vec<Result<Repo, SrcRepoError>>)
    ensures
        results_view(r@) == parse_repos_spec(
            refs@,
            ref_view(default_host),
            ref_view(default_owner),
            ref_view(host),
            ref_view(owner),
        ),
{
    let mut out: Vec<Result<Repo, SrcRepoError>> = Vec::new();
    let mut i: usize = 0;
    assert(refs@.take(0) =~= Seq::<Reference>::empty());
    assert(results_view(out@) =~= Seq::<Result<RepoView, SrcRepoError>>::empty());
    while i < refs.len()
        invariant
            i <= refs.len(),
            results_view(out@) == parse_repos_spec(
                refs@.take(i as int),
                ref_view(default_host),
                ref_view(default_owner),
                ref_view(host),
                ref_view(owner),
            ),
        decreases refs.len() - i,
    {
        let rf = &refs[i];
        assert(refs@.take(i + 1).drop_last() =~= refs@.take(i as int));
        assert(refs@.take(i + 1).last() == *rf);
        let ghost before = out@;
        match resolve_reference(
            rf.text.as_str(),
            &rf.location,
            default_host,
            default_owner,
            host,
            owner,
        ) {
            Ok(Some(repo)) => {
                out.push(Ok(repo));
                assert(results_view(out@) =~= results_view(before).push(Ok(repo@)));
            },
            Ok(None) => {},
            Err(e) => {
                out.push(Err(e));
                assert(results_view(out@) =~= results_view(before).push(Err(e)));
            },
        }
        i = i + 1;
    }
    assert(refs@.take(i as int) =~= refs@);
    out
}

/// The filter values to try: the given value alone, or, when the
/// repository must exist and no value is given, every known value.
pub open spec fn values_spec(must_exist: bool, value: Option<Seq<char>>, known: Seq<Seq<char>>) -> Seq<
    Option<Seq<char>>,
> {
    if must_exist && value is None {
        known.map_values(|v: Seq<char>| Some(v))
    } else {
        seq![value]
    }
}

/// The views of optional strings.
pub open spec fn opt_views_of(s: Seq<Option<String>>) -> Seq<Option<Seq<char>>> {
    s.map_values(|o: Option<String>| opt_view(o))
}

/// The filter values to try, as `values_spec` states.
pub fn get_values(must_exist: bool, value: Option<String>, known: &Vec<String>) -> (r: Vec<
    Option<String>,
>)
    ensures
        opt_views_of(r@) == values_spec(must_exist, opt_view(value), crate::text::views(known@)),
{
    let mut values: Vec<Option<String>> = Vec::new();
    if must_exist && value.is_none() {
        let mut i: usize = 0;
        while i < known.len()
            invariant
                i <= known.len(),
                opt_views_of(values@) == crate::text::views(known@).take(i as int).map_values(
                    |v: Seq<char>| Some(v),
                ),
            decreases known.len() - i,
        {
            let ghost before = values@;
            values.push(Some(known[i].clone()));
            assert(opt_views_of(values@) =~= opt_views_of(before).push(Some(known[i as int]@)));
            assert(crate::text::views(known@).take(i + 1).map_values(|v: Seq<char>| Some(v))
                =~= crate::text::views(known@).take(i as int).map_values(|v: Seq<char>| Some(v)).push(
                Some(known[i as int]@),
            ));
            i = i + 1;
        }
        assert(crate::text::views(known@).take(i as int) =~= crate::text::views(known@));
    } else {
        values.push(value);
        assert(opt_views_of(values@) =~= seq![opt_view(value)]);
    }
    values
}

/// The resolutions for one host filter and each owner filter in turn.
pub open spec fn for_owners(
    refs: Seq<Reference>,
    config: Config,
    host: Option<Seq<char>>,
    owners: Seq<Option<Seq<char>>>,
) -> Seq<Result<RepoView, SrcRepoError>>
    decreases owners.len(),
{
    if owners.len() == 0 {
        Seq::empty()
    } else {
        for_owners(refs, config, host, owners.drop_last()) + parse_repos_spec(
            refs,
            opt_view(config.host),
            opt_view(config.owner),
            host,
            owners.last(),
        )
    }
}

/// The resolutions for each pair of a host filter and an owner filter.
pub open spec fn for_hosts(
    refs: Seq<Reference>,
    config: Config,
    hosts: Seq<Option<Seq<char>>>,
    owners: Seq<Option<Seq<char>>>,
) -> Seq<Result<RepoView, SrcRepoError>>
    decreases hosts.len(),
{
    if hosts.len() == 0 {
        Seq::empty()
    } else {
        for_hosts(refs, config, hosts.drop_last(), owners) + for_owners(
            refs,
            config,
            hosts.last(),
            owners,
        )
    }
}

/// Whether a repository with the identity of `r` is among `managed`.
pub open spec fn is_managed(managed: Seq<RepoView>, r: RepoView) -> bool {
    exists|k: int| 0 <= k < managed.len() && same_id(#[trigger] managed[k], r)
}

/// The repositories among the resolutions, in order; with `must_exist`,
/// only those already managed.
pub open spec fn resolved_spec(
    s: Seq<Result<RepoView, SrcRepoError>>,
    must_exist: bool,
    managed: Seq<RepoView>,
) -> Seq<RepoView>
    decreases s.len(),
{
    if s.len() == 0 {
        Seq::empty()
    } else {
        let p = resolved_spec(s.drop_last(), must_exist, managed);
        match s.last() {
            Ok(v) => if !must_exist || is_managed(managed, v) {
                p.push(v)
            } else {
                p
            },
            Err(_) => p,
        }
    }
}

/// The errors among the resolutions, in order.
pub open spec fn errors_spec(s: Seq<Result<RepoView, SrcRepoError>>) -> Seq<SrcRepoError>
    decreases s.len(),
{
    if s.len() == 0 {
        Seq::empty()
    } else {
        let p = errors_spec(s.drop_last());
        match s.last() {
            Ok(_) => p,
            Err(e) => p.push(e),
        }
    }
}

/// Whether a repository with the identity of `r` is among `managed`.
pub fn managed_contains(managed: &Vec<Repo>, r: &Repo) -> (b: bool)
    ensures
        b == is_managed(rviews(managed@), r@),
{
    let mut k: usize = 0;
    while k < managed.len()
        invariant
            k <= managed.len(),
            forall|j: int| 0 <= j < k ==> !same_id(#[trigger] rviews(managed@)[j], r@),
        decreases managed.len() - k,
    {
        if managed[k] == *r {
            assert(same_id(rviews(managed@)[k as int], r@));
            return true;
        }
        k = k + 1;
    }
    false
}

/// Resolves references for removal or addition. Each reference is tried
/// with every pair of host and owner filter values (`get_values`, with the
/// known hosts and owners when the repository must exist), defaults coming
/// from `config`. Returns the repositories, one per identity (with
/// `must_exist`, only those among `managed`), and the errors met, for the
/// caller to report.
pub fn parse_repos_with_error_log(
    config: &Config,
    refs: &Vec<Reference>,
    host: Option<&String>,
    owner: Option<&String>,
    must_exist: bool,
    known_hosts: &Vec<String>,
    known_owners: &Vec<String>,
    managed: &Vec<Repo>,
) -> (r: (Vec<Repo>, Vec<SrcRepoError>))
    ensures
        ({
            let all = for_hosts(
                refs@,
                *config,
                values_spec(must_exist, ref_view(host), crate::text::views(known_hosts@)),
                values_spec(must_exist, ref_view(owner), crate::text::views(known_owners@)),
            );
            &&& rviews(r.0@) == unique_spec(resolved_spec(all, must_exist, rviews(managed@)))
            &&& r.1@ == errors_spec(all)
        }),
{
    let hosts = get_values(must_exist, match host {
        Some(h) => Some(h.clone()),
        None => None,
    }, known_hosts);
    let owners = get_values(must_exist, match owner {
        Some(o) => Some(o.clone()),
        None => None,
    }, known_owners);
    let ghost hs = opt_views_of(hosts@);
    let ghost os = opt_views_of(owners@);
    let dh = config.host.as_ref();
    let dow = config.owner.as_ref();
    assert(ref_view(dh) == opt_view(config.host));
    assert(ref_view(dow) == opt_view(config.owner));
    let mut all: Vec<Result<Repo, SrcRepoError>> = Vec::new();
    let mut i: usize = 0;
    assert(hs.take(0) =~= Seq::<Option<Seq<char>>>::empty());
    assert(results_view(all@) =~= Seq::<Result<RepoView, SrcRepoError>>::empty());
    while i < hosts.len()
        invariant
            i <= hosts.len(),
            hs == opt_views_of(hosts@),
            os == opt_views_of(owners@),
            results_view(all@) == for_hosts(refs@, *config, hs.take(i as int), os),
            ref_view(dh) == opt_view(config.host),
            ref_view(dow) == opt_view(config.owner),
        decreases hosts.len() - i,
    {
        let mut j: usize = 0;
        let ghost start = results_view(all@);
        assert(os.take(0) =~= Seq::<Option<Seq<char>>>::empty());
        assert(start =~= start + for_owners(refs@, *config, hs[i as int], os.take(0)));
        while j < owners.len()
            invariant
                i < hosts.len(),
                j <= owners.len(),
                hs == opt_views_of(hosts@),
                os == opt_views_of(owners@),
                results_view(all@) == start + for_owners(refs@, *config, hs[i as int], os.take(j as int)),
                ref_view(dh) == opt_view(config.host),
                ref_view(dow) == opt_view(config.owner),
            decreases owners.len() - j,
        {
            let hf = hosts[i].as_ref();
            let of = owners[j].as_ref();
            assert(ref_view(hf) == opt_view(hosts[i as int]));
            assert(ref_view(of) == opt_view(owners[j as int]));
            let mut batch = parse_repos(refs, dh, dow, hf, of);
            let ghost before = all@;
            let ghost b = batch@;
            all.append(&mut batch);
            assert(results_view(all@) =~= results_view(before) + results_view(b));
            assert(os.take(j + 1).drop_last() =~= os.take(j as int));
            assert(os.take(j + 1).last() == opt_view(owners[j as int]));
            assert(hs[i as int] == opt_view(hosts[i as int]));
            j = j + 1;
        }
        assert(os.take(j as int) =~= os);
        assert(hs.take(i + 1).drop_last() =~= hs.take(i as int));
        assert(hs.take(i + 1).last() == hs[i as int]);
        i = i + 1;
    }
    assert(hs.take(i as int) =~= hs);
    let ghost av = results_view(all@);
    let mut found: Vec<Repo> = Vec::new();
    let mut errors: Vec<SrcRepoError> = Vec::new();
    let mut k: usize = 0;
    assert(av.take(0) =~= Seq::<Result<RepoView, SrcRepoError>>::empty());
    assert(rviews(found@) =~= Seq::<RepoView>::empty());
    assert(errors@ =~= Seq::<SrcRepoError>::empty());
    while k < all.len()
        invariant
            k <= all.len(),
            av == results_view(all@),
            rviews(found@) == resolved_spec(av.take(k as int), must_exist, rviews(managed@)),
            errors@ == errors_spec(av.take(k as int)),
        decreases all.len() - k,
    {
        assert(av.take(k + 1).drop_last() =~= av.take(k as int));
        assert(av.take(k + 1).last() == result_view(all[k as int]));
        match &all[k] {
            Ok(repo) => {
                if !must_exist || managed_contains(managed, repo) {
                    let ghost before = found@;
                    found.push(repo.copy());
                    assert(rviews(found@) =~= rviews(before).push(repo@));
                }
            },
            Err(e) => {
                errors.push(*e);
            },
        }
        k = k + 1;
    }
    assert(av.take(k as int) =~= av);
    (filter_unique_repos(&found), errors)
}

} // verus!
