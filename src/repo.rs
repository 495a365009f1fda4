//! The repository identity: host, owner and name, with where it came from.

use vstd::prelude::*;
use git_url_parse::types::provider::GenericProvider;
use git_url_parse::{GitUrl, GitUrlParseError};

use crate::error::SrcRepoError;
use crate::urlcheck::{is_parser_safe, parser_safe};

verus! {

/// A repository, identified by `(host, owner, name)`. `path` is the local
/// clone it was read from, if any, and `url` the reference it was resolved
/// from (the remote `origin`, for a local clone). Equality ignores `path` and
/// `url`.
#[derive(Clone, Debug)]
pub struct Repo {
    pub host: String,
    pub name: String,
    pub owner: String,
    pub path: Option<String>,
    pub url: String,
}

/// A repository as plain values.
pub ghost struct RepoView {
    pub host: Seq<char>,
    pub owner: Seq<char>,
    pub name: Seq<char>,
    pub path: Option<Seq<char>>,
    pub url: Seq<char>,
}

impl View for Repo {
    type V = RepoView;

    open spec fn view(&self) -> RepoView {
        RepoView {
            host: self.host@,
            owner: self.owner@,
            name: self.name@,
            path: opt_view(self.path),
            url: self.url@,
        }
    }
}

/// The view of a result that carries a repository.
pub open spec fn result_view(r: Result<Repo, SrcRepoError>) -> Result<RepoView, SrcRepoError> {
    match r {
        Ok(repo) => Ok(repo@),
        Err(e) => Err(e),
    }
}

/// The view of an optional string.
pub open spec fn opt_view(o: Option<String>) -> Option<Seq<char>> {
    match o {
        Some(s) => Some(s@),
        None => None,
    }
}

/// Two repositories are the same repository when host, owner and name agree.
pub open spec fn same_identity(a: Repo, b: Repo) -> bool {
    a.host@ == b.host@ && a.owner@ == b.owner@ && a.name@ == b.name@
}

/// A segment of an identity: non-empty, and free of the separators `/` and `:`.
pub open spec fn valid_segment(s: Seq<char>) -> bool {
    s.len() > 0 && !s.contains('/') && !s.contains(':')
}

/// `host:owner/name`, with `host:` left out under `no_host` and `owner/`
/// left out under `no_owner`.
pub open spec fn display_form(
    host: Seq<char>,
    owner: Seq<char>,
    name: Seq<char>,
    no_host: bool,
    no_owner: bool,
) -> Seq<char> {
    (if no_host {
        Seq::empty()
    } else {
        host + seq![':']
    }) + (if no_owner {
        Seq::empty()
    } else {
        owner + seq!['/']
    }) + name
}

/// The canonical place of a repository under `base`: `base/host/owner/name`.
pub open spec fn managed_path(base: Seq<char>, host: Seq<char>, owner: Seq<char>, name: Seq<char>) -> Seq<
    char,
> {
    base + seq!['/'] + host + seq!['/'] + owner + seq!['/'] + name
}

impl PartialEq for Repo {
    fn eq(&self, other: &Repo) -> bool {
        self.host == other.host && self.owner == other.owner && self.name == other.name
    }
}

impl vstd::std_specs::cmp::PartialEqSpecImpl for Repo {
    open spec fn obeys_eq_spec() -> bool {
        true
    }

    open spec fn eq_spec(&self, other: &Repo) -> bool {
        same_identity(*self, *other)
    }
}

impl Eq for Repo {
}

/// A copy of an optional string.
pub fn copy_opt(o: &Option<String>) -> (r: Option<String>)
    ensures
        r == *o,
{
    match o {
        Some(s) => Some(s.clone()),
        None => None,
    }
}

impl Repo {
    /// Builds a repository from its fields.
    pub fn new(host: &str, name: &str, owner: &str, path: Option<String>, url: &str) -> (r: Repo)
        ensures
            r.host@ == host@,
            r.name@ == name@,
            r.owner@ == owner@,
            r.path == path,
            r.url@ == url@,
    {
        Repo {
            host: host.to_owned(),
            name: name.to_owned(),
            owner: owner.to_owned(),
            path,
            url: url.to_owned(),
        }
    }

    /// A field-for-field copy.
    pub fn copy(&self) -> (r: Repo)
        ensures
            r == *self,
    {
        Repo {
            host: self.host.clone(),
            name: self.name.clone(),
            owner: self.owner.clone(),
            path: copy_opt(&self.path),
            url: self.url.clone(),
        }
    }

    /// The repository as `host:owner/name`, with `host:` and `owner/`
    /// elidable.
    pub fn display(&self, no_host: bool, no_owner: bool) -> (r: String)
        ensures
            r@ == display_form(self.host@, self.owner@, self.name@, no_host, no_owner),
    {
        proof {
            reveal_strlit(":");
            reveal_strlit("/");
        }
        let mut s = String::new();
        if !no_host {
            s.append(self.host.as_str());
            s.append(":");
        }
        if !no_owner {
            s.append(self.owner.as_str());
            s.append("/");
        }
        s.append(self.name.as_str());
        assert(s@ =~= display_form(self.host@, self.owner@, self.name@, no_host, no_owner));
        s
    }

    /// The canonical path of the repository under `base_directory`.
    pub fn path(&self, base_directory: &str) -> (r: String)
        ensures
            r@ == managed_path(base_directory@, self.host@, self.owner@, self.name@),
    {
        proof {
            reveal_strlit("/");
        }
        let mut s = base_directory.to_owned();
        s.append("/");
        s.append(self.host.as_str());
        s.append("/");
        s.append(self.owner.as_str());
        s.append("/");
        s.append(self.name.as_str());
        assert(s@ =~= managed_path(base_directory@, self.host@, self.owner@, self.name@));
        s
    }
}

/// The url parser's error, which only passes through the wrapper below.
#[verifier::external_type_specification]
#[verifier::external_body]
pub struct ExGitUrlParseError(GitUrlParseError);

/// What the url parser makes of a url: its host if it names one, the owner
/// and the repository name; `None` where it refuses the url.
pub uninterp spec fn git_url_fields(url: Seq<char>) -> Option<(Option<Seq<char>>, Seq<char>, Seq<char>)>;

/// Relies on `git_url_parse::GitUrl::parse` followed by
/// `GitUrl::provider_info::<GenericProvider>` and `GitUrl::host`: the host,
/// owner and repository name of a url. The outcome depends on the url's
/// text alone. `GitUrl::parse` cuts the first character off the path of a
/// url whose scheme holds `ssh`, and panics where that path is empty (the
/// parser could not read the authority, or found nothing after it) or
/// starts with a multi-byte character. `parser_safe` leaves out every such
/// text, and some others of those urls: non-ASCII ones, ones with `\`, and
/// a few with a `:` after the host that is not followed by a port and a
/// path.
#[verifier::external_body]
fn git_url_parts(url: &str) -> (r: Result<(Option<String>, String, String), GitUrlParseError>)
    requires
        parser_safe(url@),
    ensures
        match r {
            Ok((host, owner, name)) => git_url_fields(url@) == Some((opt_view(host), owner@, name@)),
            Err(_) => git_url_fields(url@) is None,
        },
{
    let git_url = GitUrl::parse(url)?;
    let provider = git_url.provider_info::<GenericProvider>()?;
    Ok((git_url.host().map(String::from), provider.owner().clone(), provider.repo().clone()))
}

/// What `parse_url` returns for `url`, read from a local clone at `local`
/// when there is one.
pub open spec fn parse_url_spec(url: Seq<char>, local: Option<Seq<char>>) -> Result<RepoView, SrcRepoError> {
    if !parser_safe(url) {
        Err(SrcRepoError::GitUrlParseError)
    } else {
        match git_url_fields(url) {
            None => Err(SrcRepoError::GitUrlParseError),
            Some((None, _, _)) => Err(SrcRepoError::GitUrl),
            Some((Some(host), owner, name)) => {
                if host.len() == 0 || owner.len() == 0 || name.len() == 0 {
                    Err(SrcRepoError::GitUrl)
                } else {
                    Ok(RepoView { host, owner, name, path: local, url })
                }
            },
        }
    }
}

/// Parses a url into a repository. With `local_repo_path`, the url is the
/// remote of that local clone, whose path the repository records. A text
/// that the url parser cannot take safely, or refuses, fails with
/// `GitUrlParseError`; a url whose host, owner or name is missing or empty
/// fails with `GitUrl`.
pub fn parse_url(url: &str, local_repo_path: Option<&String>) -> (r: Result<Repo, SrcRepoError>)
    ensures
        result_view(r) == parse_url_spec(
            url@,
            match local_repo_path {
                Some(p) => Some(p@),
                None => None,
            },
        ),
{
    if !is_parser_safe(url) {
        return Err(SrcRepoError::GitUrlParseError);
    }
    match git_url_parts(url) {
        Err(_) => Err(SrcRepoError::GitUrlParseError),
        Ok((None, _, _)) => Err(SrcRepoError::GitUrl),
        Ok((Some(host), owner, name)) => {
            if host.unicode_len() == 0 || owner.unicode_len() == 0 || name.unicode_len() == 0 {
                return Err(SrcRepoError::GitUrl);
            }
            let path = match local_repo_path {
                Some(p) => Some(p.clone()),
                None => None,
            };
            Ok(Repo { host, name, owner, path, url: url.to_owned() })
        },
    }
}

} // verus!
