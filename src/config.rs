//! Settings: the root directory of managed clones, and the default host and
//! owner for shorthand references.

use vstd::prelude::*;

use crate::error::SrcRepoError;
use crate::list::Matcher;
use crate::repo::opt_view;

verus! {

/// Settings, once merged from defaults, the configuration file and the
/// environment.
pub struct Config {
    pub host: Option<String>,
    pub owner: Option<String>,
    pub root_directory: Option<String>,
}

/// `base/name`.
pub open spec fn joined(base: Seq<char>, name: Seq<char>) -> Seq<char> {
    base + seq!['/'] + name
}

impl Config {
    /// The built-in settings: root `home/src` where the home directory is
    /// known, host `github.com`, and as owner the git user name configured
    /// for github, else the one for gitlab.
    pub fn with_defaults(home: Option<&String>, github_user: Option<String>, gitlab_user: Option<
        String,
    >) -> (r: Config)
        ensures
            r.host matches Some(h) && h@ == "github.com"@,
            r.owner == (match github_user {
                Some(u) => Some(u),
                None => gitlab_user,
            }),
            opt_view(r.root_directory) == (match home {
                Some(h) => Some(joined(h@, "src"@)),
                None => None,
            }),
    {
        let root_directory = match home {
            Some(h) => {
                let mut d = h.clone();
                d.append("/src");
                proof {
                    reveal_strlit("/src");
                    reveal_strlit("src");
                }
                assert(d@ =~= joined(h@, "src"@));
                Some(d)
            },
            None => None,
        };
        let owner = match github_user {
            Some(u) => Some(u),
            None => gitlab_user,
        };
        Config { host: Some("github.com".to_owned()), owner, root_directory }
    }
}

/// Where the configuration file lives under the configuration directory.
pub fn get_config_path(config_dir: &str) -> (r: String)
    ensures
        r@ == joined(config_dir@, "src/config.toml"@),
{
    let mut p = config_dir.to_owned();
    p.append("/src/config.toml");
    proof {
        reveal_strlit("/src/config.toml");
        reveal_strlit("src/config.toml");
    }
    assert(p@ =~= joined(config_dir@, "src/config.toml"@));
    p
}

/// The root directory of managed clones; `Config` when none is set.
pub fn get_root_directory(config: &Config) -> (r: Result<String, SrcRepoError>)
    ensures
        match config.root_directory {
            Some(d) => r matches Ok(s) && s@ == d@,
            None => r matches Err(SrcRepoError::Config),
        },
{
    match &config.root_directory {
        Some(d) => Ok(d.clone()),
        None => Err(SrcRepoError::Config),
    }
}

/// The user's own name as a repository owner; `Config` when none is set.
pub fn get_username(config: &Config) -> (r: Result<String, SrcRepoError>)
    ensures
        match config.owner {
            Some(u) => r matches Ok(s) && s@ == u@,
            None => r matches Err(SrcRepoError::Config),
        },
{
    match &config.owner {
        Some(u) => Ok(u.clone()),
        None => Err(SrcRepoError::Config),
    }
}

/// The owner filter: with `me`, the configured user name (which no owner
/// matches when none is configured); otherwise `owner`, matched exactly.
pub fn owner_filter(me: bool, owner: Option<&String>, config: &Config) -> (r: Option<Matcher>)
    ensures
        me ==> match config.owner {
            Some(u) => r matches Some(Matcher::Exact(s)) && s@ == u@,
            None => r matches Some(Matcher::OneOf(vs)) && vs@.len() == 0,
        },
        !me ==> match owner {
            Some(o) => r matches Some(Matcher::Exact(s)) && s@ == o@,
            None => r is None,
        },
{
    if me {
        match &config.owner {
            Some(u) => Some(Matcher::Exact(u.clone())),
            None => Some(Matcher::OneOf(Vec::new())),
        }
    } else {
        match owner {
            Some(o) => Some(Matcher::Exact(o.clone())),
            None => None,
        }
    }
}

/// The owner that a removal filters by: with `me`, the configured user name,
/// failing with `Config` when none is set (then no repository matches);
/// otherwise `owner`, if given.
pub fn chosen_owner(me: bool, owner: Option<&String>, config: &Config) -> (r: Result<
    Option<String>,
    SrcRepoError,
>)
    ensures
        me ==> match config.owner {
            Some(u) => r matches Ok(Some(s)) && s@ == u@,
            None => r matches Err(SrcRepoError::Config),
        },
        !me ==> match owner {
            Some(o) => r matches Ok(Some(s)) && s@ == o@,
            None => r matches Ok(None),
        },
{
    if me {
        match &config.owner {
            Some(u) => Ok(Some(u.clone())),
            None => Err(SrcRepoError::Config),
        }
    } else {
        match owner {
            Some(o) => Ok(Some(o.clone())),
            None => Ok(None),
        }
    }
}

} // verus!
