use src_repo::error::SrcRepoError;
use src_repo::reference::{parse_repo, resolve_reference, Location};
use src_repo::repo::{parse_url, Repo};
use src_repo::unique::filter_unique_repos;

const HOST: &str = "github.com";
const NAME: &str = "src";
const OWNER: &str = "tymbalodeon";

fn validate_repo(repo: &Repo, url: &str) {
    assert_eq!(repo.host, HOST);
    assert_eq!(repo.name, NAME);
    assert_eq!(repo.owner, OWNER);
    assert_eq!(repo.url, url);
}

#[test]
fn it_parses_https_url() {
    let url = "https://github.com/tymbalodeon/src.git";
    let repo = parse_url(url, None);

    validate_repo(&repo.unwrap(), url);
}

#[test]
fn it_parses_ssh_url() {
    let url = "git@github.com:tymbalodeon/src.git";
    let repo = parse_url(url, None);

    validate_repo(&repo.unwrap(), url);
}

#[test]
fn it_prefers_local_paths_to_remote_urls() {
    let local_repo = Repo::new(
        "github.com",
        "src",
        "tymbalodeon",
        Some("/home/benrosen/src/github.com/tymbalodeon/src".to_string()),
        "git@github.com:tymbalodeon/src.git",
    );

    let repos_with_local_first = vec![
        local_repo.clone(),
        Repo::new(
            "github.com",
            "src",
            "tymbalodeon",
            None,
            "git@github.com:tymbalodeon/src.git",
        ),
    ];

    let repos_with_local_second = vec![
        Repo::new(
            "github.com",
            "src",
            "tymbalodeon",
            None,
            "git@github.com:tymbalodeon/src.git",
        ),
        local_repo.clone(),
    ];

    assert_eq!(
        filter_unique_repos(&repos_with_local_first),
        vec![local_repo.clone()]
    );

    assert_eq!(
        filter_unique_repos(&repos_with_local_second),
        vec![local_repo]
    );
}

#[test]
fn dedup_keeps_the_local_entry_itself() {
    let local = Repo::new("github.com", "proj", "alice", Some("/home/u/proj".to_string()), "/home/u/proj");
    let remote = Repo::new("github.com", "proj", "alice", None, "https://github.com/alice/proj");
    let other = Repo::new("gitlab.com", "proj", "alice", None, "https://gitlab.com/alice/proj");
    let out = filter_unique_repos(&vec![remote.clone(), other.clone(), local.clone(), remote]);
    assert_eq!(out.len(), 2);
    assert_eq!(out[0].path, Some("/home/u/proj".to_string()));
    assert_eq!(out[0].url, "/home/u/proj");
    assert_eq!(out[1].host, "gitlab.com");
    assert_eq!(out[1].path, None);
}

#[test]
fn canonical_url_forms_give_the_same_identity() {
    let expected = Repo::new("github.com", "proj", "alice", None, "");
    let https = parse_url("https://github.com/alice/proj.git", None).unwrap();
    let ssh = parse_url("git@github.com:alice/proj.git", None).unwrap();
    assert_eq!(https, expected);
    assert_eq!(ssh, expected);
    assert_eq!((https.host.as_str(), https.owner.as_str(), https.name.as_str()), ("github.com", "alice", "proj"));
    assert_eq!((ssh.host.as_str(), ssh.owner.as_str(), ssh.name.as_str()), ("github.com", "alice", "proj"));
}

#[test]
fn local_clone_records_its_path_and_origin() {
    let path = "/home/u/other/proj2".to_string();
    let location = Location::Local { path: path.clone(), origin: Some("git@gitlab.com:bob/proj2.git".to_string()) };
    let repo = parse_repo(&path, &location).unwrap();
    assert_eq!(repo.host, "gitlab.com");
    assert_eq!(repo.owner, "bob");
    assert_eq!(repo.name, "proj2");
    assert_eq!(repo.path, Some(path));
    assert_eq!(repo.url, "git@gitlab.com:bob/proj2.git");
}

#[test]
fn local_directory_without_remote_is_a_git_error() {
    let location = Location::Local { path: "/tmp/x".to_string(), origin: None };
    assert!(matches!(Repo::from("/tmp/x", &location), Err(SrcRepoError::Git)));
}

#[test]
fn unparseable_url_is_a_parse_error() {
    assert!(matches!(parse_url("", None), Err(SrcRepoError::GitUrlParseError)));
    assert!(matches!(parse_url("file:///home/u/repo", None), Err(SrcRepoError::GitUrlParseError)));
}

#[test]
fn display_forms() {
    let repo = Repo::new("github.com", "proj", "alice", None, "x");
    assert_eq!(repo.display(false, false), "github.com:alice/proj");
    assert_eq!(repo.display(true, false), "alice/proj");
    assert_eq!(repo.display(false, true), "github.com:proj");
    assert_eq!(repo.display(true, true), "proj");
    assert_eq!(repo.path("/home/u/src"), "/home/u/src/github.com/alice/proj");
}

#[test]
fn display_round_trips_as_shorthand() {
    let repo = Repo::new("gitlab.com", "proj2", "bob", None, "x");
    let text = repo.display(false, false);
    let host = "github.com".to_string();
    let owner = "alice".to_string();
    let back = resolve_reference(&text, &Location::Remote, Some(&host), Some(&owner), None, None)
        .unwrap()
        .unwrap();
    assert_eq!(back, repo);
    assert_eq!(back.host, "gitlab.com");
    assert_eq!(back.owner, "bob");
    assert_eq!(back.name, "proj2");
}

#[test]
fn shorthand_takes_filters_then_defaults() {
    let dh = "github.com".to_string();
    let dow = "alice".to_string();
    let fh = "gitlab.com".to_string();
    let r = resolve_reference("proj", &Location::Remote, Some(&dh), Some(&dow), Some(&fh), None)
        .unwrap()
        .unwrap();
    assert_eq!((r.host.as_str(), r.owner.as_str(), r.name.as_str()), ("gitlab.com", "alice", "proj"));
    assert_eq!(r.url, "proj");
    let r = resolve_reference("bob/proj", &Location::Remote, Some(&dh), Some(&dow), None, None)
        .unwrap()
        .unwrap();
    assert_eq!((r.host.as_str(), r.owner.as_str(), r.name.as_str()), ("github.com", "bob", "proj"));
}

#[test]
fn conflicting_reference_is_excluded() {
    let dh = "github.com".to_string();
    let fo = "ALICE".to_string();
    let r = resolve_reference("bob/proj", &Location::Remote, Some(&dh), None, None, Some(&fo)).unwrap();
    assert!(r.is_none());
    let r = resolve_reference("alice/proj", &Location::Remote, Some(&dh), None, None, Some(&fo)).unwrap();
    assert_eq!(r.unwrap().owner, "alice");
    let r = resolve_reference("https://github.com/bob/proj.git", &Location::Remote, None, None, None, Some(&fo)).unwrap();
    assert!(r.is_none());
}

#[test]
fn shorthand_without_host_or_default_is_incomplete() {
    let r = resolve_reference("alice/proj", &Location::Remote, None, None, None, None);
    assert!(matches!(r, Err(SrcRepoError::Incomplete)));
}

#[test]
fn url_with_empty_name_is_a_git_url_error() {
    assert!(matches!(parse_url("https://github.com/alice/.git", None), Err(SrcRepoError::GitUrl)));
}

#[test]
fn ssh_urls_without_a_path_are_refused() {
    for url in [
        "ssh://",
        "ssh://github.com",
        "ssh://git@github.com",
        "ssh://github.com:22",
        "ssh://ho st/x",
        "ssh://:x@h/o/n",
        "ssh://u:@h/o/n",
        "ssh://u::t@h/o/n",
        "ssh://h/ö/n",
    ] {
        assert!(matches!(parse_url(url, None), Err(SrcRepoError::GitUrlParseError)), "{url}");
        assert!(matches!(
            resolve_reference(url, &Location::Remote, None, None, None, None),
            Err(SrcRepoError::GitUrlParseError)
        ));
    }
}

#[test]
fn ssh_scheme_url_parses() {
    let repo = parse_url("ssh://git@github.com/alice/proj.git", None).unwrap();
    assert_eq!((repo.host.as_str(), repo.owner.as_str(), repo.name.as_str()), ("github.com", "alice", "proj"));
    assert_eq!(repo.url, "ssh://git@github.com/alice/proj.git");
}

#[test]
fn ssh_urls_the_parser_reads_are_not_refused() {
    let repo = parse_url("ssh://host/o/n%20", None).unwrap();
    assert_eq!((repo.host.as_str(), repo.owner.as_str(), repo.name.as_str()), ("host", "o", "n"));
    let repo = parse_url("git+ssh://git@github.com:22/alice/proj.git", None).unwrap();
    assert_eq!((repo.host.as_str(), repo.owner.as_str(), repo.name.as_str()), ("github.com", "alice", "proj"));
    let repo = parse_url("https://github.com/ö/n", None).unwrap();
    assert_eq!(repo.owner, "ö");
}
