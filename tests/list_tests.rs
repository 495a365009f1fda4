use src_repo::add::plan_additions;
use src_repo::config::{chosen_owner, get_config_path, get_root_directory, get_username, owner_filter, Config};
use src_repo::error::SrcRepoError;
use src_repo::list::{
    component_values, get_non_managed_repo_paths, get_repo_paths, get_repos, list_all_repos,
    list_non_managed_repos, list_repos, LocalClone, Matcher, ScanEntry,
};
use src_repo::reference::{get_values, parse_repos, parse_repos_with_error_log, Location, Reference};
use src_repo::repo::Repo;
use src_repo::sort::{sort_ignoring_case, sort_repos, SortByComponent};
use src_repo::text::{path_components, same_ignoring_case, split_on};

const ROOT: &str = "/home/u/src";

fn dir(path: &str, depth: usize, has_git_dir: bool) -> ScanEntry {
    ScanEntry { path: path.to_string(), depth, is_dir: true, has_git_dir }
}

fn managed_walk() -> Vec<ScanEntry> {
    vec![
        dir("/home/u/src", 0, false),
        dir("/home/u/src/github.com", 1, false),
        dir("/home/u/src/github.com/alice", 2, false),
        dir("/home/u/src/github.com/alice/proj", 3, true),
        dir("/home/u/src/github.com/alice/proj/src", 4, false),
    ]
}

fn home_walk() -> Vec<ScanEntry> {
    vec![
        dir("/home/u", 0, false),
        dir("/home/u/src/github.com/alice/proj", 4, true),
        dir("/home/u/other/proj2", 2, true),
        dir("/home/u/.cache/thing", 2, true),
        dir("/home/u/notes", 1, false),
        ScanEntry { path: "/home/u/file".to_string(), depth: 1, is_dir: false, has_git_dir: false },
    ]
}

fn clones() -> Vec<LocalClone> {
    vec![LocalClone {
        path: "/home/u/other/proj2".to_string(),
        origin: Some("git@gitlab.com:bob/proj2.git".to_string()),
    }]
}

#[test]
fn scenario_lists_managed_unmanaged_and_all() {
    let managed = list_repos(ROOT, None, None, None, false, false, false, None, &managed_walk());
    assert_eq!(managed, vec!["github.com:alice/proj".to_string()]);
    let home = "/home/u".to_string();
    let unmanaged =
        list_non_managed_repos(ROOT, Some(&home), None, None, None, false, false, false, None, &clones()).unwrap();
    assert_eq!(unmanaged, vec!["gitlab.com:bob/proj2".to_string()]);
    let all = list_all_repos(ROOT, Some(&home), None, None, None, false, false, false, None, &managed_walk(), &clones())
        .unwrap();
    assert_eq!(all, vec!["github.com:alice/proj".to_string(), "gitlab.com:bob/proj2".to_string()]);
    let paths =
        list_non_managed_repos(ROOT, Some(&home), None, None, None, false, false, true, None, &clones()).unwrap();
    assert_eq!(paths, vec!["/home/u/other/proj2".to_string()]);
}

#[test]
fn listings_without_home_fail() {
    let r = list_non_managed_repos(ROOT, None, None, None, None, false, false, false, None, &clones());
    assert!(matches!(r, Err(SrcRepoError::HomeDir)));
    let r = list_all_repos(ROOT, None, None, None, None, false, false, false, None, &managed_walk(), &clones());
    assert!(matches!(r, Err(SrcRepoError::HomeDir)));
}

#[test]
fn removal_owner_choice() {
    let empty = Config { host: None, owner: None, root_directory: None };
    let alice = "alice".to_string();
    assert!(matches!(chosen_owner(true, Some(&alice), &empty), Err(SrcRepoError::Config)));
    assert_eq!(chosen_owner(false, Some(&alice), &empty).unwrap(), Some("alice".to_string()));
    assert_eq!(chosen_owner(false, None, &empty).unwrap(), None);
    let config = Config { host: None, owner: Some("bob".to_string()), root_directory: None };
    assert_eq!(chosen_owner(true, Some(&alice), &config).unwrap(), Some("bob".to_string()));
}

#[test]
fn unmanaged_candidates_skip_managed_and_hidden() {
    let home = "/home/u".to_string();
    let paths = get_non_managed_repo_paths(ROOT, Some(&home), false, &home_walk()).unwrap();
    assert_eq!(paths, vec!["/home/u/other/proj2".to_string()]);
    let paths = get_non_managed_repo_paths(ROOT, Some(&home), true, &home_walk()).unwrap();
    assert_eq!(paths, vec!["/home/u/other/proj2".to_string(), "/home/u/.cache/thing".to_string()]);
}

#[test]
fn unknown_home_is_an_error() {
    let r = get_non_managed_repo_paths(ROOT, None, false, &home_walk());
    assert!(matches!(r, Err(SrcRepoError::HomeDir)));
}

#[test]
fn listing_managed_twice_gives_the_same_output() {
    let walk = vec![
        dir("/home/u/src/gitlab.com/Zed/b", 3, true),
        dir("/home/u/src/github.com/alice/proj", 3, true),
        dir("/home/u/src/github.com/Bob/a", 3, true),
    ];
    let first = list_repos(ROOT, None, None, None, false, false, true, None, &walk);
    let second = list_repos(ROOT, None, None, None, false, false, true, None, &walk);
    assert_eq!(first, second);
    assert_eq!(
        first,
        vec![
            "/home/u/src/github.com/alice/proj".to_string(),
            "/home/u/src/github.com/Bob/a".to_string(),
            "/home/u/src/gitlab.com/Zed/b".to_string(),
        ]
    );
}

#[test]
fn sorting_by_owner_is_case_sensitive_and_stable() {
    let walk = vec![
        dir("/home/u/src/h2/alice/x", 3, true),
        dir("/home/u/src/h1/Bob/y", 3, true),
        dir("/home/u/src/h3/alice/z", 3, true),
    ];
    let out = list_repos(ROOT, None, None, None, false, false, false, Some(SortByComponent::Owner), &walk);
    assert_eq!(out, vec!["h1:Bob/y".to_string(), "h2:alice/x".to_string(), "h3:alice/z".to_string()]);
    let out = list_repos(ROOT, None, None, None, false, false, false, Some(SortByComponent::Host), &walk);
    assert_eq!(out, vec!["h1:Bob/y".to_string(), "h2:alice/x".to_string(), "h3:alice/z".to_string()]);
    let out = list_repos(ROOT, None, None, None, true, true, false, None, &walk);
    assert_eq!(out, vec!["x".to_string(), "y".to_string(), "z".to_string()]);
}

#[test]
fn sort_ignoring_case_orders_lowercased() {
    let out = sort_ignoring_case(&vec!["b".to_string(), "C".to_string(), "A".to_string(), "a".to_string()]);
    assert_eq!(out, vec!["A".to_string(), "a".to_string(), "b".to_string(), "C".to_string()]);
    assert!(same_ignoring_case("GitHub", "github"));
    assert!(!same_ignoring_case("GitHub", "gitlab"));
}

#[test]
fn sort_repos_by_name() {
    let repos = vec![
        Repo::new("h", "b", "o", None, "u1"),
        Repo::new("h", "a", "o", None, "u2"),
        Repo::new("h", "b", "o", None, "u3"),
    ];
    let out = sort_repos(&repos, SortByComponent::Name);
    let urls: Vec<&str> = out.iter().map(|r| r.url.as_str()).collect();
    assert_eq!(urls, vec!["u2", "u1", "u3"]);
}

#[test]
fn fuzzy_owner_filter_keeps_close_owners() {
    let walk = vec![
        dir("/home/u/src/github.com/alice/p1", 3, true),
        dir("/home/u/src/github.com/alicia/p2", 3, true),
        dir("/home/u/src/github.com/bob/p3", 3, true),
    ];
    let repos = get_repos(ROOT, None, None, None, &walk);
    let owners = component_values(&repos, SortByComponent::Owner);
    assert_eq!(owners, vec!["alice".to_string(), "alicia".to_string(), "bob".to_string()]);
    let accepted: Vec<String> = owners
        .into_iter()
        .filter(|o| strsim::normalized_levenshtein("alic", o) > 0.1)
        .collect();
    assert_eq!(accepted, vec!["alice".to_string(), "alicia".to_string()]);
    let filter = Matcher::OneOf(accepted);
    let out = list_repos(ROOT, None, Some(&filter), None, false, false, false, None, &walk);
    assert_eq!(out, vec!["github.com:alice/p1".to_string(), "github.com:alicia/p2".to_string()]);
}

#[test]
fn exact_filters_and_paths() {
    let walk = vec![
        dir("/home/u/src/github.com/alice/p1", 3, true),
        dir("/home/u/src/gitlab.com/alice/p2", 3, true),
    ];
    let host = Matcher::Exact("gitlab.com".to_string());
    let paths = get_repo_paths(ROOT, Some(&host), None, None, &walk);
    assert_eq!(paths, vec!["/home/u/src/gitlab.com/alice/p2".to_string()]);
    let alic = Matcher::Exact("alic".to_string());
    assert!(get_repos(ROOT, None, Some(&alic), None, &walk).is_empty());
}

#[test]
fn add_skips_a_repository_already_managed() {
    let managed = get_repos(ROOT, None, None, None, &managed_walk());
    let wanted = vec![Repo::new("github.com", "proj", "alice", None, "https://github.com/alice/proj")];
    assert!(plan_additions(&wanted, ROOT, &managed, false).is_empty());
    let forced = plan_additions(&wanted, ROOT, &managed, true);
    assert_eq!(forced.len(), 1);
    assert_eq!(forced[0].source, "https://github.com/alice/proj");
    assert_eq!(forced[0].target, "/home/u/src/github.com/alice/proj");
    let new = vec![Repo::new("github.com", "new", "alice", None, "https://github.com/alice/new")];
    let plan = plan_additions(&new, ROOT, &managed, false);
    assert_eq!(plan.len(), 1);
    assert_eq!(plan[0].target, "/home/u/src/github.com/alice/new");
}

#[test]
fn config_values_and_errors() {
    let home = "/home/u".to_string();
    let config = Config::with_defaults(Some(&home), None, Some("gl".to_string()));
    assert_eq!(config.host, Some("github.com".to_string()));
    assert_eq!(config.owner, Some("gl".to_string()));
    assert_eq!(get_root_directory(&config).unwrap(), "/home/u/src");
    assert_eq!(get_username(&config).unwrap(), "gl");
    let empty = Config { host: None, owner: None, root_directory: None };
    assert!(matches!(get_root_directory(&empty), Err(SrcRepoError::Config)));
    assert!(matches!(get_username(&empty), Err(SrcRepoError::Config)));
    assert_eq!(get_config_path("/home/u/.config"), "/home/u/.config/src/config.toml");
    assert!(matches!(owner_filter(true, None, &empty), Some(Matcher::OneOf(v)) if v.is_empty()));
    assert!(matches!(owner_filter(true, None, &config), Some(Matcher::Exact(s)) if s == "gl"));
}

#[test]
fn get_values_expands_known_values() {
    let known = vec!["a".to_string(), "b".to_string()];
    assert_eq!(get_values(true, None, &known), vec![Some("a".to_string()), Some("b".to_string())]);
    assert_eq!(get_values(true, Some("c".to_string()), &known), vec![Some("c".to_string())]);
    assert_eq!(get_values(false, None, &known), vec![None]);
}

#[test]
fn parse_repos_reports_errors_and_keeps_existing() {
    let config = Config {
        host: Some("github.com".to_string()),
        owner: Some("alice".to_string()),
        root_directory: Some(ROOT.to_string()),
    };
    let refs = vec![
        Reference { text: "proj".to_string(), location: Location::Remote },
        Reference { text: "other".to_string(), location: Location::Remote },
        Reference { text: "/tmp/x".to_string(), location: Location::Local { path: "/tmp/x".to_string(), origin: None } },
    ];
    let results = parse_repos(&refs, config.host.as_ref(), config.owner.as_ref(), None, None);
    assert_eq!(results.len(), 3);
    assert!(matches!(results[2], Err(SrcRepoError::Git)));
    let managed = get_repos(ROOT, None, None, None, &managed_walk());
    let hosts = vec!["github.com".to_string()];
    let owners = vec!["alice".to_string()];
    let (found, errors) = parse_repos_with_error_log(&config, &refs, None, None, true, &hosts, &owners, &managed);
    assert_eq!(found.len(), 1);
    assert_eq!(found[0].name, "proj");
    assert_eq!(errors.len(), 1);
}

#[test]
fn splitting_paths() {
    assert_eq!(path_components("/a//b/"), vec!["a".to_string(), "b".to_string()]);
    assert_eq!(split_on("a:b", ':'), vec!["a".to_string(), "b".to_string()]);
    assert_eq!(split_on("", ':'), vec!["".to_string()]);
}
