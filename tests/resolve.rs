use alpacka::package::{Config, PackageSpec};
use alpacka::resolver::{build_manifest, plan_resolution};
use alpacka::smith::{
    default_branch_refspec, materialize_step, parse_version, refspec, resolved_descriptor,
    select_lock, CloneType, Git, GitLoader, LoaderType, LockType, MaterializeStep, RepoState, ResolveCause,
};
use alpacka::manifest::LoaderData;

fn empty_spec() -> PackageSpec {
    PackageSpec::new(None, None, None, None)
}

#[test]
fn test_with_smith_is_optional() {
    let spec = PackageSpec::new(Some(true), None, None, None);
    assert!(spec.is_optional());
    assert!(!empty_spec().is_optional());
    assert!(!PackageSpec::new(Some(false), None, None, None).is_optional());
}

#[test]
fn install_names_follow_the_key_grammar() {
    let git = Git::new();
    assert_eq!(git.get_package_name("github:a/b").as_deref(), Some("b"));
    assert_eq!(git.get_package_name("gitlab:group/repo").as_deref(), Some("repo"));
    assert_eq!(git.get_package_name("srht:~user/tool").as_deref(), Some("tool"));
    assert_eq!(git.get_package_name("git:example.com:owner/name").as_deref(), Some("name"));
    assert_eq!(git.get_package_name("git:host:a/b/c").as_deref(), Some("c"));
    assert_eq!(git.get_package_name("github:a/b/c").as_deref(), Some("b/c"));
    assert_eq!(git.get_package_name("npm:foo"), None);
    assert_eq!(git.get_package_name("github:nosep"), None);
    assert_eq!(git.get_package_name("plain"), None);
    assert!(git.claims("github:a/b"));
    assert!(!git.claims("npm:foo"));
}

#[test]
fn remote_urls_per_scheme_and_clone_type() {
    let https = Git::new();
    let ssh = Git::new_with_type(CloneType::Ssh);
    assert_eq!(https.clone_type, CloneType::Https);
    assert_eq!(https.remote_url("github:a/b").unwrap(), "https://github.com/a/b.git");
    assert_eq!(ssh.remote_url("github:a/b").unwrap(), "git@github.com:a/b.git");
    assert_eq!(https.remote_url("gitlab:a/b").unwrap(), "https://gitlab.com/a/b.git");
    assert_eq!(ssh.remote_url("gitlab:a/b").unwrap(), "git@gitlab.com:a/b.git");
    assert_eq!(https.remote_url("srht:~a/b").unwrap(), "https://git.sr.ht/~a/b");
    assert_eq!(ssh.remote_url("srht:~a/b").unwrap(), "git@git.sr.ht:~a/b");
    assert_eq!(https.remote_url("git:example.com:o/r").unwrap(), "https://example.com/o/r.git");
    assert_eq!(ssh.remote_url("git:example.com:o/r").unwrap(), "git@example.com:o/r.git");
    assert_eq!(https.remote_url("git:o/r").unwrap_err().cause, ResolveCause::MalformedKey);
    let e = https.remote_url("npm:foo").unwrap_err();
    assert_eq!(e.cause, ResolveCause::NoLoaderFound);
    assert_eq!(e.key, "npm:foo");
    assert_eq!(https.name(), "git");
}

#[test]
fn version_locators_parse_to_locks() {
    assert_eq!(parse_version(&Some("tag:v1.0.0".to_string())), LockType::Tag("v1.0.0".to_string()));
    assert_eq!(parse_version(&Some("branch:main".to_string())), LockType::Branch("main".to_string()));
    assert_eq!(parse_version(&Some("commit:abc".to_string())), LockType::Commit("abc".to_string()));
    assert_eq!(parse_version(&Some("semver:1".to_string())), LockType::Default);
    assert_eq!(parse_version(&Some("v1".to_string())), LockType::Default);
    assert_eq!(parse_version(&None), LockType::Default);
}

#[test]
fn refspecs_for_each_lock() {
    assert_eq!(refspec(&LockType::Tag("v1.0.0".to_string())).unwrap(), "refs/tags/v1.0.0:refs/tags/v1.0.0");
    assert_eq!(refspec(&LockType::Branch("dev".to_string())).unwrap(), "refs/heads/dev:refs/heads/dev");
    assert_eq!(refspec(&LockType::Commit("c1".to_string())).unwrap(), "refs/heads/c1:refs/heads/c1");
    assert!(refspec(&LockType::Default).is_none());
    assert_eq!(default_branch_refspec("refs/heads/main"), "refs/heads/main:refs/heads/main");
}

#[test]
fn branch_and_tag_together_are_multiple_locks() {
    let e = select_lock("github:a/b", Some("v1".to_string()), Some("main".to_string()), None).unwrap_err();
    assert_eq!(e.cause, ResolveCause::MultipleLocks);
    assert_eq!(e.key, "github:a/b");
    assert!(select_lock("k", Some("t".to_string()), None, Some("c".to_string())).is_err());
    assert_eq!(select_lock("k", None, Some("main".to_string()), None).unwrap(), LockType::Branch("main".to_string()));
    assert_eq!(select_lock("k", Some("v1".to_string()), None, None).unwrap(), LockType::Tag("v1".to_string()));
    assert_eq!(select_lock("k", None, None, None).unwrap(), LockType::Default);
}

#[test]
fn missing_tag_is_a_resolve_error() {
    let d = resolved_descriptor("github:a/b", "https://github.com/a/b.git".to_string(), Some("90600fc3".to_string())).unwrap();
    assert_eq!(d.commit_hash, "90600fc3");
    assert_eq!(d.remote, "https://github.com/a/b.git");
    let e = resolved_descriptor("github:a/b", "https://github.com/a/b.git".to_string(), None).unwrap_err();
    assert_eq!(e.cause, ResolveCause::Remote);
    assert_eq!(e.key, "github:a/b");
}

#[test]
fn single_package_resolves_to_one_plugin() {
    let mut config = Config::new();
    config.insert_package("github:a/b".to_string(), empty_spec());
    let jobs = plan_resolution(&Git::new(), &config).unwrap();
    assert_eq!(jobs.len(), 1);
    assert_eq!(jobs[0].remote, "https://github.com/a/b.git");
    assert_eq!(jobs[0].lock, LockType::Default);
    let m = build_manifest("0.9.0".to_string(), &jobs, &vec![Some("c0ffee".to_string())]).unwrap();
    assert_eq!(m.plugins.len(), 1);
    let p = &m.plugins[0];
    assert_eq!(p.name, "b");
    assert_eq!(p.unresolved_name, "github:a/b");
    assert!(!p.optional);
    assert!(p.dependencies.is_empty());
    assert_eq!(p.smith, "git");
    assert_eq!(p.build, "");
    match &p.loader_data {
        LoaderData::Git(d) => assert_eq!(d.commit_hash, "c0ffee"),
    }
}

#[test]
fn unclaimed_key_fails_before_fetching() {
    let mut config = Config::new();
    config.insert_package("github:a/b".to_string(), empty_spec());
    config.insert_package("npm:foo".to_string(), empty_spec());
    let e = plan_resolution(&Git::new(), &config).unwrap_err();
    assert_eq!(e.cause, ResolveCause::NoLoaderFound);
    assert_eq!(e.key, "npm:foo");
}

#[test]
fn nested_dependencies_come_before_their_parent() {
    let mut inner = PackageSpec::new(Some(true), Some("tag:v2".to_string()), Some("pl".to_string()), Some("make".to_string()));
    inner.insert_dependency("github:x/leaf".to_string(), empty_spec());
    let mut top = empty_spec();
    top.insert_dependency("github:x/mid".to_string(), inner);
    top.insert_dependency("gitlab:x/other".to_string(), empty_spec());
    let mut config = Config::new();
    config.insert_package("github:x/top".to_string(), top);
    let jobs = plan_resolution(&Git::new(), &config).unwrap();
    let keys: Vec<&str> = jobs.iter().map(|j| j.key.as_str()).collect();
    assert_eq!(keys, vec!["github:x/leaf", "github:x/mid", "gitlab:x/other", "github:x/top"]);
    let mid = &jobs[1];
    assert_eq!(mid.name, "mid");
    assert_eq!(mid.rename.as_deref(), Some("pl"));
    assert!(mid.optional);
    assert_eq!(mid.build, "make");
    assert_eq!(mid.dependencies, vec!["github:x/leaf".to_string()]);
    assert_eq!(mid.lock, LockType::Tag("v2".to_string()));
    assert_eq!(jobs[3].dependencies, vec!["github:x/mid".to_string(), "gitlab:x/other".to_string()]);
}

#[test]
fn failed_fetch_fails_the_manifest() {
    let mut config = Config::new();
    config.insert_package("github:a/one".to_string(), empty_spec());
    config.insert_package("github:a/two".to_string(), empty_spec());
    let jobs = plan_resolution(&Git::new(), &config).unwrap();
    let e = build_manifest("0.9.0".to_string(), &jobs, &vec![Some("c1".to_string()), None]).unwrap_err();
    assert_eq!(e.cause, ResolveCause::Remote);
    assert_eq!(e.key, "github:a/two");
}

#[test]
fn hash_ignores_declaration_order() {
    let mut a = Config::new();
    a.insert_package("github:a/b".to_string(), empty_spec());
    a.insert_package("github:c/d".to_string(), PackageSpec::new(Some(true), None, None, None));
    let mut b = Config::new();
    b.insert_package("github:c/d".to_string(), PackageSpec::new(Some(true), None, None, None));
    b.insert_package("github:a/b".to_string(), empty_spec());
    assert_eq!(a.hash(), b.hash());
    let mut c = Config::new();
    c.insert_package("github:a/b".to_string(), empty_spec());
    c.insert_package("github:c/d".to_string(), PackageSpec::new(Some(false), None, None, None));
    assert_ne!(a.hash(), c.hash());
    let mut d = Config::new();
    d.insert_package("github:a/b".to_string(), PackageSpec::new(None, Some("tag:v1".to_string()), None, None));
    d.insert_package("github:c/d".to_string(), PackageSpec::new(Some(true), None, None, None));
    assert_ne!(a.hash(), d.hash());
}

#[test]
fn redeclaring_a_key_replaces_it() {
    let mut a = Config::new();
    a.insert_package("github:a/b".to_string(), empty_spec());
    a.insert_package("github:a/b".to_string(), PackageSpec::new(Some(true), None, None, None));
    assert_eq!(a.packages.len(), 1);
    assert_eq!(a.packages[0].config_package.optional, Some(true));
}

#[test]
fn materialize_steps() {
    let d = LoaderType { commit_hash: "abc".to_string(), remote: "r".to_string() };
    assert_eq!(materialize_step(&RepoState::Absent, &d), MaterializeStep::Clone);
    assert_eq!(materialize_step(&RepoState::Present { head: Some("abc".to_string()), has_commit: true }, &d), MaterializeStep::Done);
    assert_eq!(materialize_step(&RepoState::Present { head: Some("old".to_string()), has_commit: true }, &d), MaterializeStep::Reset);
    assert_eq!(materialize_step(&RepoState::Present { head: None, has_commit: false }, &d), MaterializeStep::Fetch);
}

#[test]
fn repo_directory_names() {
    let plain = empty_spec();
    assert_eq!(GitLoader::get_repo_name(&plain, "https://github.com/a/telescope.nvim.git"), "telescope.nvim");
    assert_eq!(GitLoader::get_repo_name(&plain, "https://git.sr.ht/~a/tool"), "tool");
    assert_eq!(GitLoader::get_repo_name(&plain, "repo.git"), "repo");
    assert_eq!(GitLoader::get_repo_name(&plain, "a/.git"), "");
    let renamed = PackageSpec::new(None, None, Some("ts".to_string()), None);
    assert_eq!(GitLoader::get_repo_name(&renamed, "https://github.com/a/b.git"), "ts");
}
