use hut::error::HutError;
use hut::registry::{resolve_version, sanitise_repo_name, RegistryEntry, RegistryIndex, VersionInfo};

fn make_entry(versions: &[&str]) -> RegistryEntry {
    let mut keys: Vec<&str> = versions.to_vec();
    keys.sort();
    RegistryEntry {
        name: "test".into(),
        description: "".into(),
        repository: "".into(),
        versions: keys
            .into_iter()
            .map(|v| {
                (v.to_string(), VersionInfo { git_ref: format!("v{v}"), integrity: None, dependencies: vec![] })
            })
            .collect(),
        tags: vec![],
        downloads: 0,
    }
}

#[test]
fn caret_constraint() {
    let e = make_entry(&["1.2.3", "1.3.0", "1.3.1", "2.0.0"]);
    let v = resolve_version(&e, "^1.2").unwrap();
    assert_eq!(v, "1.3.1");
}

#[test]
fn exact_version() {
    let e = make_entry(&["1.0.0", "1.1.0", "2.0.0"]);
    let v = resolve_version(&e, "1.1.0").unwrap();
    assert_eq!(v, "1.1.0");
}

#[test]
fn star_constraint() {
    let e = make_entry(&["0.9.0", "1.0.0", "2.1.0"]);
    let v = resolve_version(&e, "*").unwrap();
    assert_eq!(v, "2.1.0");
}

#[test]
fn gt_constraint() {
    let e = make_entry(&["1.0.0", "1.5.0", "2.0.0"]);
    let v = resolve_version(&e, ">=1.5").unwrap();
    assert_eq!(v, "2.0.0");
}

#[test]
fn highest_by_version_not_by_text() {
    let e = make_entry(&["1.10.0", "1.9.0", "1.2.0"]);
    assert_eq!(resolve_version(&e, "^1").unwrap(), "1.10.0");
}

#[test]
fn no_matching_version_is_an_error() {
    let e = make_entry(&["1.0.0"]);
    match resolve_version(&e, "^2.0") {
        Err(HutError::VersionNotFound(n, c)) => {
            assert_eq!(n, "test");
            assert_eq!(c, "^2.0");
        }
        other => panic!("unexpected {other:?}"),
    }
    match resolve_version(&e, "3.0.0") {
        Err(HutError::VersionNotFound(_, c)) => assert_eq!(c, "=3.0.0"),
        other => panic!("unexpected {other:?}"),
    }
}

#[test]
fn invalid_constraint_is_a_resolution_error() {
    let e = make_entry(&["1.0.0"]);
    match resolve_version(&e, ">=banana") {
        Err(HutError::Resolution(m)) => assert!(m.starts_with("Invalid version constraint '>=banana': ")),
        other => panic!("unexpected {other:?}"),
    }
    assert!(matches!(resolve_version(&e, ""), Err(HutError::Resolution(_))));
}

#[test]
fn unparsable_keys_are_skipped() {
    let e = make_entry(&["1.0.0", "latest", "1.1"]);
    assert_eq!(resolve_version(&e, "*").unwrap(), "1.0.0");
}

fn entry(name: &str, description: &str, tags: &[&str]) -> RegistryEntry {
    RegistryEntry {
        name: name.into(),
        description: description.into(),
        repository: "".into(),
        versions: vec![],
        tags: tags.iter().map(|t| t.to_string()).collect(),
        downloads: 0,
    }
}

#[test]
fn registry_find_and_search() {
    let idx = RegistryIndex {
        packages: vec![
            entry("zlib", "compression", &["Compression"]),
            entry("json", "JSON parser", &[]),
            entry("zlib", "second", &[]),
        ],
    };
    assert_eq!(idx.find("zlib").unwrap().description, "compression");
    assert!(idx.find("nope").is_none());
    let hits = idx.search("COMPRESS");
    assert_eq!(hits.len(), 1);
    assert_eq!(hits[0].name, "zlib");
    assert_eq!(idx.search("parser").len(), 1);
    assert!(RegistryIndex::default().packages.is_empty());
}

#[test]
fn sanitised_repo_names() {
    assert_eq!(sanitise_repo_name("https://github.com/user/my.lib.git"), "my_lib");
    assert_eq!(sanitise_repo_name("https://github.com/user/repo.git/"), "repo");
    assert_eq!(sanitise_repo_name("https://x.org/a/b"), "b");
    assert_eq!(sanitise_repo_name("https://github.com/user/repo"), "repo");
    assert_eq!(sanitise_repo_name("https://github.com/user/repo.git"), "repo");
}
