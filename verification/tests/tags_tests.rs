use hut::resolver::parse_constraint;
use hut::tags::{resolve_best_version, parse_ls_remote, strip_tag_prefix};
use hut::registry::{resolve_version, RegistryEntry, VersionInfo};

#[test]
fn strip_common_prefixes() {
    assert_eq!(strip_tag_prefix("v1.2.3"), "1.2.3");
    assert_eq!(strip_tag_prefix("release-2.0.0"), "2.0.0");
    assert_eq!(strip_tag_prefix("lib-v3.0.0"), "3.0.0");
    assert_eq!(strip_tag_prefix("version-1.0"), "1.0.0");
    assert_eq!(strip_tag_prefix("ver-7"), "7.0.0");
    assert_eq!(strip_tag_prefix("v5"), "5.0.0");
    assert_eq!(strip_tag_prefix("5.0"), "5.0.0");
    assert_eq!(strip_tag_prefix("12"), "12.0.0");
    assert_eq!(strip_tag_prefix("1.2.3"), "1.2.3");
    assert_eq!(strip_tag_prefix("vendor"), "vendor");
    assert_eq!(strip_tag_prefix("5.x"), "5.x");
    assert_eq!(strip_tag_prefix(""), ".0.0");
}

#[test]
fn ls_remote_output_is_parsed() {
    let out = "aaa\trefs/tags/v1.0.0\nbbb\trefs/tags/v1.0.0^{}\nccc\trefs/tags/v1.1.0\r\nddd\trefs/tags/v1.0.0\nnotab\n";
    assert_eq!(parse_ls_remote(out), vec!["v1.0.0", "v1.1.0"]);
    assert!(parse_ls_remote("").is_empty());
}

#[test]
fn best_tag_picks_highest_matching() {
    let tags: Vec<String> = vec!["v1.2.0", "v1.10.0", "v2.0.0", "junk", "release-1.9.0"]
        .into_iter()
        .map(String::from)
        .collect();
    assert_eq!(resolve_best_version(&tags, &None), "v2.0.0");
    assert_eq!(resolve_best_version(&tags, &parse_constraint("^1")), "v1.10.0");
    assert_eq!(resolve_best_version(&tags, &parse_constraint("^3")), "main");
    assert_eq!(resolve_best_version(&vec![], &None), "main");
}

#[test]
fn best_tag_breaks_ties_by_tag_name() {
    let tags: Vec<String> = vec!["v1.0.0", "1.0.0", "release-1.0"].into_iter().map(String::from).collect();
    assert_eq!(resolve_best_version(&tags, &None), "1.0.0");
}

#[test]
fn versions_parse_render_and_order() {
    let pick = |tags: &[&str]| {
        let tags: Vec<String> = tags.iter().map(|s| s.to_string()).collect();
        resolve_best_version(&tags, &None)
    };
    // Numeric order, not text order; a pre-release sorts below its release.
    assert_eq!(pick(&["1.2.3", "1.10.0"]), "1.10.0");
    assert_eq!(pick(&["1.2.3-alpha", "1.2.3"]), "1.2.3");
    assert_eq!(pick(&["1.2.3-alpha"]), "1.2.3-alpha");
    // Leading zeros are refused; two-part tags are completed.
    assert_eq!(pick(&["01.2.3"]), "main");
    assert_eq!(pick(&["1.2"]), "1.2");
    // The registry renders the chosen version with its pre-release and build.
    let e = RegistryEntry {
        name: "v".into(),
        description: "".into(),
        repository: "".into(),
        versions: vec![(
            "1.2.3-beta.1+build.5".to_string(),
            VersionInfo { git_ref: "v1.2.3-beta.1".into(), integrity: None, dependencies: vec![] },
        )],
        tags: vec![],
        downloads: 0,
    };
    assert_eq!(resolve_version(&e, "=1.2.3-beta.1").unwrap(), "1.2.3-beta.1+build.5");
    assert!(resolve_version(&e, "not valid").is_err());
}
