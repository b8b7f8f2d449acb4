use hut::config::HutConfig;
use hut::index::{PackageEntry, PackagesIndex};
use hut::lockfile::{LockedPackage, Lockfile};
use hut::package::{BuildConfig, Package};
use hut::resolver::{
    include_candidates, initial_queue, package_for, parse_constraint, plan_package, ResolveContext,
};
use hut::tags::resolve_best_version;

#[test]
fn test_parse_constraint_none() {
    assert!(parse_constraint("").is_none());
    assert!(parse_constraint("*").is_none());
    assert!(parse_constraint("latest").is_none());
    assert!(parse_constraint("x").is_none());
}

/// The tag chosen among `tags` under the constraint `c`.
fn chosen(c: &str, tags: &[&str]) -> String {
    let tags: Vec<String> = tags.iter().map(|s| s.to_string()).collect();
    resolve_best_version(&tags, &parse_constraint(c))
}

#[test]
fn test_parse_constraint_caret() {
    assert!(parse_constraint("^1.0").is_some());
    // 1.5.0 matches and 2.0.0 does not: the lower one is chosen.
    assert_eq!(chosen("^1.0", &["1.5.0", "2.0.0"]), "1.5.0");
}

#[test]
fn test_parse_constraint_range() {
    assert!(parse_constraint(">=1.0,<2.0").is_some());
    assert_eq!(chosen(">=1.0,<2.0", &["1.9.9", "2.0.0"]), "1.9.9");
}

#[test]
fn test_parse_constraint_tilde() {
    assert!(parse_constraint("~0.5").is_some());
    assert_eq!(chosen("~0.5", &["0.5.4", "0.6.0"]), "0.5.4");
}

#[test]
fn test_parse_constraint_exact() {
    assert!(parse_constraint("=1.2.3").is_some());
    assert_eq!(chosen("=1.2.3", &["1.2.3", "1.2.4"]), "1.2.3");
}

#[test]
fn parse_constraint_trims_and_rejects_garbage() {
    assert!(parse_constraint("  *  ").is_none());
    assert!(parse_constraint("not a version").is_none());
    assert_eq!(chosen(" ^2 ", &["2.3.0", "3.0.0"]), "2.3.0");
    assert_eq!(chosen(" ^2 ", &["3.0.0"]), "main");
}

fn entry(repo: &str) -> PackageEntry {
    PackageEntry {
        repo: repo.into(),
        description: "desc".into(),
        includes: vec!["include".into()],
        libs: vec!["z".into()],
        sources: vec![],
        defines: vec![],
        cflags: vec!["-DZ".into()],
        ldflags: vec!["-lz".into()],
        build: String::new(),
    }
}

fn lock(name: &str, version: &str) -> LockedPackage {
    LockedPackage {
        name: name.into(),
        version: version.into(),
        source: String::new(),
        integrity: String::new(),
        resolved: String::new(),
        dependencies: vec![],
    }
}

#[test]
fn plan_uses_the_lockfile_pin_when_it_satisfies_the_constraint() {
    let index = PackagesIndex::from_entries(vec![("zlib".into(), entry("madler/zlib"))]);
    let mut lf = Lockfile::new();
    lf.insert(lock("zlib", "v1.3.1"));
    let t = plan_package(&index, &lf, "zlib", "^1.2").unwrap();
    assert_eq!(t.repo_url, "https://github.com/madler/zlib.git");
    assert_eq!(t.pinned.as_deref(), Some("v1.3.1"));
    let t2 = plan_package(&index, &lf, "zlib", "^2").unwrap();
    assert!(t2.pinned.is_none());
    let mut lf2 = Lockfile::new();
    lf2.insert(lock("zlib", "main"));
    assert_eq!(plan_package(&index, &lf2, "zlib", "*").unwrap().pinned.as_deref(), Some("main"));
    assert!(plan_package(&index, &lf2, "zlib", "^1").unwrap().pinned.is_none());
    assert!(plan_package(&index, &lf2, "nope", "*").is_err());
}

#[test]
fn resolution_queue_and_recording() {
    let mut cfg = HutConfig::default_template("app");
    cfg.dependencies = vec![("a".into(), "*".into()), ("b".into(), "^1".into())];
    cfg.test_dependencies = vec![("t".into(), "*".into())];
    let mut queue = initial_queue(&cfg);
    assert_eq!(queue.len(), 3);
    let mut ctx = ResolveContext::new();
    let (n, c) = ctx.next_request(&mut queue).unwrap();
    assert_eq!((n.as_str(), c.as_str()), ("t", "*"));
    let e = entry("o/t");
    let pkg = package_for("t", "v1.0.0", "https://github.com/o/t.git", &e, None);
    assert_eq!(pkg.description.as_deref(), Some("desc"));
    let cands = include_candidates(&e, &pkg, "/c/t/v1.0.0");
    assert_eq!(cands, vec!["/c/t/v1.0.0/include", "/c/t/v1.0.0/include"]);
    ctx.finish("t".into(), "v1.0.0".into(), "/c/t/v1.0.0".into(), pkg, &e, &cands, &vec![false, false], true, &mut queue);
    assert!(ctx.is_resolved("t"));
    let mut manifest = HutConfig::default_template("b");
    manifest.dependencies = vec![("a".into(), "^2".into()), ("t".into(), "*".into())];
    let (n2, _) = ctx.next_request(&mut queue).unwrap();
    assert_eq!(n2, "b");
    let pb = package_for("b", "v1.0.0", "https://github.com/o/b.git", &entry("o/b"), Some(manifest));
    assert_eq!(pb.name, "b");
    let cb = include_candidates(&entry("o/b"), &pb, "/c/b");
    ctx.finish("b".into(), "v1.0.0".into(), "/c/b".into(), pb, &entry("o/b"), &cb, &vec![true, false], false, &mut queue);
    // b's manifest queued "a" (t is already resolved)
    assert_eq!(queue.last().unwrap().0, "a");
    assert_eq!(queue.last().unwrap().1, "^2");
    let result = ctx.into_result();
    let names: Vec<&str> = result.iter().map(|d| d.name.as_str()).collect();
    assert_eq!(names, vec!["b", "t"]);
    let t = &result[1];
    assert_eq!(t.include_paths, vec!["/c/t/v1.0.0"]);
    assert_eq!(t.library_paths, vec!["/c/t/v1.0.0/build"]);
    assert_eq!(t.link_libraries, vec!["z"]);
    let b = &result[0];
    assert_eq!(b.include_paths, vec!["/c/b/include", "/c/t/v1.0.0"]);
    assert_eq!(b.library_paths, vec!["/c/b"]);
}

#[test]
fn resolved_names_are_skipped() {
    let mut ctx = ResolveContext::new();
    let e = entry("o/x");
    let pkg = Package {
        name: "x".into(),
        version: "1".into(),
        description: None,
        authors: vec![],
        license: None,
        repository: None,
        homepage: None,
        sources: vec![],
        includes: vec![],
        dependencies: vec![],
        build_dependencies: vec![],
        test_dependencies: vec![],
        build: BuildConfig::default(),
        scripts: vec![],
        libraries: vec![],
        executables: vec![],
        tests: vec![],
        cflags: vec![],
        ldflags: vec![],
    };
    let mut q = vec![];
    ctx.finish("x".into(), "1".into(), "/x".into(), pkg, &e, &vec![], &vec![], false, &mut q);
    let mut queue = vec![("y".to_string(), "*".to_string()), ("x".to_string(), "*".to_string())];
    let (n, _) = ctx.next_request(&mut queue).unwrap();
    assert_eq!(n, "y");
    assert!(queue.is_empty());
    let mut only_x = vec![("x".to_string(), "*".to_string())];
    assert!(ctx.next_request(&mut only_x).is_none());
}
