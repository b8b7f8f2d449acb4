use hut::config::HutConfig;
use hut::fetch::{
    add_glob_matches, auto_build_plan, cache_meta_path, cfg_to_package, github_tarball_url, integrity_hash,
    is_hashed_file, package_cache_dir, parent_dir, scan_lib_dirs, tarball_url_from,
};

#[test]
fn test_github_tarball_url() {
    let url = github_tarball_url("https://github.com/user/repo", "v1.0.0");
    assert!(url.is_some());
    let url = url.unwrap();
    assert!(url.contains("api.github.com"));
    assert!(url.contains("tarball"));
    assert!(url.contains("tags/1.0.0"));
}

#[test]
fn tarball_urls() {
    assert_eq!(
        github_tarball_url("https://github.com/user/repo.git/", "v2.1").unwrap(),
        "https://api.github.com/repos/user/repo/tarball/refs/tags/2.1"
    );
    assert_eq!(
        github_tarball_url("git@github.com:owner/name.git", "1.0").unwrap(),
        "https://api.github.com/repos/owner/name/tarball/refs/tags/1.0"
    );
    assert!(github_tarball_url("https://gitlab.com/user/repo", "v1").is_none());
    assert_eq!(
        tarball_url_from(Some(vec![Some("m".into()), Some("o".into()), Some("r".into())]), "v3"),
        Some("https://api.github.com/repos/o/r/tarball/refs/tags/3".to_string())
    );
    assert!(tarball_url_from(Some(vec![Some("m".into()), None, Some("r".into())]), "v3").is_none());
    assert!(tarball_url_from(None, "v3").is_none());
}

#[test]
fn cache_layout() {
    assert_eq!(package_cache_dir("/c", "zlib", "v1"), "/c/zlib/v1");
    assert_eq!(cache_meta_path("/c", "zlib", "v1"), "/c/zlib/v1/.hut-cache.json");
}

#[test]
fn integrity() {
    assert!(is_hashed_file("/p/src/a.c"));
    assert!(!is_hashed_file("/p/.hut-cache.json"));
    assert!(!is_hashed_file("/p/lib/libx.a"));
    assert!(!is_hashed_file("/p/x.so"));
    let empty = integrity_hash(&vec![]);
    assert_eq!(empty, "e3b0c44298fc1c149afbf4c8996fb92427ae41e4649b934ca495991b7852b855");
    let one = integrity_hash(&vec![("a".to_string(), b"x".to_vec())]);
    assert_eq!(one.len(), 64);
    assert_ne!(one, empty);
    assert!(one.chars().all(|c| c.is_ascii_hexdigit() && !c.is_ascii_uppercase()));
    assert_eq!(one, "8b86bced10290476e3cbf7ec75ec99dc5afd02120997525be1c62db47aa5c524");
    let two = integrity_hash(&vec![("a".to_string(), b"x".to_vec()), ("b/c".to_string(), b"yz".to_vec())]);
    assert_eq!(two, "fe26323004f6385a39b259a194b58719c3feb4ea62b50b3668923cd5ad4b5be9");
}

#[test]
fn manifest_to_package() {
    let cfg = HutConfig::default_template("dep");
    let p = cfg_to_package(cfg, "https://github.com/o/dep.git");
    assert_eq!(p.name, "dep");
    assert_eq!(p.repository.as_deref(), Some("https://github.com/o/dep.git"));
    assert!(p.libraries.is_empty() && p.cflags.is_empty());
}

#[test]
fn auto_build() {
    let err = auto_build_plan("z", "/p", &vec!["src/*.c".into(), "x.c".into()], &vec![], &vec![], &vec![], &vec![]).unwrap_err();
    assert_eq!(err.message(), "No source files matched for z. Checked patterns: src/*.c, x.c");
    let plan = auto_build_plan(
        "z",
        "/p",
        &vec![],
        &vec!["/p/src/a.c".into(), "/p/src/b.cpp".into(), "/p/src/c.s".into()],
        &vec!["include".into()],
        &vec!["NDEBUG".into()],
        &vec!["-O2".into()],
    )
    .unwrap();
    assert_eq!(plan.object_dir, "/p/.hut-build");
    assert_eq!(plan.objects, vec!["/p/.hut-build/a.o", "/p/.hut-build/b.o", "/p/.hut-build/c.s.o"]);
    assert_eq!(plan.compiles[0].program, "cc");
    assert_eq!(plan.compiles[1].program, "c++");
    assert_eq!(
        plan.compiles[0].args,
        vec!["-c", "-fPIC", "-I/p/include", "-DNDEBUG", "-O2", "/p/src/a.c", "-o", "/p/.hut-build/a.o"]
    );
    assert_eq!(plan.library, "/p/libz.a");
    assert_eq!(plan.archive.program, "ar");
    assert_eq!(plan.archive.args[..2], ["rcs".to_string(), "/p/libz.a".to_string()]);
    assert_eq!(plan.archive.args.len(), 5);
    let mut files = vec!["/p/a.c".to_string()];
    add_glob_matches(&mut files, &vec!["/p/b.c".into(), "/p/a.c".into()]);
    assert_eq!(files, vec!["/p/a.c", "/p/b.c"]);
}

#[test]
fn library_directories() {
    assert_eq!(parent_dir("/p/build/libz.a"), "/p/build");
    assert_eq!(parent_dir("libz.a"), "");
    assert_eq!(parent_dir("/libz.a"), "/");
    let dirs = scan_lib_dirs(&vec![
        "/p/build/libz.a".into(),
        "/p/build/libq.a".into(),
        "/p/src/a.c".into(),
        "/p/lib/liby.a".into(),
    ]);
    assert_eq!(dirs, vec!["/p/build", "/p/lib"]);
}

#[test]
fn retry_delays_double() {
    assert_eq!(hut::fetch::MAX_RETRIES, 3);
    assert_eq!(hut::fetch::retry_delay_ms(1), 500);
    assert_eq!(hut::fetch::retry_delay_ms(2), 1000);
    assert_eq!(hut::fetch::retry_delay_ms(3), 2000);
}

#[test]
fn installed_packages() {
    assert!(hut::fetch::check_installed("zlib", true, false).is_ok());
    assert!(hut::fetch::check_installed("zlib", false, true).is_ok());
    let e = hut::fetch::check_installed("zlib", false, false).unwrap_err();
    assert_eq!(e.message(), "Package zlib not found in cache. Run `hut install` first.");
}

#[test]
fn test_default_cache_dir() {
    let dir = hut::project::cache_dir();
    assert!(dir.ends_with("hut/cache"));
}

#[test]
fn retries_then_gives_up() {
    assert!(matches!(hut::fetch::after_failure(1), hut::fetch::RetryStep::Retry(500)));
    assert!(matches!(hut::fetch::after_failure(2), hut::fetch::RetryStep::Retry(1000)));
    assert!(matches!(hut::fetch::after_failure(3), hut::fetch::RetryStep::GiveUp));
}

/// Drive attempts as a fetch does: call until success or until
/// `after_failure` gives up; returns the calls made and the outcome used.
fn drive(outcomes: &[Result<u32, u32>]) -> (usize, Result<u32, u32>) {
    let mut attempt: u32 = 1;
    loop {
        let out = outcomes[(attempt - 1) as usize];
        if out.is_ok() {
            return (attempt as usize, out);
        }
        match hut::fetch::after_failure(attempt) {
            hut::fetch::RetryStep::Retry(_) => attempt += 1,
            hut::fetch::RetryStep::GiveUp => return (attempt as usize, out),
        }
    }
}

#[test]
fn attempts_stop_at_first_success_or_third_failure() {
    assert_eq!(drive(&[Ok(7), Err(1), Err(2), Ok(9)]), (1, Ok(7)));
    assert_eq!(drive(&[Err(1), Ok(8), Err(2), Ok(9)]), (2, Ok(8)));
    assert_eq!(drive(&[Err(1), Err(2), Ok(5), Ok(9)]), (3, Ok(5)));
    assert_eq!(drive(&[Err(1), Err(2), Err(3), Ok(9)]), (3, Err(3)));
}

#[test]
fn glob_matches_naming_a_listed_path_are_skipped() {
    let mut files: Vec<String> = vec!["/p/src/a.c".into()];
    add_glob_matches(&mut files, &vec!["/p/src/./a.c".into(), "/p//src/b.c".into(), "/p/src/b.c".into()]);
    assert_eq!(files, vec!["/p/src/a.c".to_string(), "/p//src/b.c".to_string()]);
}
