use hut::headers::{
    collect_dep_includes, find_best_include_for_dep, has_single_header_at_root, is_header_file,
    resolve_includes, skipped_dir, DepLayout,
};
use hut::package::{BuildConfig, Package, ResolvedDependency};

fn make_dep(name: &str, dir: &str) -> ResolvedDependency {
    ResolvedDependency {
        name: name.to_string(),
        version: "1.0.0".to_string(),
        path: dir.to_string(),
        package: Package {
            name: name.to_string(),
            version: "1.0.0".to_string(),
            description: None,
            authors: vec![],
            license: None,
            repository: None,
            homepage: None,
            sources: vec![],
            includes: vec!["include".to_string()],
            dependencies: vec![],
            build_dependencies: vec![],
            test_dependencies: vec![],
            build: BuildConfig::default(),
            scripts: vec![],
            libraries: vec![],
            executables: vec![],
            tests: vec![],
            cflags: vec![],
            ldflags: vec![],
        },
        include_paths: vec![],
        library_paths: vec![],
        link_libraries: vec![],
        cflags: vec![],
        ldflags: vec![],
    }
}

/// A layout: which of include, src, includes, inc, . exist and hold headers.
fn layout(dirs: [bool; 5], headers: [bool; 5], scanned: Vec<String>, single: bool) -> DepLayout {
    DepLayout { dir_exists: dirs.to_vec(), has_headers: headers.to_vec(), scanned, single_header: single }
}

#[test]
fn test_resolve_includes_include_dir() {
    let deps = vec![make_dep("mylib", "/tmp/t/mylib")];
    let l = vec![layout([true, false, false, false, true], [true, false, false, false, true], vec![], false)];
    let paths = resolve_includes(&deps, &l);
    assert!(paths.iter().any(|p| p.ends_with("include")), "Expected include/ dir, got: {paths:?}");
}

#[test]
fn test_resolve_includes_src_headers() {
    let deps = vec![make_dep("srclib", "/tmp/t/srclib")];
    let l = vec![layout([false, true, false, false, true], [false, true, false, false, true], vec![], false)];
    let paths = resolve_includes(&deps, &l);
    assert!(paths.iter().any(|p| p.ends_with("src")), "Expected src/ dir, got: {paths:?}");
}

#[test]
fn test_resolve_includes_single_header() {
    let deps = vec![make_dep("singleh", "/tmp/t/singleh")];
    let l = vec![layout([false, false, false, false, true], [false, false, false, false, true], vec![], true)];
    let paths = resolve_includes(&deps, &l);
    assert!(paths.iter().any(|p| p == "/tmp/t/singleh"), "Expected root dir for single header, got: {paths:?}");
}

#[test]
fn test_resolve_includes_precomputed() {
    let mut dep = make_dep("precomp", "/tmp/t/precomp");
    dep.include_paths = vec!["/tmp/t/precomp/custom_include".to_string()];
    let l = vec![layout([false; 5], [false; 5], vec![], false)];
    let paths = resolve_includes(&[dep], &l);
    assert!(paths.contains(&"/tmp/t/precomp/custom_include".to_string()), "got: {paths:?}");
}

#[test]
fn test_resolve_includes_empty_deps() {
    let paths = resolve_includes(&[], &vec![]);
    assert!(paths.is_empty(), "Expected no paths for empty deps");
}

#[test]
fn test_is_header_file() {
    assert!(is_header_file("foo.h"));
    assert!(is_header_file("foo.hpp"));
    assert!(is_header_file("foo.hxx"));
    assert!(is_header_file("foo.hh"));
    assert!(is_header_file("foo.inl"));
    assert!(!is_header_file("foo.c"));
    assert!(!is_header_file("foo.cpp"));
    assert!(!is_header_file("foo.txt"));
}

#[test]
fn includes_are_listed_once_across_dependencies() {
    let a = make_dep("a", "/d/a");
    let mut b = make_dep("b", "/d/b");
    b.include_paths = vec!["/d/a/include".into(), "/d/b/include".into()];
    let l = vec![
        layout([true, false, false, false, true], [true, false, false, false, true], vec![], false),
        layout([false; 5], [false; 5], vec![], false),
    ];
    let paths = resolve_includes(&[a, b], &l);
    assert_eq!(paths, vec!["/d/a/include", "/d/a", "/d/b/include"]);
}

#[test]
fn scanned_dirs_are_used_when_no_standard_dir_is_new() {
    let dep = make_dep("x", "/d/x");
    let l = layout([false; 5], [false; 5], vec!["/d/x/lib/inc".into()], true);
    let mut paths = Vec::new();
    collect_dep_includes(&dep, &l, &mut paths);
    assert_eq!(paths, vec!["/d/x/lib/inc", "/d/x"]);
    let mut again = vec!["/d/x/include".to_string()];
    let l2 = layout([true, false, false, false, false], [true, false, false, false, false], vec!["/d/x/s".into()], false);
    collect_dep_includes(&dep, &l2, &mut again);
    assert_eq!(again, vec!["/d/x/include", "/d/x/s"]);
}

#[test]
fn single_header_and_skipped_dirs() {
    assert!(has_single_header_at_root(1, true, true));
    assert!(has_single_header_at_root(3, false, false));
    assert!(!has_single_header_at_root(3, true, false));
    assert!(!has_single_header_at_root(0, false, false));
    for d in [".git", "build", "target", "test", "tests", "examples", "third_party", "vendor"] {
        assert!(skipped_dir(d), "{d}");
    }
    assert!(!skipped_dir("include"));
}

#[test]
fn best_include_prefers_include_then_includes_inc_src() {
    let dep = make_dep("d", "/d/d");
    assert_eq!(find_best_include_for_dep(&dep, &vec![false, true, true, false], false), Some("/d/d/includes".to_string()));
    assert_eq!(find_best_include_for_dep(&dep, &vec![false, false, false, true], true), Some("/d/d/src".to_string()));
    assert_eq!(find_best_include_for_dep(&dep, &vec![false; 4], true), Some("/d/d".to_string()));
    assert_eq!(find_best_include_for_dep(&dep, &vec![false; 4], false), None);
}

#[test]
fn precomputed_includes_concatenate_once() {
    let mut a = make_dep("a", "/p/a");
    a.include_paths = vec!["/x/inc".to_string(), "/p/a/include".to_string()];
    let mut b = make_dep("b", "/p/b");
    b.include_paths = vec!["/p/b/include".to_string(), "/x/inc".to_string()];
    // The layouts say every directory has headers; precomputed paths win.
    let l = vec![layout([true; 5], [true; 5], vec![], true), layout([true; 5], [true; 5], vec![], true)];
    assert_eq!(resolve_includes(&[a, b], &l), vec!["/x/inc", "/p/a/include", "/p/b/include"]);
}

#[test]
fn include_paths_naming_one_directory_are_listed_once() {
    let mut a = make_dep("a", "/tmp/t/a");
    a.include_paths = vec!["/tmp/t/shared/include".to_string()];
    let mut b = make_dep("b", "/tmp/t/b");
    b.include_paths = vec!["/tmp/t/shared/include/".to_string(), "/tmp/t/shared/./include".to_string()];
    let l = vec![layout([false; 5], [false; 5], vec![], false), layout([false; 5], [false; 5], vec![], false)];
    let paths = resolve_includes(&[a, b], &l);
    assert_eq!(paths, vec!["/tmp/t/shared/include".to_string()]);
}
