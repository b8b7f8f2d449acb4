use hut::config::{HutConfig, PackageMeta, WorkspaceConfig};
use hut::flags::{collect_flags, dedup_ordered, is_cpp_source, normalize_std, Flags};
use hut::package::{BuildConfig, Package, PlatformBuildConfig, ResolvedDependency};

const OS: &str = "linux";

fn make_basic_config() -> HutConfig {
    HutConfig {
        package: PackageMeta {
            name: "testproj".into(),
            version: "0.1.0".into(),
            description: None,
            authors: vec![],
            license: None,
            language: "c".into(),
            repository: None,
            homepage: None,
            sources: vec![],
            includes: vec![],
        },
        dependencies: vec![],
        build_dependencies: vec![],
        test_dependencies: vec![],
        build: BuildConfig::default(),
        scripts: vec![],
        workspace: WorkspaceConfig::default(),
    }
}

fn make_dep(name: &str, path: &str, cflags: Vec<String>, ldflags: Vec<String>) -> ResolvedDependency {
    ResolvedDependency {
        name: name.into(),
        version: "1.0.0".into(),
        path: path.into(),
        package: Package {
            name: name.into(),
            version: "1.0.0".into(),
            description: None,
            authors: vec![],
            license: None,
            repository: None,
            homepage: None,
            sources: vec![],
            includes: vec![],
            dependencies: vec![],
            build_dependencies: vec![],
            test_dependencies: vec![],
            build: BuildConfig::default(),
            scripts: vec![],
            libraries: vec![],
            executables: vec![],
            tests: vec![],
            cflags: cflags.clone(),
            ldflags: ldflags.clone(),
        },
        include_paths: vec![],
        library_paths: vec![],
        link_libraries: vec![],
        cflags,
        ldflags,
    }
}

fn has(v: &[String], f: &str) -> bool {
    v.iter().any(|x| x == f)
}

#[test]
fn test_empty_flags() {
    let cfg = make_basic_config();
    let flags = collect_flags(&cfg, &[], "testproj", &[], "src/main.c", false, OS);
    assert!(has(&flags.cflags, "-O0"));
    assert!(has(&flags.cflags, "-g"));
    assert!(has(&flags.cflags, "-Wall"));
    assert!(has(&flags.cflags, "-Wextra"));
}

#[test]
fn test_language_standard_c() {
    let mut cfg = make_basic_config();
    cfg.package.language = "c".into();
    cfg.build.c_standard = "c17".into();
    let flags = collect_flags(&cfg, &[], "testproj", &[], "src/main.c", false, OS);
    assert!(has(&flags.cflags, "-std=c17"));
}

#[test]
fn test_language_standard_cpp() {
    let mut cfg = make_basic_config();
    cfg.package.language = "c++".into();
    cfg.build.cpp_standard = Some("c++20".into());
    let flags = collect_flags(&cfg, &[], "testproj", &[], "src/main.cpp", false, OS);
    assert!(has(&flags.cflags, "-std=c++20"));
}

#[test]
fn test_release_optimization() {
    let cfg = make_basic_config();
    let flags = collect_flags(&cfg, &[], "testproj", &[], "src/main.c", true, OS);
    assert!(has(&flags.cflags, "-O2"));
    assert!(!has(&flags.cflags, "-g"));
}

#[test]
fn test_sanitizers() {
    let mut cfg = make_basic_config();
    cfg.build.sanitizers = vec!["address".into(), "undefined".into()];
    let flags = collect_flags(&cfg, &[], "testproj", &[], "src/main.c", false, OS);
    assert!(has(&flags.cflags, "-fsanitize=address"));
    assert!(has(&flags.cflags, "-fsanitize=undefined"));
    assert!(has(&flags.ldflags, "-fsanitize=address"));
}

#[test]
fn test_lto() {
    let mut cfg = make_basic_config();
    cfg.build.lto = true;
    let flags = collect_flags(&cfg, &[], "testproj", &[], "src/main.c", false, OS);
    assert!(has(&flags.cflags, "-flto"));
    assert!(has(&flags.ldflags, "-flto"));
}

#[test]
fn test_pic() {
    let mut cfg = make_basic_config();
    cfg.build.pic = true;
    let flags = collect_flags(&cfg, &[], "testproj", &[], "src/main.c", false, OS);
    assert!(has(&flags.cflags, "-fPIC"));
}

#[test]
fn test_per_target_flags() {
    let mut cfg = make_basic_config();
    cfg.build
        .target_cflags
        .push(("mylib".into(), vec!["-fno-rtti".into(), "-march=native".into()]));
    let flags = collect_flags(&cfg, &[], "mylib", &[], "src/main.c", false, OS);
    assert!(has(&flags.cflags, "-fno-rtti"));
    assert!(has(&flags.cflags, "-march=native"));
}

#[test]
fn test_wildcard_target_flags() {
    let mut cfg = make_basic_config();
    cfg.build.target_cflags.push(("*".into(), vec!["-Werror".into()]));
    let flags = collect_flags(&cfg, &[], "another_target", &[], "src/main.c", false, OS);
    assert!(has(&flags.cflags, "-Werror"));
}

#[test]
fn test_platform_flags() {
    let mut cfg = make_basic_config();
    let mut plat = PlatformBuildConfig::default();
    plat.cflags = vec!["-DPLATFORM_TEST".into()];
    plat.ldflags = vec!["-ldl".into()];
    cfg.build.platform.push((OS.to_string(), plat));
    let flags = collect_flags(&cfg, &[], "testproj", &[], "src/main.c", false, OS);
    assert!(has(&flags.cflags, "-DPLATFORM_TEST"));
    assert!(has(&flags.ldflags, "-ldl"));
}

#[test]
fn test_defines() {
    let mut cfg = make_basic_config();
    cfg.build.defines.push(("DEBUG".into(), "1".into()));
    cfg.build.defines.push(("FEATURE_X".into(), "".into()));
    cfg.build.defines.push(("VERSION".into(), "2.0".into()));
    let flags = collect_flags(&cfg, &[], "testproj", &[], "src/main.c", false, OS);
    assert!(has(&flags.cflags, "-DDEBUG=1"));
    assert!(has(&flags.cflags, "-DVERSION=2.0"));
    assert!(has(&flags.cflags, "-DFEATURE_X"));
}

#[test]
fn test_dependency_flag_inheritance() {
    let dep = make_dep(
        "deplib",
        "/tmp/deps/deplib",
        vec!["-pthread".into(), "-DUSE_DEP".into()],
        vec!["-ldl".into()],
    );
    let cfg = make_basic_config();
    let flags = collect_flags(&cfg, &[dep], "testproj", &[], "src/main.c", false, OS);
    assert!(has(&flags.cflags, "-DUSE_DEP"));
    assert!(has(&flags.cflags, "-pthread"));
    assert!(has(&flags.ldflags, "-pthread"));
    assert!(has(&flags.ldflags, "-ldl"));
}

#[test]
fn test_include_paths_in_flags() {
    let cfg = make_basic_config();
    let includes = vec!["/usr/local/include".to_string(), "./include".to_string()];
    let flags = collect_flags(&cfg, &[], "testproj", &includes, "src/main.c", false, OS);
    assert!(has(&flags.cflags, "-I/usr/local/include"));
    assert!(has(&flags.cflags, "-I./include"));
}

#[test]
fn test_library_paths_and_libs() {
    let mut dep = make_dep("mylib", "/tmp/deps/mylib", vec![], vec![]);
    dep.library_paths = vec!["/tmp/deps/mylib/lib".into()];
    dep.link_libraries = vec!["m".into(), "pthread".into()];
    let cfg = make_basic_config();
    let flags = collect_flags(&cfg, &[dep], "testproj", &[], "src/main.c", false, OS);
    assert!(flags.ldflags.iter().any(|f| f.starts_with("-L")));
    assert!(has(&flags.ldflags, "-lm"));
    assert!(has(&flags.ldflags, "-lpthread"));
}

#[test]
fn test_dedup_preserves_order() {
    let mut cfg = make_basic_config();
    cfg.build.extra_cflags = vec!["-DFOO".into(), "-DBAR".into(), "-DFOO".into()];
    let flags = collect_flags(&cfg, &[], "testproj", &[], "src/main.c", false, OS);
    let foo_count = flags.cflags.iter().filter(|f| *f == "-DFOO").count();
    assert_eq!(foo_count, 1, "-DFOO should not be duplicated");
}

#[test]
fn test_total_len() {
    let flags = Flags {
        cflags: vec!["-O2".into(), "-g".into()],
        ldflags: vec!["-lm".into()],
    };
    assert_eq!(flags.total_len(), 11);
}

#[test]
fn test_normalize_std_shorthand_c() {
    assert_eq!(normalize_std("11", false), "c11");
    assert_eq!(normalize_std("17", false), "c17");
    assert_eq!(normalize_std("23", false), "c23");
}

#[test]
fn test_normalize_std_shorthand_cpp() {
    assert_eq!(normalize_std("11", true), "c++11");
    assert_eq!(normalize_std("17", true), "c++17");
    assert_eq!(normalize_std("20", true), "c++20");
    assert_eq!(normalize_std("23", true), "c++23");
}

#[test]
fn test_normalize_std_full_forms() {
    assert_eq!(normalize_std("c17", false), "c17");
    assert_eq!(normalize_std("c++20", true), "c++20");
    assert_eq!(normalize_std("gnu17", false), "gnu17");
    assert_eq!(normalize_std("gnu++17", true), "gnu++17");
}

#[test]
fn test_normalize_std_gnu_cpp_auto() {
    assert_eq!(normalize_std("gnu17", true), "gnu++17");
}

#[test]
fn test_is_cpp_source() {
    assert_eq!(is_cpp_source("main.cpp"), Some(true));
    assert_eq!(is_cpp_source("main.cxx"), Some(true));
    assert_eq!(is_cpp_source("main.cc"), Some(true));
    assert_eq!(is_cpp_source("main.c"), Some(false));
    assert_eq!(is_cpp_source("main.h"), None);
    assert_eq!(is_cpp_source("main"), None);
}

#[test]
fn test_per_file_std_flag() {
    let mut cfg = make_basic_config();
    cfg.build.c_standard = "11".into();
    cfg.build.cpp_standard = Some("20".into());
    cfg.package.language = "c++".into();
    let cf = collect_flags(&cfg, &[], "app", &[], "src/main.c", false, OS);
    assert!(cf.cflags.contains(&"-std=c11".to_string()));
    let cppf = collect_flags(&cfg, &[], "app", &[], "src/main.cpp", false, OS);
    assert!(cppf.cflags.contains(&"-std=c++20".to_string()));
    let hf = collect_flags(&cfg, &[], "app", &[], "src/types.h", false, OS);
    assert!(hf.cflags.contains(&"-std=c++20".to_string()));
}

#[test]
fn dedup_keeps_first_occurrences_in_order() {
    let v: Vec<String> = vec!["-a".into(), "-b".into(), "-a".into(), "-c".into(), "-b".into()];
    assert_eq!(dedup_ordered(v), vec!["-a".to_string(), "-b".to_string(), "-c".to_string()]);
}

#[test]
fn flags_exceed_limit() {
    let flags = Flags { cflags: vec!["-O2".into(), "-g".into()], ldflags: vec!["-lm".into()] };
    assert!(flags.exceeds(10));
    assert!(!flags.exceeds(11));
}

#[test]
fn flags_are_free_of_duplicates() {
    let mut cfg = make_basic_config();
    cfg.build.extra_cflags = vec!["-Wall".into(), "-Wall".into()];
    cfg.build.extra_ldflags = vec!["-lm".into(), "-lm".into()];
    let flags = collect_flags(&cfg, &[], "testproj", &[], "src/main.c", false, OS);
    for (i, a) in flags.cflags.iter().enumerate() {
        for b in flags.cflags.iter().skip(i + 1) {
            assert_ne!(a, b);
        }
    }
    assert_eq!(flags.ldflags.iter().filter(|f| *f == "-lm").count(), 1);
}

#[test]
fn library_paths_naming_one_directory_get_one_l_flag() {
    let mut a = make_dep("a", "/tmp/deps/a", vec![], vec![]);
    a.library_paths = vec!["/tmp/deps/lib".into()];
    let mut b = make_dep("b", "/tmp/deps/b", vec![], vec![]);
    b.library_paths = vec!["/tmp/deps/lib/".into(), "/tmp/deps/./lib".into(), "/tmp/deps/other".into()];
    let cfg = make_basic_config();
    let flags = collect_flags(&cfg, &[a, b], "testproj", &[], "src/main.c", false, OS);
    let l: Vec<&String> = flags.ldflags.iter().filter(|f| f.starts_with("-L")).collect();
    assert_eq!(l, vec!["-L/tmp/deps/lib", "-L/tmp/deps/other"]);
}
