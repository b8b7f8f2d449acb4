use hut::config::HutConfig;
use hut::error::HutError;
use hut::index::{PackageEntry, PackagesIndex};
use hut::lockfile::Lockfile;
use hut::package::{BuildConfig, Package, ResolvedDependency};
use hut::project::{
    add_dependencies, add_workspace_member, apply_compiler_choice, apply_language_choice, cache_dir,
    cache_dir_under, compiler_setting, CompilerSetting,
    combined_source, du_size, exit_status_error, format_check_result, format_targets, gitignore_text,
    has_dependencies, init_project_name, jit_needs_cxx, lint_compiler, lock_resolved, locked_package,
    lockfile_path, main_source, outdated, packages_dir, parse_dep_spec, parse_usize, project_template,
    remove_dependency, run_target_name, script_for, split_lines, unlock_all, update_targets,
    version_from_manifest,
};

fn entry(repo: &str) -> PackageEntry {
    PackageEntry {
        repo: repo.into(),
        description: String::new(),
        includes: vec![],
        libs: vec![],
        sources: vec![],
        defines: vec![],
        cflags: vec![],
        ldflags: vec![],
        build: String::new(),
    }
}

fn index() -> PackagesIndex {
    PackagesIndex::from_entries(vec![("zlib".into(), entry("madler/zlib")), ("fmt".into(), entry("fmtlib/fmt"))])
}

#[test]
fn paths() {
    assert_eq!(lockfile_path(), "hut.lock");
    assert_eq!(cache_dir_under(Some("/home/u/.cache".into())), "/home/u/.cache/hut/cache");
    assert_eq!(cache_dir_under(None), ".hut/hut/cache");
    assert!(cache_dir().ends_with("hut/cache"));
    assert_eq!(packages_dir(), cache_dir());
}

#[test]
fn dep_specs() {
    assert_eq!(parse_dep_spec("user/lib@^1.0"), ("user/lib".to_string(), Some("^1.0".to_string())));
    assert_eq!(parse_dep_spec("plain"), ("plain".to_string(), None));
    assert_eq!(parse_dep_spec("a@b@c"), ("a".to_string(), Some("b@c".to_string())));
}

#[test]
fn init_choices() {
    assert_eq!(init_project_name(Some("demo"), Some("cwd".into())), "demo");
    assert_eq!(init_project_name(Some("."), Some("cwd".into())), "cwd");
    assert_eq!(init_project_name(Some("./"), None), "my-project");
    assert_eq!(init_project_name(None, Some("here".into())), "here");
    let mut c = HutConfig::default_template("p");
    apply_language_choice(&mut c, " 2\n");
    assert_eq!(c.package.language, "c++");
    assert_eq!(c.build.cpp_standard.as_deref(), Some("c++17"));
    let mut d = HutConfig::default_template("p");
    apply_language_choice(&mut d, "1\n");
    assert_eq!(d.package.language, "c");
    let avail = vec!["gcc".to_string(), "clang".to_string()];
    apply_compiler_choice(&mut d, "2\n", &avail);
    assert_eq!(d.build.compiler, "clang");
    apply_compiler_choice(&mut d, "3", &avail);
    assert_eq!(d.build.compiler, "clang");
    apply_compiler_choice(&mut d, "+1", &avail);
    assert_eq!(d.build.compiler, "gcc");
    assert_eq!(parse_usize("42"), Some(42));
    assert_eq!(parse_usize("+7"), Some(7));
    assert_eq!(parse_usize(""), None);
    assert_eq!(parse_usize("+"), None);
    assert_eq!(parse_usize("4a"), None);
    assert_eq!(parse_usize("99999999999999999999999"), None);
}

#[test]
fn hello_world_sources() {
    let (ext, text) = main_source(false, "demo");
    assert_eq!(ext, "c");
    assert!(text.contains("printf(\"Hello from demo!\\n\");"));
    assert!(!text.contains("{NAME}"));
    let (ext2, text2) = main_source(true, "demo");
    assert_eq!(ext2, "cpp");
    assert!(text2.contains("std::cout << \"Hello from demo!\" << std::endl;"));
    assert_eq!(gitignore_text(), "target/\n*.o\n*.a\n*.so\n");
}

#[test]
fn templates() {
    let lib = project_template("lib").unwrap();
    assert_eq!(lib.config.package.name, "mylib");
    assert_eq!(lib.files.len(), 2);
    assert_eq!(lib.files[0].0, "include/mylib.h");
    assert!(lib.files[1].1.contains("mylib_add"));
    let app = project_template("app").unwrap();
    assert_eq!(app.config.package.name, "myapp");
    assert_eq!(app.files[0].0, "src/main.c");
    let game = project_template("raylib-game").unwrap();
    assert_eq!(game.config.dependencies, vec![("raylib".to_string(), "^5.0".to_string())]);
    assert!(game.files[0].1.contains("InitWindow"));
    assert!(project_template("unknown").is_none());
}

#[test]
fn add_and_remove_dependencies() {
    let mut c = HutConfig::default_template("p");
    let idx = index();
    let added = add_dependencies(&mut c, &idx, &vec![" zlib ".into(), "fmt".into()], false, false).unwrap();
    assert_eq!(added, vec!["zlib", "fmt"]);
    assert_eq!(c.dependencies, vec![("fmt".to_string(), "latest".to_string()), ("zlib".to_string(), "latest".to_string())]);
    let again = add_dependencies(&mut c, &idx, &vec!["zlib".into()], false, false).unwrap();
    assert!(again.is_empty());
    let err = add_dependencies(&mut c, &idx, &vec!["nope".into(), "zlib".into(), "gone".into()], true, false).unwrap_err();
    assert_eq!(err.message(), "packages not found: nope, gone");
    assert_eq!(c.test_dependencies, vec![("zlib".to_string(), "latest".to_string())]);
    assert!(remove_dependency(&mut c, "zlib"));
    assert_eq!(c.dependencies, vec![("fmt".to_string(), "latest".to_string())]);
    assert_eq!(c.test_dependencies.len(), 1);
    assert!(remove_dependency(&mut c, "zlib"));
    assert!(c.test_dependencies.is_empty());
    assert!(!remove_dependency(&mut c, "zlib"));
}

#[test]
fn update_and_outdated() {
    let mut c = HutConfig::default_template("p");
    c.dependencies = vec![("fmt".into(), "*".into()), ("zlib".into(), "*".into())];
    c.build_dependencies = vec![("cmake".into(), "*".into())];
    assert_eq!(update_targets(&c, Some("zlib")), Some(vec!["zlib".to_string()]));
    assert_eq!(update_targets(&c, Some("nope")), None);
    assert_eq!(update_targets(&c, None), Some(vec!["fmt".to_string(), "zlib".to_string(), "cmake".to_string()]));
    let mut lf = Lockfile::new();
    let dep = resolved("zlib");
    lock_resolved(&mut lf, &vec![dep]);
    let locked = lf.get("zlib").unwrap();
    assert_eq!(locked.version, "v1.3.1");
    assert_eq!(locked.source, "https://github.com/madler/zlib.git");
    assert_eq!(locked.resolved, "https://github.com/madler/zlib.git");
    assert_eq!(locked.integrity, "");
    let out = outdated(&c, &lf, &index());
    assert_eq!(out, vec![("fmt".to_string(), "fmtlib/fmt".to_string())]);
    unlock_all(&mut lf, &vec!["zlib".into()]);
    assert!(lf.get("zlib").is_none());
    assert_eq!(locked_package(&resolved("a")).name, "a");
}

fn resolved(name: &str) -> ResolvedDependency {
    ResolvedDependency {
        name: name.into(),
        version: "v1.3.1".into(),
        path: "/c".into(),
        package: Package {
            name: name.into(),
            version: "1.3.1".into(),
            description: None,
            authors: vec![],
            license: None,
            repository: Some("https://github.com/madler/zlib.git".into()),
            homepage: None,
            sources: vec![],
            includes: vec![],
            dependencies: vec![("x".into(), "^1".into())],
            build_dependencies: vec![],
            test_dependencies: vec![],
            build: BuildConfig::default(),
            scripts: vec![],
            libraries: vec![],
            executables: vec![],
            tests: vec![],
            cflags: vec![],
            ldflags: vec![],
        },
        include_paths: vec![],
        library_paths: vec![],
        link_libraries: vec![],
        cflags: vec![],
        ldflags: vec![],
    }
}

#[test]
fn run_decisions() {
    let mut c = HutConfig::default_template("app");
    assert!(!has_dependencies(&c));
    c.scripts = vec![("hello".into(), "echo hi".into())];
    assert_eq!(run_target_name(&c, None), "app");
    assert_eq!(run_target_name(&c, Some("bench")), "bench");
    assert_eq!(script_for(&c, "hello").as_deref(), Some("echo hi"));
    assert!(script_for(&c, "bye").is_none());
    assert!(jit_needs_cxx(&vec!["a.c".into(), "b.hpp".into()]));
    assert!(!jit_needs_cxx(&vec!["a.c".into(), "b.h".into()]));
    assert_eq!(combined_source(&vec!["int a;".into(), "int b;".into()]), "int a;\nint b;\n");
    assert!(exit_status_error(0).is_none());
    assert_eq!(exit_status_error(3).unwrap().message(), "Process exited with code 3");
    assert_eq!(exit_status_error(-1).unwrap().message(), "Process exited with code -1");
}

#[test]
fn fmt_lint_upgrade() {
    let files = format_targets(
        &vec!["/p/src/b.c".into(), "/p/src/a.cpp".into(), "/p/src/x.txt".into()],
        &vec!["/p/include/z.h".into(), "/p/src/b.c".into(), "/p/src/a.cpp".into()],
    );
    assert_eq!(files, vec!["/p/include/z.h", "/p/src/a.cpp", "/p/src/b.c"]);
    // Paths sort component by component: `src/a/b.c` before `src/a-b.c`.
    let nested = format_targets(&vec!["/p/src/a-b.c".into(), "/p/src/a/b.c".into(), "/p/src/a.c".into()], &vec![]);
    assert_eq!(nested, vec!["/p/src/a/b.c", "/p/src/a-b.c", "/p/src/a.c"]);
    assert!(format_check_result(0).is_ok());
    assert_eq!(format_check_result(2).unwrap_err().message(), "2 file(s) need formatting. Run `hut fmt` to fix.");
    assert_eq!(lint_compiler("auto", false, true).unwrap(), "clang");
    assert_eq!(lint_compiler("gcc", true, true).unwrap(), "gcc");
    assert!(matches!(lint_compiler("auto", false, false), Err(HutError::Other(_))));
    assert_eq!(lint_compiler("tcc", false, false).unwrap(), "tcc");
    let manifest = "[package]\nname = \"hut\"\n  version = \"0.5.0\"\nedition = \"2021\"\n";
    assert_eq!(version_from_manifest(manifest).as_deref(), Some("0.5.0"));
    assert!(version_from_manifest("[package]\nname = \"x\"\n").is_none());
    assert_eq!(split_lines("a\r\nb\n\nc"), vec!["a", "b", "", "c"]);
    assert_eq!(du_size("  12K\t/tmp/x\n"), "12K");
    assert_eq!(du_size("   "), "?");
}

#[test]
fn compiler_settings() {
    let two: Vec<String> = vec!["gcc".into(), "clang".into()];
    let one: Vec<String> = vec!["clang".into()];
    assert!(matches!(compiler_setting("clang", &vec![], false), CompilerSetting::Use(c) if c == "clang"));
    assert!(matches!(compiler_setting("auto", &vec![], true), CompilerSetting::NoCompiler));
    assert!(matches!(compiler_setting("auto", &one, true), CompilerSetting::Use(c) if c == "clang"));
    assert!(matches!(compiler_setting("auto", &two, true), CompilerSetting::Prompt));
    assert!(matches!(compiler_setting("auto", &two, false), CompilerSetting::Use(c) if c == "gcc"));
}

#[test]
fn workspace_members_are_added_once() {
    let mut c = HutConfig::default_template("ws");
    assert!(add_workspace_member(&mut c, "libs/a".into()));
    assert!(add_workspace_member(&mut c, "libs/b".into()));
    assert!(!add_workspace_member(&mut c, "libs/a".into()));
    assert_eq!(c.workspace.members, vec!["libs/a", "libs/b"]);
    assert_eq!(c.package.name, "ws");
}


#[test]
fn test_create_unknown_template() {
    assert!(project_template("nonexistent").is_none());
    assert!(project_template("lib").is_some());
}
