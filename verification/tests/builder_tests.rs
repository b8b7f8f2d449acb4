use hut::builder::{
    build_includes, candidate_compilers, check_sources, choose_compiler, compile_step, detect_ar,
    escape_rsp_arg, infer_cxx, is_c_file, is_cpp_file, is_source_file, language_is_cpp, link_step,
    object_dir, output_dir, output_path, response_file_content, collect_sources, set_extension,
    source_to_object, up_to_date, plan_rebuild, Compiler,
};
use hut::error::HutError;
use hut::flags::Flags;

#[test]
fn test_is_source_file_c() {
    assert!(is_source_file("main.c"));
    assert!(is_source_file("src/util.c"));
}

#[test]
fn test_is_source_file_h_is_not_source() {
    assert!(!is_source_file("header.h"));
    assert!(!is_source_file("header.hpp"));
}

#[test]
fn test_is_source_file_cpp_variants() {
    assert!(is_source_file("main.cpp"));
    assert!(is_source_file("main.cc"));
    assert!(is_source_file("main.cxx"));
    assert!(is_source_file("main.c++"));
}

#[test]
fn test_is_c_file_only_matches_c() {
    assert!(is_c_file("file.c"));
    assert!(!is_c_file("file.h"));
    assert!(!is_c_file("file.cpp"));
    assert!(!is_c_file("file.cc"));
}

#[test]
fn test_is_cpp_file_variants() {
    assert!(is_cpp_file("file.cpp"));
    assert!(is_cpp_file("file.cc"));
    assert!(is_cpp_file("file.cxx"));
    assert!(is_cpp_file("file.c++"));
    assert!(!is_cpp_file("file.c"));
    assert!(!is_cpp_file("file.h"));
}

#[test]
fn test_collect_sources_empty_dir() {
    let sources = collect_sources(Some(vec![]), &vec![]);
    assert!(sources.is_empty());
}

#[test]
fn test_collect_sources_single_c_file() {
    let sources = collect_sources(Some(vec!["/p/src/main.c".to_string()]), &vec![]);
    assert_eq!(sources.len(), 1);
    assert!(sources[0].ends_with("main.c"));
}

#[test]
fn test_collect_sources_mixed_c_and_cpp() {
    let walk = vec![
        "/p/src/main.c".to_string(),
        "/p/src/util.cpp".to_string(),
        "/p/src/helper.h".to_string(),
    ];
    let sources = collect_sources(Some(walk), &vec![]);
    assert_eq!(sources.len(), 2);
    assert!(sources.iter().any(|s| s.ends_with("/main.c")));
    assert!(sources.iter().any(|s| s.ends_with("/util.cpp")));
}

#[test]
fn test_collect_sources_nested_directories() {
    let walk = vec!["/p/src/main.c".to_string(), "/p/src/sub/deep.c".to_string()];
    let sources = collect_sources(Some(walk), &vec![]);
    assert_eq!(sources.len(), 2);
}

#[test]
fn test_collect_sources_no_src_dir_falls_back_to_root() {
    let root = vec!["/p/standalone.c".to_string()];
    let sources = collect_sources(None, &root);
    assert_eq!(sources.len(), 1);
    assert!(sources[0].ends_with("standalone.c"));
}

#[test]
fn test_escape_rsp_arg_plain() {
    assert_eq!(escape_rsp_arg("-O2"), "-O2");
    assert_eq!(escape_rsp_arg("-std=c17"), "-std=c17");
    assert_eq!(escape_rsp_arg("-DFOO=bar"), "-DFOO=bar");
}

#[test]
fn test_escape_rsp_arg_with_spaces() {
    let escaped = escape_rsp_arg("-I/path with spaces/include");
    assert!(escaped.starts_with('"'));
    assert!(escaped.ends_with('"'));
}

#[test]
fn test_escape_rsp_arg_with_quotes() {
    let escaped = escape_rsp_arg("-DFOO=\"bar\"");
    assert!(escaped.contains("\\\""));
}

#[test]
fn test_escape_rsp_arg_empty() {
    assert_eq!(escape_rsp_arg(""), "");
}

#[test]
fn test_output_dir_debug() {
    assert_eq!(output_dir("/test/project", false), "/test/project/target/debug");
}

#[test]
fn test_output_dir_release() {
    assert_eq!(output_dir("/test/project", true), "/test/project/target/release");
}

#[test]
fn test_object_dir() {
    assert_eq!(object_dir("/test/project", false), "/test/project/target/.build");
    assert_eq!(object_dir("/test/project", true), "/test/project/target/.build");
}

#[test]
fn test_source_to_object() {
    let obj = source_to_object("/test/project/src/main.c", "/test/project", false);
    assert_eq!(obj, "/test/project/target/.build/src/main.o");
}

#[test]
fn test_source_to_object_release() {
    let obj = source_to_object("/test/project/src/main.c", "/test/project", true);
    assert_eq!(obj, "/test/project/target/.build/src/main.o");
}

#[test]
fn test_infer_cxx_gcc() {
    assert_eq!(infer_cxx("gcc"), "g++");
}

#[test]
fn test_infer_cxx_clang() {
    assert_eq!(infer_cxx("clang"), "clang++");
}

#[test]
fn test_infer_cxx_cc() {
    assert_eq!(infer_cxx("cc"), "c++");
}

#[test]
fn test_infer_cxx_custom_suffix() {
    assert_eq!(infer_cxx("x86_64-linux-gnu-gcc"), "x86_64-linux-gnu-g++");
}

#[test]
fn test_infer_cxx_custom_clang_suffix() {
    assert_eq!(infer_cxx("x86_64-linux-gnu-clang"), "x86_64-linux-gnu-clang++");
}

#[test]
fn test_infer_cxx_unknown() {
    assert_eq!(infer_cxx("zig-cc"), "zig-cc");
}

#[test]
fn test_detect_ar_returns_string() {
    for (ar, llvm) in [(true, true), (true, false), (false, true), (false, false)] {
        let got = detect_ar(ar, llvm);
        assert!(!got.is_empty());
        assert!(got == "ar" || got == "llvm-ar", "Expected 'ar' or 'llvm-ar', got '{got}'");
    }
    assert_eq!(detect_ar(false, true), "llvm-ar");
    assert_eq!(detect_ar(false, false), "ar");
}

fn gcc() -> Compiler {
    Compiler { cc: "gcc".into(), cxx: "g++".into(), ar: "ar".into(), is_clang: false }
}

#[test]
fn source_outside_root_uses_its_file_name() {
    let obj = source_to_object("/elsewhere/lib/x.cpp", "/test/project", false);
    assert_eq!(obj, "/test/project/target/.build/x.o");
}

#[test]
fn set_extension_replaces_last_extension() {
    assert_eq!(set_extension("a/b/main.o", "rsp"), "a/b/main.rsp");
    assert_eq!(set_extension("a/b/archive.tar.gz", "o"), "a/b/archive.tar.o");
    assert_eq!(set_extension("a/b/Makefile", "o"), "a/b/Makefile.o");
    assert_eq!(set_extension("a/.hidden", "o"), "a/.hidden.o");
}

#[test]
fn escape_doubles_backslashes() {
    assert_eq!(escape_rsp_arg("a\\b"), "\"a\\\\b\"");
    assert_eq!(escape_rsp_arg("say \"hi\""), "\"say \\\"hi\\\"\"");
}

#[test]
fn response_file_has_one_argument_per_line() {
    let args = vec!["-O2".to_string(), "-I/a b".to_string()];
    assert_eq!(response_file_content(&args), "-O2\n\"-I/a b\"");
}

#[test]
fn compile_step_uses_cxx_for_cpp_and_cc_for_c() {
    let flags = Flags { cflags: vec!["-O0".into()], ldflags: vec![] };
    let c = compile_step(&gcc(), "/p/src/main.c", "/p", false, true, &flags);
    assert_eq!(c.command.program, "gcc");
    assert_eq!(c.object, "/p/target/.build/src/main.o");
    assert_eq!(c.command.args, vec!["-c", "/p/src/main.c", "-o", "/p/target/.build/src/main.o", "-O0"]);
    assert!(c.response_file.is_none());
    let cpp = compile_step(&gcc(), "/p/src/util.cpp", "/p", false, false, &flags);
    assert_eq!(cpp.command.program, "g++");
    let h = compile_step(&gcc(), "/p/src/types.h", "/p", false, true, &flags);
    assert_eq!(h.command.program, "g++");
    let h2 = compile_step(&gcc(), "/p/src/types.h", "/p", false, false, &flags);
    assert_eq!(h2.command.program, "gcc");
}

#[test]
fn long_flags_go_through_a_response_file() {
    let big = "x".repeat(40000);
    let flags = Flags { cflags: vec![big.clone()], ldflags: vec!["-lm".into()] };
    let c = compile_step(&gcc(), "/p/src/main.c", "/p", false, false, &flags);
    let (path, content) = c.response_file.expect("response file");
    assert_eq!(path, "/p/target/.build/src/main.rsp");
    assert_eq!(content, big);
    assert_eq!(c.command.args.last().unwrap(), "@/p/target/.build/src/main.rsp");
    let l = link_step(&gcc(), &vec!["/p/src/main.c".into()], &vec!["/p/o.o".into()], "/p/target/debug/app", &flags);
    let (lpath, lcontent) = l.response_file.expect("response file");
    assert_eq!(lpath, "/p/target/debug/app.rsp");
    assert_eq!(lcontent, format!("{big}\n-lm"));
}

#[test]
fn link_step_picks_cxx_when_any_source_is_cpp() {
    let flags = Flags { cflags: vec!["-O0".into()], ldflags: vec!["-lm".into()] };
    let sources = vec!["/p/src/a.c".to_string(), "/p/src/b.cpp".to_string()];
    let objects = vec!["/p/a.o".to_string(), "/p/b.o".to_string()];
    let l = link_step(&gcc(), &sources, &objects, "/p/target/debug/app", &flags);
    assert_eq!(l.command.program, "g++");
    assert_eq!(l.command.args, vec!["-o", "/p/target/debug/app", "/p/a.o", "/p/b.o", "-O0", "-lm"]);
    let l2 = link_step(&gcc(), &vec!["/p/src/a.c".to_string()], &objects, "/p/out", &flags);
    assert_eq!(l2.command.program, "gcc");
}

#[test]
fn choose_compiler_prefers_environment() {
    let cands = candidate_compilers("auto");
    assert_eq!(cands, vec!["gcc", "clang", "cc"]);
    let c = choose_compiler(Some("clang-15".into()), Some("clang++-15".into()), true, true, &cands, &vec![true, true, true], "ar".into()).unwrap();
    assert_eq!(c.cc, "clang-15");
    assert_eq!(c.cxx, "clang++-15");
    assert!(c.is_clang);
    let c2 = choose_compiler(Some("x86_64-gcc".into()), None, true, false, &cands, &vec![true, true, true], "ar".into()).unwrap();
    assert_eq!(c2.cxx, "x86_64-g++");
    let c3 = choose_compiler(None, None, false, false, &cands, &vec![false, true, true], "llvm-ar".into()).unwrap();
    assert_eq!(c3.cc, "clang");
    assert_eq!(c3.cxx, "clang++");
    assert_eq!(c3.ar, "llvm-ar");
    let none = choose_compiler(None, None, false, false, &cands, &vec![false, false, false], "ar".into());
    assert!(matches!(none, Err(HutError::NoCompiler)));
    assert_eq!(candidate_compilers("clang"), vec!["clang", "clang++"]);
    assert_eq!(candidate_compilers("gcc"), vec!["gcc", "g++"]);
}

#[test]
fn build_paths_and_decisions() {
    assert_eq!(output_path("/p", true, "app"), "/p/target/release/app");
    assert_eq!(
        build_includes(vec!["/d/include".into()], "/p", true, true),
        vec!["/d/include", "/p/include", "/p/src"]
    );
    assert_eq!(build_includes(vec![], "/p", false, true), vec!["/p/src"]);
    assert!(up_to_date(3, 3, true, true));
    assert!(!up_to_date(2, 3, true, true));
    assert!(!up_to_date(3, 3, false, true));
    assert!(language_is_cpp("c++") && language_is_cpp("cpp") && !language_is_cpp("c"));
    let err = check_sources(&vec![]).unwrap_err();
    assert_eq!(err.message(), "Build failed: No C/C++ source files found. Add .c or .cpp files to src/.");
    assert!(check_sources(&vec!["a.c".into()]).is_ok());
}

#[test]
fn sources_are_listed_once() {
    let walk = vec!["/p/src/a.c".to_string(), "/p/src/a.c".to_string(), "/p/src/b.cc".to_string()];
    assert_eq!(collect_sources(Some(walk), &vec![]), vec!["/p/src/a.c", "/p/src/b.cc"]);
}

#[test]
fn rebuild_reuses_fresh_objects_and_compiles_the_rest() {
    let sources: Vec<String> = vec!["/p/src/a.c".into(), "/p/src/b.c".into(), "/p/src/c.cpp".into()];
    let plan = plan_rebuild(&sources, &vec![true, false, true], "/p", false);
    assert_eq!(plan.cached_objects, vec!["/p/target/.build/src/a.o", "/p/target/.build/src/c.o"]);
    assert_eq!(plan.stale_sources, vec!["/p/src/b.c"]);
    let all_fresh = plan_rebuild(&sources, &vec![true, true, true], "/p", true);
    assert!(all_fresh.stale_sources.is_empty());
    assert_eq!(all_fresh.cached_objects.len(), 3);
    let none_fresh = plan_rebuild(&sources, &vec![false, false, false], "/p", false);
    assert_eq!(none_fresh.stale_sources, sources);
    assert!(none_fresh.cached_objects.is_empty());
}

#[test]
fn response_file_escaping_round_trips() {
    let arg = r#"-DMSG="a b\c""#;
    let e = escape_rsp_arg(arg);
    assert_eq!(e, r#""-DMSG=\"a b\\c\"""#);
    // Reading the body back: a backslash stands for the next character.
    let body: Vec<char> = e[1..e.len() - 1].chars().collect();
    let mut back = String::new();
    let mut i = 0;
    while i < body.len() {
        if body[i] == '\\' && i + 1 < body.len() {
            back.push(body[i + 1]);
            i += 2;
        } else {
            back.push(body[i]);
            i += 1;
        }
    }
    assert_eq!(back, arg);
    assert_eq!(escape_rsp_arg("-O2"), "-O2");
}

#[test]
fn file_name_ignores_trailing_current_dir() {
    assert!(is_c_file("foo.c/."));
    assert!(is_c_file("dir/foo.c/./"));
    assert!(!is_c_file("foo.c/.."));
    assert_eq!(set_extension("src/foo.c/.", "o"), "src/foo.o");
}

#[test]
fn only_stale_sources_are_compiled_once_each() {
    let sources = vec!["src/a.c".to_string(), "src/b.c".to_string(), "src/c.c".to_string()];
    let plan = plan_rebuild(&sources, &vec![true, false, false], "/p", false);
    assert_eq!(plan.stale_sources, vec!["src/b.c".to_string(), "src/c.c".to_string()]);
    assert_eq!(plan.cached_objects.len(), 1);
}

#[test]
fn sources_naming_one_file_are_listed_once() {
    let found = vec!["src/a.c".to_string(), "src/./a.c".to_string(), "src/b.cpp".to_string()];
    let r = collect_sources(Some(found), &vec![]);
    assert_eq!(r, vec!["src/a.c".to_string(), "src/b.cpp".to_string()]);
}
