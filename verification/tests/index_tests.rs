use hut::error::HutError;
use hut::index::{render_entry, PackageEntry, PackagesIndex};

fn test_entry(repo: &str) -> PackageEntry {
    PackageEntry {
        repo: repo.to_string(),
        description: String::new(),
        includes: vec![],
        libs: vec![],
        sources: vec![],
        defines: vec![],
        cflags: vec![],
        ldflags: vec![],
        build: String::new(),
    }
}

fn test_index(entries: Vec<(&str, PackageEntry)>) -> PackagesIndex {
    PackagesIndex::from_entries(entries.into_iter().map(|(k, v)| (k.to_string(), v)).collect())
}

fn with_description(e: PackageEntry, d: &str) -> PackageEntry {
    PackageEntry { description: d.to_string(), ..e }
}

#[test]
fn find_existing_package() {
    let idx = test_index(vec![("cli11", test_entry("CLIUtils/CLI11"))]);
    let entry = idx.find("cli11");
    assert!(entry.is_some());
    assert_eq!(entry.unwrap().repo, "CLIUtils/CLI11");
}

#[test]
fn find_missing_package() {
    let idx = test_index(vec![("cli11", test_entry("CLIUtils/CLI11"))]);
    assert!(idx.find("nonexistent").is_none());
}

#[test]
fn find_case_sensitive() {
    let idx = test_index(vec![("cli11", test_entry("CLIUtils/CLI11"))]);
    assert!(idx.find("cli11").is_some());
    assert!(idx.find("CLI11").is_none());
}

#[test]
fn search_by_name() {
    let idx = test_index(vec![("cli11", test_entry("CLIUtils/CLI11")), ("fmtlib", test_entry("fmtlib/fmt"))]);
    let results = idx.search("cli");
    assert_eq!(results.len(), 1);
    assert_eq!(*results[0].0, "cli11");
}

#[test]
fn search_by_description() {
    let idx = test_index(vec![
        ("fmtlib", with_description(test_entry("fmtlib/fmt"), "modern formatting library")),
        ("cli11", test_entry("CLIUtils/CLI11")),
    ]);
    let results = idx.search("formatting");
    assert_eq!(results.len(), 1);
    assert_eq!(*results[0].0, "fmtlib");
}

#[test]
fn search_case_insensitive() {
    let idx = test_index(vec![("cli11", with_description(test_entry("CLIUtils/CLI11"), "Command-line parser"))]);
    let results = idx.search("CLI");
    assert_eq!(results.len(), 1);
    assert_eq!(*results[0].0, "cli11");
}

#[test]
fn search_no_match() {
    let idx = test_index(vec![("cli11", test_entry("CLIUtils/CLI11"))]);
    let results = idx.search("zzz_nonexistent");
    assert!(results.is_empty());
}

#[test]
fn repo_url_known_package() {
    let idx = test_index(vec![("cli11", test_entry("CLIUtils/CLI11"))]);
    let url = idx.repo_url("cli11");
    assert!(url.is_ok());
    assert_eq!(url.unwrap(), "https://github.com/CLIUtils/CLI11.git");
}

#[test]
fn repo_url_unknown_package_returns_error() {
    let idx = test_index(vec![("cli11", test_entry("CLIUtils/CLI11"))]);
    let result = idx.repo_url("nonexistent");
    assert!(result.is_err());
    let err = result.unwrap_err();
    assert!(matches!(err, HutError::PackageNotFound(_)));
    assert!(err.message().contains("nonexistent"));
}

#[test]
fn search_multiple_matches() {
    let idx = test_index(vec![
        ("cli11", with_description(test_entry("CLIUtils/CLI11"), "C++ command-line parser")),
        ("argparse", with_description(test_entry("p-ranav/argparse"), "argument parser")),
        ("fmtlib", test_entry("fmtlib/fmt")),
    ]);
    let results = idx.search("parser");
    assert_eq!(results.len(), 2);
}

#[test]
fn search_matches_description_case_insensitively() {
    let idx = test_index(vec![("mylib", with_description(test_entry("user/mylib"), "AWESOME Library"))]);
    let results = idx.search("awesome");
    assert_eq!(results.len(), 1);
    assert_eq!(*results[0].0, "mylib");
}

#[test]
fn repo_url_with_slashes_in_repo() {
    let idx = test_index(vec![("tool", test_entry("owner/name/subtool"))]);
    let url = idx.repo_url("tool").expect("should resolve");
    assert_eq!(url, "https://github.com/owner/name/subtool.git");
}

#[test]
fn entries_are_kept_in_name_order_and_later_ones_win() {
    let idx = test_index(vec![
        ("zlib", test_entry("madler/zlib")),
        ("argparse", test_entry("p-ranav/argparse")),
        ("zlib", test_entry("other/zlib")),
    ]);
    let names: Vec<&str> = idx.packages.iter().map(|(n, _)| n.as_str()).collect();
    assert_eq!(names, vec!["argparse", "zlib"]);
    assert_eq!(idx.find("zlib").unwrap().repo, "other/zlib");
    let all = idx.search("");
    assert_eq!(*all[0].0, "argparse");
}

#[test]
fn reseed_appends_only_missing_packages() {
    let mut full = test_entry("nlohmann/json");
    full.description = "JSON for Modern C++".into();
    full.includes = vec!["include".into(), "single_include".into()];
    full.libs = vec!["m".into()];
    let builtin = test_index(vec![("json", full), ("cli11", test_entry("CLIUtils/CLI11"))]);
    let user = test_index(vec![("cli11", test_entry("mine/CLI11"))]);
    let (text, count) = builtin.reseed_additions(&user);
    assert_eq!(count, 1);
    assert_eq!(
        text,
        "\n[packages.json]\nrepo = \"nlohmann/json\"\ndescription = \"JSON for Modern C++\"\nincludes = [\"include\", \"single_include\"]\nlibs = [\"m\"]\n"
    );
    let (none, zero) = builtin.reseed_additions(&builtin);
    assert_eq!(zero, 0);
    assert_eq!(none, "");
    assert_eq!(render_entry("x", &test_entry("o/x")), "\n[packages.x]\nrepo = \"o/x\"\n");
}

#[test]
fn reseed_appends_one_block_per_missing_package_in_name_order() {
    let builtin = test_index(vec![
        ("zlib", test_entry("madler/zlib")),
        ("fmt", test_entry("fmtlib/fmt")),
        ("cli11", test_entry("CLIUtils/CLI11")),
    ]);
    let user = test_index(vec![("fmt", test_entry("mine/fmt"))]);
    let (text, count) = builtin.reseed_additions(&user);
    assert_eq!(count, 2);
    assert_eq!(text, "\n[packages.cli11]\nrepo = \"CLIUtils/CLI11\"\n\n[packages.zlib]\nrepo = \"madler/zlib\"\n");
}
