use hut::config::{default_lang, HutConfig, WorkspaceConfig};
use hut::error::HutError;
use hut::lockfile::{LockedPackage, Lockfile};
use hut::package::{BuildConfig, PlatformBuildConfig};

#[test]
fn default_template_creates_config() {
    let config = HutConfig::default_template("myapp");
    assert_eq!(config.package.name, "myapp");
    assert_eq!(config.package.version, "0.1.0");
    assert_eq!(config.package.license, Some("MIT".to_string()));
    assert_eq!(config.package.language, "c");
}

#[test]
fn workspace_config_default() {
    let ws = WorkspaceConfig::default();
    assert!(ws.members.is_empty());
}

#[test]
fn build_config_defaults() {
    let b = BuildConfig::default();
    assert_eq!(b.system, "auto");
    assert_eq!(b.c_standard, "c17");
    assert_eq!(b.opt_level, "2");
    assert!(b.debug);
    assert!(b.warnings);
    assert_eq!(b.compiler, "auto");
    assert!(!b.lto && !b.pic);
    assert!(b.cpp_standard.is_none());
    let p = PlatformBuildConfig::default();
    assert!(p.cflags.is_empty() && p.ldflags.is_empty() && p.defines.is_empty());
    assert_eq!(default_lang(), "c");
    let t = HutConfig::default_template("x");
    assert_eq!(t.package.includes, vec!["include"]);
}

fn locked(name: &str, version: &str) -> LockedPackage {
    LockedPackage {
        name: name.into(),
        version: version.into(),
        source: "https://github.com/o/r.git".into(),
        integrity: String::new(),
        resolved: "https://github.com/o/r.git".into(),
        dependencies: vec![],
    }
}

#[test]
fn lockfile_insert_get_remove() {
    let mut lf = Lockfile::new();
    assert_eq!(lf.version, 1);
    assert!(lf.get("zlib").is_none());
    lf.insert(locked("zlib", "v1.3"));
    lf.insert(locked("argparse", "v3.0"));
    assert_eq!(lf.get("zlib").unwrap().version, "v1.3");
    lf.insert(locked("zlib", "v1.4"));
    assert_eq!(lf.get("zlib").unwrap().version, "v1.4");
    assert_eq!(lf.get("argparse").unwrap().version, "v3.0");
    let names: Vec<&str> = lf.packages.iter().map(|(n, _)| n.as_str()).collect();
    assert_eq!(names, vec!["argparse", "zlib"]);
    lf.remove("zlib");
    assert!(lf.get("zlib").is_none());
    assert_eq!(lf.get("argparse").unwrap().version, "v3.0");
    lf.remove("missing");
    assert_eq!(lf.packages.len(), 1);
    let d = Lockfile::default();
    assert!(d.packages.is_empty() && d.version == 1);
}

#[test]
fn error_messages() {
    assert_eq!(HutError::PackageNotFound("x".into()).message(), "Package not found: x");
    assert_eq!(HutError::VersionNotFound("x".into(), "^1".into()).message(), "Version not found: x@^1");
    assert_eq!(HutError::NoCompiler.message(), "No C/C++ compiler found. Install gcc or clang.");
    assert_eq!(HutError::NotAProject.message(), "Not a hut project (no hut.toml found)");
    assert_eq!(HutError::Other("plain".into()).message(), "plain");
    assert_eq!(HutError::Io("gone".into()).message(), "IO error: gone");
    assert_eq!(HutError::Build("b".into()).message(), "Build failed: b");
    assert_eq!(HutError::Resolution("r".into()).message(), "Dependency resolution failed: r");
    assert_eq!(HutError::Registry("g".into()).message(), "Registry error: g");
    assert_eq!(HutError::Config("c".into()).message(), "Config error: c");
    assert_eq!(HutError::Http("h".into()).message(), "HTTP error: h");
    assert_eq!(HutError::Toml("t".into()).message(), "TOML parse error: t");
    assert_eq!(HutError::TomlSer("t".into()).message(), "TOML serialize error: t");
    assert_eq!(HutError::Json("j".into()).message(), "JSON error: j");
    assert_eq!(HutError::Semver("s".into()).message(), "Semver error: s");
}
