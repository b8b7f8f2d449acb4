//! Package definitions: the manifest of a C/C++ package, its build
//! configuration, its targets, and a dependency after resolution.
//!
//! Tables keyed by name (dependencies, defines, scripts, per-target flags,
//! platform overrides) are association lists kept in key order, the order in
//! which the manifest's tables are iterated.

use vstd::prelude::*;

use crate::table::sorted_keys;
use crate::text::{owned, str_eq, views};

verus! {

/// A C/C++ package definition.
#[derive(Clone, Debug)]
pub struct Package {
    pub name: String,
    pub version: String,
    pub description: Option<String>,
    pub authors: Vec<String>,
    pub license: Option<String>,
    pub repository: Option<String>,
    pub homepage: Option<String>,
    /// Source directories (relative to package root).
    pub sources: Vec<String>,
    /// Include directories (relative to package root).
    pub includes: Vec<String>,
    /// Dependencies: name and version constraint.
    pub dependencies: Vec<(String, String)>,
    pub build_dependencies: Vec<(String, String)>,
    pub test_dependencies: Vec<(String, String)>,
    pub build: BuildConfig,
    /// Scripts (like npm scripts): name and command.
    pub scripts: Vec<(String, String)>,
    pub libraries: Vec<LibraryTarget>,
    pub executables: Vec<ExecutableTarget>,
    pub tests: Vec<TestTarget>,
    /// Compiler flags.
    pub cflags: Vec<String>,
    /// Linker flags.
    pub ldflags: Vec<String>,
}

/// Build configuration of a package or project.
#[derive(Clone, Debug)]
pub struct BuildConfig {
    /// Build system: "auto", "cmake", "make", "hut".
    pub system: String,
    /// C standard: "c11", "c17", "c23", ...
    pub c_standard: String,
    /// C++ standard: "c++17", "c++20", ...
    pub cpp_standard: Option<String>,
    /// Optimization level: "0", "1", "2", "3", "s", "fast".
    pub opt_level: String,
    /// Debug symbols.
    pub debug: bool,
    /// Warning flags.
    pub warnings: bool,
    pub extra_cflags: Vec<String>,
    pub extra_ldflags: Vec<String>,
    /// Preprocessor defines: name and value (empty value: bare define).
    pub defines: Vec<(String, String)>,
    /// Per-target compiler flags (key = target name or "*" for all).
    pub target_cflags: Vec<(String, Vec<String>)>,
    /// Per-target linker flags.
    pub target_ldflags: Vec<(String, Vec<String>)>,
    /// Platform-conditional overrides keyed by OS name.
    pub platform: Vec<(String, PlatformBuildConfig)>,
    /// Sanitizers: "address", "undefined", "thread", "leak".
    pub sanitizers: Vec<String>,
    /// Compiler preference: "auto", "gcc", "clang".
    pub compiler: String,
    /// Link-time optimization.
    pub lto: bool,
    /// Position-independent code.
    pub pic: bool,
}

/// Flags that apply on one platform only.
#[derive(Clone, Debug)]
pub struct PlatformBuildConfig {
    pub cflags: Vec<String>,
    pub ldflags: Vec<String>,
    pub defines: Vec<(String, String)>,
}

/// An exported library.
#[derive(Clone, Debug)]
pub struct LibraryTarget {
    pub name: String,
    /// "static" or "shared".
    pub lib_type: String,
}

/// An exported executable.
#[derive(Clone, Debug)]
pub struct ExecutableTarget {
    pub name: String,
    pub sources: Vec<String>,
}

/// A test target.
#[derive(Clone, Debug)]
pub struct TestTarget {
    pub name: String,
    pub sources: Vec<String>,
    pub framework: Option<String>,
}

/// A dependency after resolution, with the paths and flags it contributes.
#[derive(Clone, Debug)]
pub struct ResolvedDependency {
    pub name: String,
    pub version: String,
    pub path: String,
    pub package: Package,
    /// All include directories (own + transitive).
    pub include_paths: Vec<String>,
    /// Library paths for linking.
    pub library_paths: Vec<String>,
    /// Libraries to link against.
    pub link_libraries: Vec<String>,
    /// Compiler flags inherited from this dependency.
    pub cflags: Vec<String>,
    /// Linker flags inherited from this dependency.
    pub ldflags: Vec<String>,
}

/// The value stored under `key` in an association list (its first entry).
pub open spec fn assoc_get<V>(m: Seq<(String, V)>, key: Seq<char>) -> Option<V>
    decreases m.len(),
{
    if m.len() == 0 {
        None
    } else if m[0].0@ == key {
        Some(m[0].1)
    } else {
        assoc_get(m.drop_first(), key)
    }
}

/// Look up `key` in an association list.
pub fn assoc_find<V>(m: &Vec<(String, V)>, key: &str) -> (r: Option<usize>)
    ensures
        r is None ==> assoc_get(m@, key@) is None,
        r matches Some(i) ==> i < m@.len() && assoc_get(m@, key@) == Some(m@[i as int].1)
            && m@[i as int].0@ == key@,
{
    let mut i: usize = 0;
    assert(m@.skip(0) == m@);
    while i < m.len()
        invariant
            i <= m@.len(),
            assoc_get(m@, key@) == assoc_get(m@.skip(i as int), key@),
        decreases m@.len() - i,
    {
        assert(m@.skip(i as int).drop_first() == m@.skip(i + 1));
        if str_eq(m[i].0.as_str(), key) {
            return Some(i);
        }
        i = i + 1;
    }
    None
}

/// Copy a list of strings.
pub fn copy_strings(v: &Vec<String>) -> (r: Vec<String>)
    ensures
        r@ == v@,
{
    let mut r: Vec<String> = Vec::new();
    let mut i: usize = 0;
    while i < v.len()
        invariant
            i <= v@.len(),
            r@ == v@.subrange(0, i as int),
        decreases v@.len() - i,
    {
        r.push(v[i].clone());
        i = i + 1;
    }
    assert(v@.subrange(0, v@.len() as int) == v@);
    r
}

/// Append copies of `src` to `dst`.
pub fn extend_strings(dst: &mut Vec<String>, src: &Vec<String>)
    ensures
        final(dst)@ == old(dst)@ + src@,
{
    let mut i: usize = 0;
    while i < src.len()
        invariant
            i <= src@.len(),
            dst@ == old(dst)@ + src@.subrange(0, i as int),
        decreases src@.len() - i,
    {
        dst.push(src[i].clone());
        i = i + 1;
    }
    assert(src@.subrange(0, src@.len() as int) == src@);
}

/// Copy a name-keyed table of strings.
pub fn copy_table(v: &Vec<(String, String)>) -> (r: Vec<(String, String)>)
    ensures
        r@ == v@,
{
    let mut r: Vec<(String, String)> = Vec::new();
    let mut i: usize = 0;
    while i < v.len()
        invariant
            i <= v@.len(),
            r@ == v@.subrange(0, i as int),
        decreases v@.len() - i,
    {
        r.push((v[i].0.clone(), v[i].1.clone()));
        i = i + 1;
    }
    assert(v@.subrange(0, v@.len() as int) == v@);
    r
}

/// Copy an optional string.
pub fn copy_opt(v: &Option<String>) -> (r: Option<String>)
    ensures
        r == *v,
{
    match v {
        Some(s) => Some(s.clone()),
        None => None,
    }
}

/// The default include directories: `["include"]`.
pub fn default_includes() -> (r: Vec<String>)
    ensures
        views(r@) == seq!["include"@],
{
    let mut r = Vec::new();
    r.push(owned("include"));
    assert(views(r@) =~= seq!["include"@]);
    r
}

/// The default build system: `"auto"`.
pub fn default_build_system() -> (r: String)
    ensures
        r@ == "auto"@,
{
    owned("auto")
}

/// The default C standard: `"c17"`.
pub fn default_c_standard() -> (r: String)
    ensures
        r@ == "c17"@,
{
    owned("c17")
}

/// The default optimization level: `"2"`.
pub fn default_opt_level() -> (r: String)
    ensures
        r@ == "2"@,
{
    owned("2")
}

/// Debug symbols are on by default.
pub fn default_debug() -> (r: bool)
    ensures
        r,
{
    true
}

/// Warnings are on by default.
pub fn default_warnings() -> (r: bool)
    ensures
        r,
{
    true
}

/// The default compiler preference: `"auto"`.
pub fn default_compiler() -> (r: String)
    ensures
        r@ == "auto"@,
{
    owned("auto")
}

/// The default library type: `"static"`.
pub fn default_lib_type() -> (r: String)
    ensures
        r@ == "static"@,
{
    owned("static")
}

impl BuildConfig {
    /// The build configuration every field's default describes.
    pub open spec fn is_default(&self) -> bool {
        &&& self.system@ == "auto"@
        &&& self.c_standard@ == "c17"@
        &&& self.cpp_standard is None
        &&& self.opt_level@ == "2"@
        &&& self.debug
        &&& self.warnings
        &&& self.extra_cflags@.len() == 0
        &&& self.extra_ldflags@.len() == 0
        &&& self.defines@.len() == 0
        &&& self.target_cflags@.len() == 0
        &&& self.target_ldflags@.len() == 0
        &&& self.platform@.len() == 0
        &&& self.sanitizers@.len() == 0
        &&& self.compiler@ == "auto"@
        &&& !self.lto
        &&& !self.pic
    }

    /// Its tables are in strictly increasing key order, each key once (the
    /// platform overrides' defines too).
    pub open spec fn wf(&self) -> bool {
        &&& sorted_keys(self.defines@)
        &&& sorted_keys(self.target_cflags@)
        &&& sorted_keys(self.target_ldflags@)
        &&& sorted_keys(self.platform@)
        &&& forall|i: int| 0 <= i < self.platform@.len() ==> sorted_keys(#[trigger] self.platform@[i].1.defines@)
    }
}

impl Default for BuildConfig {
    fn default() -> (r: Self)
        ensures
            r.is_default(),
            r.wf(),
    {
        BuildConfig {
            system: default_build_system(),
            c_standard: default_c_standard(),
            cpp_standard: None,
            opt_level: default_opt_level(),
            debug: default_debug(),
            warnings: default_warnings(),
            extra_cflags: Vec::new(),
            extra_ldflags: Vec::new(),
            defines: Vec::new(),
            target_cflags: Vec::new(),
            target_ldflags: Vec::new(),
            platform: Vec::new(),
            sanitizers: Vec::new(),
            compiler: default_compiler(),
            lto: false,
            pic: false,
        }
    }
}

impl Default for PlatformBuildConfig {
    fn default() -> (r: Self)
        ensures
            r.cflags@.len() == 0,
            r.ldflags@.len() == 0,
            r.defines@.len() == 0,
            sorted_keys(r.defines@),
    {
        PlatformBuildConfig { cflags: Vec::new(), ldflags: Vec::new(), defines: Vec::new() }
    }
}

impl Package {
    /// The default build configuration of a package.
    pub fn default_build() -> (r: BuildConfig)
        ensures
            r.is_default(),
            r.wf(),
    {
        BuildConfig::default()
    }
}

} // verus!
