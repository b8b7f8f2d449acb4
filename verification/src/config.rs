//! The project manifest (`hut.toml`).

use vstd::prelude::*;

use crate::package::{BuildConfig, default_includes};
use crate::table::sorted_keys;
use crate::text::{owned, views};

verus! {

/// hut.toml — project manifest.
#[derive(Clone, Debug)]
pub struct HutConfig {
    pub package: PackageMeta,
    /// Dependencies: name and version constraint, in name order.
    pub dependencies: Vec<(String, String)>,
    pub build_dependencies: Vec<(String, String)>,
    pub test_dependencies: Vec<(String, String)>,
    pub build: BuildConfig,
    /// Scripts: name and command, in name order.
    pub scripts: Vec<(String, String)>,
    /// Workspace members.
    pub workspace: WorkspaceConfig,
}

/// The `[package]` section of a manifest.
#[derive(Clone, Debug)]
pub struct PackageMeta {
    pub name: String,
    pub version: String,
    pub description: Option<String>,
    pub authors: Vec<String>,
    pub license: Option<String>,
    /// "c" or "c++".
    pub language: String,
    pub repository: Option<String>,
    pub homepage: Option<String>,
    pub sources: Vec<String>,
    pub includes: Vec<String>,
}

/// The `[workspace]` section of a manifest.
#[derive(Clone, Debug)]
pub struct WorkspaceConfig {
    pub members: Vec<String>,
}

impl Default for WorkspaceConfig {
    fn default() -> (r: Self)
        ensures
            r.members@.len() == 0,
    {
        WorkspaceConfig { members: Vec::new() }
    }
}

/// The default language: `"c"`.
pub fn default_lang() -> (r: String)
    ensures
        r@ == "c"@,
{
    owned("c")
}

/// The manifest of a new project called `name`: version 0.1.0, MIT
/// license, language C, include directory `include`, default build
/// settings, and nothing else.
pub open spec fn is_template(r: HutConfig, name: Seq<char>) -> bool {
    template_base(r, name) && r.dependencies@.len() == 0
}

/// The manifest of a new project called `name`, whatever its regular
/// dependencies.
pub open spec fn template_base(r: HutConfig, name: Seq<char>) -> bool {
    &&& r.package.name@ == name
    &&& r.package.version@ == "0.1.0"@
    &&& r.package.description is None
    &&& r.package.authors@.len() == 0
    &&& r.package.license matches Some(l) && l@ == "MIT"@
    &&& r.package.language@ == "c"@
    &&& r.package.repository is None
    &&& r.package.homepage is None
    &&& r.package.sources@.len() == 0
    &&& views(r.package.includes@) == seq!["include"@]
    &&& r.build_dependencies@.len() == 0
    &&& r.test_dependencies@.len() == 0
    &&& r.build.is_default()
    &&& r.scripts@.len() == 0
    &&& r.workspace.members@.len() == 0
}

impl HutConfig {
    /// Its tables (dependencies, scripts and those of the build
    /// configuration) are in strictly increasing key order, each key once.
    pub open spec fn wf(&self) -> bool {
        &&& sorted_keys(self.dependencies@)
        &&& sorted_keys(self.build_dependencies@)
        &&& sorted_keys(self.test_dependencies@)
        &&& sorted_keys(self.scripts@)
        &&& self.build.wf()
    }

    /// All dependency tables in the order they are walked: regular, build, test.
    pub open spec fn all_dependencies(&self) -> Seq<(String, String)> {
        self.dependencies@ + self.build_dependencies@ + self.test_dependencies@
    }

    /// The manifest `hut init` writes for a new project called `name`.
    pub fn default_template(name: &str) -> (r: Self)
        ensures
            is_template(r, name@),
            r.wf(),
    {
        HutConfig {
            package: PackageMeta {
                name: owned(name),
                version: owned("0.1.0"),
                description: None,
                authors: Vec::new(),
                license: Some(owned("MIT")),
                language: owned("c"),
                repository: None,
                homepage: None,
                sources: Vec::new(),
                includes: default_includes(),
            },
            dependencies: Vec::new(),
            build_dependencies: Vec::new(),
            test_dependencies: Vec::new(),
            build: BuildConfig::default(),
            scripts: Vec::new(),
            workspace: WorkspaceConfig::default(),
        }
    }
}

} // verus!
