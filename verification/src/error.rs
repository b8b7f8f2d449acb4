//! The library's errors. Errors that come from I/O, HTTP, TOML, JSON or
//! semver parsing carry the rendered text of the underlying error.

use vstd::prelude::*;

use crate::text::{concat, concat3};

verus! {

/// Everything that can go wrong in hut.
#[derive(Debug)]
pub enum HutError {
    Io(String),
    Http(String),
    Toml(String),
    TomlSer(String),
    Json(String),
    Semver(String),
    Config(String),
    PackageNotFound(String),
    VersionNotFound(String, String),
    Resolution(String),
    Build(String),
    Registry(String),
    NoCompiler,
    NotAProject,
    Other(String),
}

/// The rendered message of an error.
pub open spec fn error_text(e: HutError) -> Seq<char> {
    match e {
        HutError::Io(m) => "IO error: "@ + m@,
        HutError::Http(m) => "HTTP error: "@ + m@,
        HutError::Toml(m) => "TOML parse error: "@ + m@,
        HutError::TomlSer(m) => "TOML serialize error: "@ + m@,
        HutError::Json(m) => "JSON error: "@ + m@,
        HutError::Semver(m) => "Semver error: "@ + m@,
        HutError::Config(m) => "Config error: "@ + m@,
        HutError::PackageNotFound(m) => "Package not found: "@ + m@,
        HutError::VersionNotFound(n, v) => "Version not found: "@ + n@ + "@"@ + v@,
        HutError::Resolution(m) => "Dependency resolution failed: "@ + m@,
        HutError::Build(m) => "Build failed: "@ + m@,
        HutError::Registry(m) => "Registry error: "@ + m@,
        HutError::NoCompiler => "No C/C++ compiler found. Install gcc or clang."@,
        HutError::NotAProject => "Not a hut project (no hut.toml found)"@,
        HutError::Other(m) => m@,
    }
}

impl HutError {
    /// The error's message, as it is shown to the user.
    pub fn message(&self) -> (r: String)
        ensures
            r@ == error_text(*self),
    {
        match self {
            HutError::Io(m) => concat("IO error: ", m.as_str()),
            HutError::Http(m) => concat("HTTP error: ", m.as_str()),
            HutError::Toml(m) => concat("TOML parse error: ", m.as_str()),
            HutError::TomlSer(m) => concat("TOML serialize error: ", m.as_str()),
            HutError::Json(m) => concat("JSON error: ", m.as_str()),
            HutError::Semver(m) => concat("Semver error: ", m.as_str()),
            HutError::Config(m) => concat("Config error: ", m.as_str()),
            HutError::PackageNotFound(m) => concat("Package not found: ", m.as_str()),
            HutError::VersionNotFound(n, v) => {
                let a = concat3("Version not found: ", n.as_str(), "@");
                concat(a.as_str(), v.as_str())
            },
            HutError::Resolution(m) => concat("Dependency resolution failed: ", m.as_str()),
            HutError::Build(m) => concat("Build failed: ", m.as_str()),
            HutError::Registry(m) => concat("Registry error: ", m.as_str()),
            HutError::NoCompiler => String::from_str("No C/C++ compiler found. Install gcc or clang."),
            HutError::NotAProject => String::from_str("Not a hut project (no hut.toml found)"),
            HutError::Other(m) => m.clone(),
        }
    }
}

} // verus!
