//! Semantic versions and version requirements. Parsing, matching, ordering
//! and rendering are the `semver` crate's; this module gives them contracts
//! and builds the selection of the highest matching version on top.

use vstd::prelude::*;

use crate::text::decimal;

verus! {

#[verifier::external_type_specification]
#[verifier::external_body]
pub struct ExVersion(semver::Version);

#[verifier::external_type_specification]
#[verifier::external_body]
pub struct ExVersionReq(semver::VersionReq);

/// The parts of a semantic version: `major.minor.patch[-pre][+build]`.
pub struct VersionView {
    pub major: u64,
    pub minor: u64,
    pub patch: u64,
    pub pre: Seq<char>,
    pub build: Seq<char>,
}

/// What `semver::Version::parse` makes of a text (`None` when it refuses it).
pub uninterp spec fn spec_version_parse(text: Seq<char>) -> Option<VersionView>;

/// The sign (-1, 0 or 1) of `semver::Version`'s ordering of two versions.
pub uninterp spec fn spec_version_order(a: VersionView, b: VersionView) -> int;

/// `None` when `semver::VersionReq::parse` accepts a text, else the rendered
/// parse error.
pub uninterp spec fn spec_req_error(text: Seq<char>) -> Option<Seq<char>>;

/// Whether the requirement parsed from `req` matches a version
/// (`semver::VersionReq::matches`).
pub uninterp spec fn spec_req_matches(req: Seq<char>, v: VersionView) -> bool;

/// The text of a version, as `semver::Version`'s `Display` writes it.
pub open spec fn version_string(v: VersionView) -> Seq<char> {
    let core = decimal(v.major as nat) + seq!['.'] + decimal(v.minor as nat) + seq!['.'] + decimal(
        v.patch as nat,
    );
    let with_pre = if v.pre.len() == 0 { core } else { core + seq!['-'] + v.pre };
    if v.build.len() == 0 { with_pre } else { with_pre + seq!['+'] + v.build }
}

/// Lexicographic comparison of the numeric parts: -1, 0 or 1.
pub open spec fn triple_order(a: VersionView, b: VersionView) -> int {
    if a.major != b.major {
        if a.major < b.major { -1 } else { 1 }
    } else if a.minor != b.minor {
        if a.minor < b.minor { -1 } else { 1 }
    } else if a.patch != b.patch {
        if a.patch < b.patch { -1 } else { 1 }
    } else {
        0
    }
}

/// A parsed semantic version.
pub struct SemVer {
    major: u64,
    minor: u64,
    patch: u64,
    pre: String,
    build: String,
    inner: semver::Version,
}

impl View for SemVer {
    type V = VersionView;

    closed spec fn view(&self) -> VersionView {
        VersionView {
            major: self.major,
            minor: self.minor,
            patch: self.patch,
            pre: self.pre@,
            build: self.build@,
        }
    }
}

/// A parsed version requirement, viewed as the text it was parsed from.
pub struct Requirement {
    text: String,
    req: semver::VersionReq,
}

impl View for Requirement {
    type V = Seq<char>;

    closed spec fn view(&self) -> Seq<char> {
        self.text@
    }
}

impl SemVer {
    /// `semver::Version::parse`; its outcome is named `spec_version_parse`.
    #[verifier::external_body]
    pub(crate) fn parse(text: &str) -> (r: Option<SemVer>)
        ensures
            match r {
                Some(v) => spec_version_parse(text@) == Some(v@),
                None => spec_version_parse(text@) is None,
            },
    {
        match semver::Version::parse(text) {
            Ok(v) => Some(SemVer {
                major: v.major,
                minor: v.minor,
                patch: v.patch,
                pre: v.pre.as_str().to_string(),
                build: v.build.as_str().to_string(),
                inner: v,
            }),
            Err(_) => None,
        }
    }

    /// The version's text (`Display` of `semver::Version`): the three numbers
    /// joined by dots, then `-pre` and `+build` when present.
    #[verifier::external_body]
    pub(crate) fn to_text(&self) -> (r: String)
        ensures
            r@ == version_string(self@),
    {
        self.inner.to_string()
    }

    /// The ordering of `semver::Version` (derived: by major, minor, patch,
    /// then pre-release and build parts) as -1, 0 or 1. Its value is named
    /// `spec_version_order`; of it the contract states that versions whose
    /// numeric parts differ are ordered by those parts, that equal versions
    /// are equal in the order, and that swapping the arguments flips the sign.
    /// As `Ord` is a total order, it also states that the order is transitive
    /// against any parsed version `z`: `z <= other < self` gives `z < self`,
    /// `z <= self < other` gives `z < other`, and when `self` and `other` are equal in the order, `z` compares with
    /// both alike.
    #[verifier::external_body]
    pub(crate) fn order(&self, other: &SemVer) -> (r: i8)
        ensures
            r == spec_version_order(self@, other@),
            -1 <= r <= 1,
            triple_order(self@, other@) != 0 ==> r == triple_order(self@, other@),
            self@ == other@ ==> r == 0,
            r == -spec_version_order(other@, self@),
            forall|t: Seq<char>|
                #![trigger spec_version_parse(t)]
                spec_version_parse(t) is Some && r > 0 && spec_version_order(spec_version_parse(t)->0, other@) <= 0
                    ==> spec_version_order(spec_version_parse(t)->0, self@) < 0,
            forall|t: Seq<char>|
                #![trigger spec_version_parse(t)]
                spec_version_parse(t) is Some && r < 0 && spec_version_order(spec_version_parse(t)->0, self@) <= 0
                    ==> spec_version_order(spec_version_parse(t)->0, other@) < 0,
            forall|t: Seq<char>|
                #![trigger spec_version_parse(t)]
                spec_version_parse(t) is Some && r == 0 ==> spec_version_order(spec_version_parse(t)->0, self@)
                    == spec_version_order(spec_version_parse(t)->0, other@),
    {
        match self.inner.cmp(&other.inner) {
            std::cmp::Ordering::Less => -1,
            std::cmp::Ordering::Equal => 0,
            std::cmp::Ordering::Greater => 1,
        }
    }
}

impl Requirement {
    /// `semver::VersionReq::parse`: `Ok` when the text parses, else the
    /// rendered parse error; both named by `spec_req_error`.
    #[verifier::external_body]
    pub(crate) fn parse(text: &str) -> (r: Result<Requirement, String>)
        ensures
            match r {
                Ok(q) => spec_req_error(text@) is None && q@ == text@,
                Err(m) => spec_req_error(text@) == Some(m@),
            },
    {
        match semver::VersionReq::parse(text) {
            Ok(req) => Ok(Requirement { text: text.to_string(), req }),
            Err(e) => Err(e.to_string()),
        }
    }

    /// `semver::VersionReq::matches`; named by `spec_req_matches`.
    #[verifier::external_body]
    pub(crate) fn matches(&self, v: &SemVer) -> (r: bool)
        ensures
            r == spec_req_matches(self@, v@),
    {
        self.req.matches(&v.inner)
    }
}

} // verus!
