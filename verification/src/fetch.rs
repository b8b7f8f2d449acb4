//! Fetching packages: cache locations, the GitHub tarball fallback URL, the
//! integrity hash of a fetched tree, turning a fetched manifest into a
//! package, and the compile-and-archive plan of packages built from their
//! sources. Cloning, downloading, walking directories and running the
//! compiler is the caller's part.

use vstd::prelude::*;

use sha2::Digest;

use crate::builder::{Command, opt_view};
use crate::config::HutConfig;
use crate::error::HutError;
use crate::package::{Package, copy_strings};
use crate::text::{
    chars_of, concat, concat3, extension, extension_chars, file_name, file_name_chars, has_prefix, has_suffix,
    join_path, last_index_of, path_join, rfind_char, skip_chars, string_of, strip_trailing_slash_chars,
    strip_trailing_slashes, take_chars, views,
};

verus! {

// ───────────────────────────── cache layout ─────────────────────────────

/// `<cache>/<name>/<version>`.
pub open spec fn package_dir_path(cache: Seq<char>, name: Seq<char>, version: Seq<char>) -> Seq<char> {
    path_join(path_join(cache, name), version)
}

/// The cache directory of one package version.
pub fn package_cache_dir(cache_dir: &str, name: &str, version: &str) -> (r: String)
    ensures
        r@ == package_dir_path(cache_dir@, name@, version@),
{
    let a = join_path(cache_dir, name);
    join_path(a.as_str(), version)
}

/// The cache metadata file of one package version.
pub fn cache_meta_path(cache_dir: &str, name: &str, version: &str) -> (r: String)
    ensures
        r@ == path_join(package_dir_path(cache_dir@, name@, version@), ".hut-cache.json"@),
{
    let d = package_cache_dir(cache_dir, name, version);
    join_path(d.as_str(), ".hut-cache.json")
}

/// Whether a dependency counts as installed: its `latest` cache directory
/// holds a manifest, or its cache directory exists at all.
pub fn check_installed(name: &str, manifest_exists: bool, dir_exists: bool) -> (r: Result<(), HutError>)
    ensures
        r is Ok <==> (manifest_exists || dir_exists),
        r matches Err(HutError::Other(m)) ==> m@ == "Package "@ + name@ + " not found in cache. Run `hut install` first."@,
        r is Err ==> r matches Err(HutError::Other(_)),
{
    if manifest_exists || dir_exists {
        Ok(())
    } else {
        Err(HutError::Other(concat3("Package ", name, " not found in cache. Run `hut install` first.")))
    }
}

// ───────────────────────────── retries ─────────────────────────────

/// How many times a fetch is attempted.
pub const MAX_RETRIES: u32 = 3;

/// The pause after failed attempt `attempt` (counted from 1), in
/// milliseconds: 500, doubling with each attempt.
pub open spec fn retry_delay(attempt: nat) -> nat
    decreases attempt,
{
    if attempt <= 1 {
        500
    } else {
        2 * retry_delay((attempt - 1) as nat)
    }
}

/// The pause after a failed attempt (see `retry_delay`).
pub fn retry_delay_ms(attempt: u32) -> (r: u64)
    requires
        1 <= attempt <= MAX_RETRIES,
    ensures
        r == retry_delay(attempt as nat),
{
    let mut d: u64 = 500;
    let mut k: u32 = 1;
    while k < attempt
        invariant
            1 <= k <= attempt <= 3,
            d == retry_delay(k as nat),
            k == 1 ==> d == 500,
            k == 2 ==> d == 1000,
            k == 3 ==> d == 2000,
        decreases attempt - k,
    {
        d = d * 2;
        k = k + 1;
    }
    d
}

/// What follows a failed attempt.
#[derive(Debug)]
pub enum RetryStep {
    /// Wait this many milliseconds, then make the next attempt.
    Retry(u64),
    /// No attempts are left: report the last error.
    GiveUp,
}

/// The step after failed attempt `attempt`, as a value: `Some(delay)` to
/// wait and try again, `None` to give up.
pub open spec fn step_after(attempt: nat) -> Option<nat> {
    if attempt < MAX_RETRIES {
        Some(retry_delay(attempt))
    } else {
        None
    }
}

/// The step after failed attempt `attempt` (counted from 1): retry after
/// `retry_delay(attempt)` while attempts are left, else give up.
pub fn after_failure(attempt: u32) -> (r: RetryStep)
    requires
        1 <= attempt <= MAX_RETRIES,
    ensures
        attempt < MAX_RETRIES ==> (r matches RetryStep::Retry(d) && d == retry_delay(attempt as nat)),
        attempt == MAX_RETRIES ==> r is GiveUp,
        step_after(attempt as nat) == (match r {
            RetryStep::Retry(d) => Some(d as nat),
            RetryStep::GiveUp => None,
        }),
{
    if attempt < MAX_RETRIES {
        RetryStep::Retry(retry_delay_ms(attempt))
    } else {
        RetryStep::GiveUp
    }
}

/// How many calls a fetch makes when attempt `k` (counted from 1) is about
/// to be made: `ok[i]` tells whether call `i + 1` succeeds. A success ends
/// the run; a failure goes on as `step_after` decides.
pub open spec fn retry_calls(ok: Seq<bool>, k: nat) -> nat
    decreases MAX_RETRIES - k,
{
    if 1 <= k <= ok.len() && ok[k - 1] {
        k
    } else {
        match step_after(k) {
            Some(_) => if k < MAX_RETRIES { retry_calls(ok, k + 1) } else { k },
            None => k,
        }
    }
}

/// Attempts driven by `after_failure` from the first: the calls stop at
/// the first success among the first `MAX_RETRIES`, whose value is
/// returned, or after the `MAX_RETRIES`-th call, whose error is returned.
pub proof fn law_retry_stops(ok: Seq<bool>)
    requires
        ok.len() >= MAX_RETRIES,
    ensures
        1 <= retry_calls(ok, 1) <= MAX_RETRIES,
        forall|i: int| 0 <= i < retry_calls(ok, 1) - 1 ==> !#[trigger] ok[i],
        ok[retry_calls(ok, 1) - 1] || retry_calls(ok, 1) == MAX_RETRIES,
        (forall|i: int| 0 <= i < MAX_RETRIES ==> !#[trigger] ok[i]) ==> retry_calls(ok, 1) == MAX_RETRIES,
{
    reveal_with_fuel(retry_calls, 4);
    reveal_with_fuel(retry_delay, 3);
    if !ok[0] && !ok[1] {
        assert(retry_calls(ok, 3) == 3);
    }
}

// ───────────────────────────── GitHub tarballs ─────────────────────────────

/// What `regex::Regex::new(pattern)` and then `captures(text)` give: `None`
/// when the pattern does not compile or does not match, else each group's
/// text (group 0 is the whole match).
pub uninterp spec fn spec_regex_captures(pattern: Seq<char>, text: Seq<char>) -> Option<Seq<Option<Seq<char>>>>;

/// The texts of a list of optional strings.
pub open spec fn opt_views(v: Seq<Option<String>>) -> Seq<Option<Seq<char>>> {
    v.map_values(|o: Option<String>| opt_view(o))
}

/// The captures of a regular expression on a text (`regex::Regex::new`,
/// `Regex::captures`); named by `spec_regex_captures`.
#[verifier::external_body]
fn regex_captures(pattern: &str, text: &str) -> (r: Option<Vec<Option<String>>>)
    ensures
        match r {
            Some(v) => spec_regex_captures(pattern@, text@) == Some(opt_views(v@)),
            None => spec_regex_captures(pattern@, text@) is None,
        },
{
    let re = regex::Regex::new(pattern).ok()?;
    let caps = re.captures(text)?;
    Some(caps.iter().map(|m| m.map(|m| m.as_str().to_string())).collect())
}

/// The pattern of a GitHub repository URL: owner and repository name.
pub open spec fn github_pattern() -> Seq<char> {
    "github\\.com[:/]([^/]+)/([^/]+)"@
}

/// Drop every trailing occurrence of `p`.
pub open spec fn trim_end_all(s: Seq<char>, p: Seq<char>) -> Seq<char>
    decreases s.len(),
{
    if p.len() > 0 && has_suffix(s, p) {
        trim_end_all(s.take(s.len() - p.len()), p)
    } else {
        s
    }
}

/// A repository URL without trailing `/` and `.git`.
pub open spec fn clean_repo_url(u: Seq<char>) -> Seq<char> {
    trim_end_all(trim_end_all(u, seq!['/']), ".git"@)
}

/// The tarball URL of a tag, given the owner and repository captured from a
/// GitHub URL; a leading `v` of the version is dropped.
pub open spec fn tarball_url(caps: Option<Seq<Option<Seq<char>>>>, version: Seq<char>) -> Option<Seq<char>> {
    match caps {
        None => None,
        Some(c) => if c.len() > 2 && c[1] is Some && c[2] is Some {
            let tag = if version.len() > 0 && version[0] == 'v' { version.drop_first() } else { version };
            Some("https://api.github.com/repos/"@ + c[1]->0 + "/"@ + c[2]->0 + "/tarball/refs/tags/"@ + tag)
        } else {
            None
        },
    }
}

/// The tarball URL from the captures of `github_pattern` (see `tarball_url`).
pub fn tarball_url_from(caps: Option<Vec<Option<String>>>, version: &str) -> (r: Option<String>)
    ensures
        opt_view(r) == tarball_url(
            match caps {
                Some(v) => Some(opt_views(v@)),
                None => None,
            },
            version@,
        ),
{
    match caps {
        None => None,
        Some(c) => {
            if c.len() > 2 {
                let ghost cv = opt_views(c@);
                assert(cv[1] == opt_view(c@[1]));
                assert(cv[2] == opt_view(c@[2]));
                match (&c[1], &c[2]) {
                    (Some(owner), Some(repo)) => {
                        let v = chars_of(version);
                        let tag = if v.len() > 0 && v[0] == 'v' { skip_chars(&v, 1) } else { v };
                        let tag_s = string_of(&tag);
                        let a = concat3("https://api.github.com/repos/", owner.as_str(), "/");
                        let b = concat3(a.as_str(), repo.as_str(), "/tarball/refs/tags/");
                        Some(concat(b.as_str(), tag_s.as_str()))
                    },
                    _ => None,
                }
            } else {
                None
            }
        },
    }
}

/// Drop every trailing occurrence of a non-empty pattern.
fn trim_end_all_chars(s: &Vec<char>, p: &Vec<char>) -> (r: Vec<char>)
    requires
        p@.len() > 0,
    ensures
        r@ == trim_end_all(s@, p@),
{
    let mut n: usize = s.len();
    assert(s@.take(n as int) == s@);
    loop
        invariant
            n <= s@.len(),
            p@.len() > 0,
            trim_end_all(s@, p@) == trim_end_all(s@.take(n as int), p@),
        decreases n,
    {
        let cur = take_chars(s, n);
        if crate::text::ends_with(&cur, p) {
            assert(cur@.take(cur@.len() - p@.len()) == s@.take(n - p@.len()));
            n = n - p.len();
        } else {
            return cur;
        }
    }
}

/// The GitHub tarball URL of a version of a repository, when the URL is a
/// GitHub one.
pub fn github_tarball_url(repo_url: &str, version: &str) -> (r: Option<String>)
    ensures
        opt_view(r) == tarball_url(spec_regex_captures(github_pattern(), clean_repo_url(repo_url@)), version@),
{
    let mut slash: Vec<char> = Vec::new();
    slash.push('/');
    let git = chars_of(".git");
    proof {
        reveal_strlit(".git");
    }
    let a = trim_end_all_chars(&chars_of(repo_url), &slash);
    assert(slash@ =~= seq!['/']);
    let clean = string_of(&trim_end_all_chars(&a, &git));
    let caps = regex_captures("github\\.com[:/]([^/]+)/([^/]+)", clean.as_str());
    tarball_url_from(caps, version)
}

// ───────────────────────────── integrity ─────────────────────────────

/// The SHA-256 digest of some bytes (`sha2::Sha256::digest`).
pub uninterp spec fn spec_sha256(data: Seq<u8>) -> Seq<u8>;

/// The SHA-256 digest of some bytes; named by `spec_sha256`, 32 bytes long.
#[verifier::external_body]
fn sha256(data: &Vec<u8>) -> (r: Vec<u8>)
    ensures
        r@ == spec_sha256(data@),
        r@.len() == 32,
{
    <sha2::Sha256 as Digest>::digest(data.as_slice()).to_vec()
}

/// A lowercase hexadecimal digit.
pub open spec fn hex_digit(d: u8) -> char {
    if d < 10 { ((d + 48) as u8) as char } else { ((d + 87) as u8) as char }
}

/// Lowercase hexadecimal text of bytes, two digits per byte.
pub open spec fn hex_text(b: Seq<u8>) -> Seq<char>
    decreases b.len(),
{
    if b.len() == 0 {
        Seq::empty()
    } else {
        hex_text(b.drop_last()) + seq![hex_digit(b.last() / 16), hex_digit(b.last() % 16)]
    }
}

/// `hex::encode`: each byte as two lowercase hexadecimal digits, high
/// nibble first.
#[verifier::external_body]
fn hex_encode(b: &Vec<u8>) -> (r: String)
    ensures
        r@ == hex_text(b@),
{
    hex::encode(b)
}

/// Files that count for a package's integrity: all but the cache metadata
/// and build outputs (`.a`, `.o`, `.so`, `.dylib`).
pub open spec fn hashed_path(p: Seq<char>) -> bool {
    file_name(p) != Some(".hut-cache.json"@) && !(match extension(p) {
        Some(e) => e == "a"@ || e == "o"@ || e == "so"@ || e == "dylib"@,
        None => false,
    })
}

/// Whether a file counts for a package's integrity (see `hashed_path`).
pub fn is_hashed_file(path: &str) -> (r: bool)
    ensures
        r == hashed_path(path@),
{
    let p = chars_of(path);
    let meta = match file_name_chars(&p) {
        Some(n) => crate::text::eq_lit(&n, ".hut-cache.json"),
        None => false,
    };
    let output = match extension_chars(&p) {
        Some(e) => crate::text::eq_lit(&e, "a") || crate::text::eq_lit(&e, "o") || crate::text::eq_lit(&e, "so")
            || crate::text::eq_lit(&e, "dylib"),
        None => false,
    };
    !meta && !output
}

/// The bytes hashed for a package: for each file, in order, its path
/// relative to the package (UTF-8), a zero byte, and its content.
pub open spec fn integrity_input(files: Seq<(String, Vec<u8>)>) -> Seq<u8>
    decreases files.len(),
{
    if files.len() == 0 {
        Seq::empty()
    } else {
        integrity_input(files.drop_last()) + vstd::utf8::encode_utf8(files.last().0@) + seq![0u8]
            + files.last().1@
    }
}

/// The integrity hash of a package: the lowercase hex SHA-256 of its files
/// (see `integrity_input`); `files` are the hashed files in walk order.
pub fn integrity_hash(files: &Vec<(String, Vec<u8>)>) -> (r: String)
    ensures
        r@ == hex_text(spec_sha256(integrity_input(files@))),
{
    let mut data: Vec<u8> = Vec::new();
    let mut i: usize = 0;
    while i < files.len()
        invariant
            i <= files@.len(),
            data@ == integrity_input(files@.take(i as int)),
        decreases files@.len() - i,
    {
        let ghost t = files@.take(i + 1);
        assert(t.drop_last() == files@.take(i as int));
        assert(t.last() == files@[i as int]);
        let bytes = files[i].0.as_str().as_bytes();
        append_bytes(&mut data, bytes);
        data.push(0u8);
        append_bytes(&mut data, files[i].1.as_slice());
        i = i + 1;
    }
    assert(files@.take(files@.len() as int) == files@);
    let digest = sha256(&data);
    hex_encode(&digest)
}

/// Append bytes.
fn append_bytes(dst: &mut Vec<u8>, src: &[u8])
    ensures
        final(dst)@ == old(dst)@ + src@,
{
    let mut i: usize = 0;
    while i < src.len()
        invariant
            i <= src@.len(),
            dst@ == old(dst)@ + src@.take(i as int),
        decreases src@.len() - i,
    {
        dst.push(src[i]);
        assert(src@.take(i + 1) == src@.take(i as int).push(src@[i as int]));
        i = i + 1;
    }
    assert(src@.take(src@.len() as int) == src@);
}

// ───────────────────────────── manifests ─────────────────────────────

/// The package a fetched manifest describes, with the repository it came
/// from and no targets or flags of its own.
pub fn cfg_to_package(cfg: HutConfig, repo_url: &str) -> (r: Package)
    ensures
        r.name == cfg.package.name,
        r.version == cfg.package.version,
        r.description == cfg.package.description,
        r.authors == cfg.package.authors,
        r.license == cfg.package.license,
        r.repository matches Some(u) && u@ == repo_url@,
        r.homepage == cfg.package.homepage,
        r.sources == cfg.package.sources,
        r.includes == cfg.package.includes,
        r.dependencies == cfg.dependencies,
        r.build_dependencies == cfg.build_dependencies,
        r.test_dependencies == cfg.test_dependencies,
        r.build == cfg.build,
        r.scripts == cfg.scripts,
        r.libraries@.len() == 0,
        r.executables@.len() == 0,
        r.tests@.len() == 0,
        r.cflags@.len() == 0,
        r.ldflags@.len() == 0,
{
    Package {
        name: cfg.package.name,
        version: cfg.package.version,
        description: cfg.package.description,
        authors: cfg.package.authors,
        license: cfg.package.license,
        repository: Some(String::from_str(repo_url)),
        homepage: cfg.package.homepage,
        sources: cfg.package.sources,
        includes: cfg.package.includes,
        dependencies: cfg.dependencies,
        build_dependencies: cfg.build_dependencies,
        test_dependencies: cfg.test_dependencies,
        build: cfg.build,
        scripts: cfg.scripts,
        libraries: Vec::new(),
        executables: Vec::new(),
        tests: Vec::new(),
        cflags: Vec::new(),
        ldflags: Vec::new(),
    }
}

// ───────────────────────────── building from sources ─────────────────────────────

/// Append the matches of a glob pattern, skipping paths already listed (as
/// paths compare, see `same_path`).
pub fn add_glob_matches(files: &mut Vec<String>, matches: &Vec<String>)
    ensures
        views(final(files)@) == crate::headers::add_all(views(old(files)@), views(matches@)),
{
    let mut i: usize = 0;
    while i < matches.len()
        invariant
            i <= matches@.len(),
            views(files@) == crate::headers::add_all(views(old(files)@), views(matches@).take(i as int)),
        decreases matches@.len() - i,
    {
        let ghost t = views(matches@).take(i + 1);
        assert(t.drop_last() == views(matches@).take(i as int));
        assert(t.last() == matches@[i as int]@);
        let seen = crate::text::path_listed(files, matches[i].as_str());
        if !seen {
            let ghost before = files@;
            files.push(matches[i].clone());
            assert(views(files@) =~= views(before).push(matches@[i as int]@));
        }
        i = i + 1;
    }
    assert(views(matches@).take(matches@.len() as int) == views(matches@));
}

/// The object file name of a source: a `.c`, `.cpp`, `.cc` or `.cxx`
/// suffix (the first of these that matches) replaced by `.o`, else `.o`
/// appended.
pub open spec fn auto_object_name(f: Seq<char>) -> Seq<char> {
    if has_suffix(f, ".c"@) {
        f.take(f.len() - 2) + ".o"@
    } else if has_suffix(f, ".cpp"@) {
        f.take(f.len() - 4) + ".o"@
    } else if has_suffix(f, ".cc"@) {
        f.take(f.len() - 3) + ".o"@
    } else if has_suffix(f, ".cxx"@) {
        f.take(f.len() - 4) + ".o"@
    } else {
        f + ".o"@
    }
}

/// A source compiled as C++ when building from sources.
pub open spec fn auto_is_cpp(p: Seq<char>) -> bool {
    match extension(p) {
        Some(e) => e == "cpp"@ || e == "cc"@ || e == "cxx"@ || e == "c++"@,
        None => false,
    }
}

/// `-I<pkg>/<inc>` for each include directory.
pub open spec fn include_args(pkg: Seq<char>, incs: Seq<Seq<char>>) -> Seq<Seq<char>> {
    incs.map_values(|i: Seq<char>| "-I"@ + path_join(pkg, i))
}

/// `-D<def>` for each define.
pub open spec fn define_args(defs: Seq<Seq<char>>) -> Seq<Seq<char>> {
    defs.map_values(|d: Seq<char>| "-D"@ + d)
}

/// `<pkg>/.hut-build`, where objects go.
pub open spec fn auto_object_dir(pkg: Seq<char>) -> Seq<char> {
    path_join(pkg, ".hut-build"@)
}

/// The object file of a source.
pub open spec fn auto_object_path(pkg: Seq<char>, src: Seq<char>) -> Seq<char> {
    let f = match file_name(src) {
        Some(n) => n,
        None => Seq::empty(),
    };
    path_join(auto_object_dir(pkg), auto_object_name(f))
}

/// How a package is built from its sources.
#[derive(Debug)]
pub struct AutoBuild {
    /// Where objects go (removed afterwards).
    pub object_dir: String,
    /// One compilation per source, in order.
    pub compiles: Vec<Command>,
    /// The objects, in order.
    pub objects: Vec<String>,
    /// The static library written: `<pkg>/lib<name>.a`.
    pub library: String,
    /// The archiver command.
    pub archive: Command,
}

/// The message when no source matched.
pub open spec fn no_sources_text(name: Seq<char>, patterns: Seq<Seq<char>>) -> Seq<char> {
    "No source files matched for "@ + name + ". Checked patterns: "@ + crate::text::join_with(patterns, ", "@)
}

/// The compile command of one source.
fn auto_compile(pkg: &str, src: &String, inc: &Vec<String>, defs: &Vec<String>, cflags: &Vec<String>) -> (r: (
    Command,
    String,
))
    ensures
        r.1@ == auto_object_path(pkg@, src@),
        r.0.program@ == (if auto_is_cpp(src@) { "c++"@ } else { "cc"@ }),
        views(r.0.args@) == seq!["-c"@, "-fPIC"@] + views(inc@) + views(defs@) + views(cflags@) + seq![
            src@,
            "-o"@,
            auto_object_path(pkg@, src@),
        ],
{
    let sc = chars_of(src.as_str());
    let fname = match file_name_chars(&sc) {
        Some(n) => n,
        None => Vec::new(),
    };
    let fs = string_of(&fname);
    let obj_name = object_name(fs.as_str());
    let od = join_path(pkg, ".hut-build");
    let obj = join_path(od.as_str(), obj_name.as_str());
    let is_cpp = match extension_chars(&sc) {
        Some(e) => crate::text::eq_lit(&e, "cpp") || crate::text::eq_lit(&e, "cc") || crate::text::eq_lit(&e, "cxx")
            || crate::text::eq_lit(&e, "c++"),
        None => false,
    };
    let program = String::from_str(if is_cpp { "c++" } else { "cc" });
    let mut args: Vec<String> = Vec::new();
    args.push(String::from_str("-c"));
    args.push(String::from_str("-fPIC"));
    assert(views(args@) =~= seq!["-c"@, "-fPIC"@]);
    extend_views(&mut args, inc);
    extend_views(&mut args, defs);
    extend_views(&mut args, cflags);
    let ghost before = views(args@);
    args.push(src.clone());
    args.push(String::from_str("-o"));
    args.push(obj.clone());
    assert(views(args@) =~= before + seq![src@, "-o"@, obj@]);
    (Command { program, args }, obj)
}

/// The object file name of a source file name (see `auto_object_name`).
fn object_name(f: &str) -> (r: String)
    ensures
        r@ == auto_object_name(f@),
{
    let c = chars_of(f);
    let exts = [".c", ".cpp", ".cc", ".cxx"];
    proof {
        reveal_strlit(".c");
        reveal_strlit(".cpp");
        reveal_strlit(".cc");
        reveal_strlit(".cxx");
    }
    if crate::text::str_ends_with(f, ".c") {
        concat(string_of(&take_chars(&c, c.len() - 2)).as_str(), ".o")
    } else if crate::text::str_ends_with(f, ".cpp") {
        concat(string_of(&take_chars(&c, c.len() - 4)).as_str(), ".o")
    } else if crate::text::str_ends_with(f, ".cc") {
        concat(string_of(&take_chars(&c, c.len() - 3)).as_str(), ".o")
    } else if crate::text::str_ends_with(f, ".cxx") {
        concat(string_of(&take_chars(&c, c.len() - 4)).as_str(), ".o")
    } else {
        let _ = exts;
        concat(f, ".o")
    }
}

/// Append copies of strings.
fn extend_views(dst: &mut Vec<String>, src: &Vec<String>)
    ensures
        views(final(dst)@) == views(old(dst)@) + views(src@),
{
    let mut i: usize = 0;
    while i < src.len()
        invariant
            i <= src@.len(),
            views(dst@) == views(old(dst)@) + views(src@.take(i as int)),
        decreases src@.len() - i,
    {
        let ghost before = dst@;
        dst.push(src[i].clone());
        assert(views(dst@) =~= views(before).push(src@[i as int]@));
        assert(views(src@.take(i + 1)) =~= views(src@.take(i as int)).push(src@[i as int]@));
        i = i + 1;
    }
    assert(src@.take(src@.len() as int) == src@);
}

/// How to build package `name` at `pkg_path` from the source files matched
/// by its patterns: compile each (C++ sources with `c++`, others with
/// `cc`, position-independent, with the include, define and compiler
/// flags), then archive the objects into `lib<name>.a` with `ar rcs`.
pub fn auto_build_plan(
    name: &str,
    pkg_path: &str,
    patterns: &Vec<String>,
    sources: &Vec<String>,
    includes: &Vec<String>,
    defines: &Vec<String>,
    cflags: &Vec<String>,
) -> (r: Result<AutoBuild, HutError>)
    ensures
        sources@.len() == 0 <==> r is Err,
        r matches Err(HutError::Other(m)) ==> m@ == no_sources_text(name@, views(patterns@)),
        r is Err ==> r matches Err(HutError::Other(_)),
        r matches Ok(b) ==> {
            &&& b.object_dir@ == auto_object_dir(pkg_path@)
            &&& b.compiles@.len() == sources@.len()
            &&& b.objects@.len() == sources@.len()
            &&& forall|i: int| 0 <= i < sources@.len() ==> {
                &&& #[trigger] b.objects@[i]@ == auto_object_path(pkg_path@, sources@[i]@)
                &&& b.compiles@[i].program@ == (if auto_is_cpp(sources@[i]@) { "c++"@ } else { "cc"@ })
                &&& views(b.compiles@[i].args@) == seq!["-c"@, "-fPIC"@] + include_args(pkg_path@, views(includes@))
                    + define_args(views(defines@)) + views(cflags@) + seq![
                    sources@[i]@,
                    "-o"@,
                    auto_object_path(pkg_path@, sources@[i]@),
                ]
            }
            &&& b.library@ == path_join(pkg_path@, "lib"@ + name@ + ".a"@)
            &&& b.archive.program@ == "ar"@
            &&& views(b.archive.args@) == seq!["rcs"@, b.library@] + views(b.objects@)
        },
{
    if sources.len() == 0 {
        let list = crate::project::join_strings(patterns, ", ");
        let a = concat3("No source files matched for ", name, ". Checked patterns: ");
        return Err(HutError::Other(concat(a.as_str(), list.as_str())));
    }
    let mut inc: Vec<String> = Vec::new();
    let mut k: usize = 0;
    while k < includes.len()
        invariant
            k <= includes@.len(),
            views(inc@) == include_args(pkg_path@, views(includes@).take(k as int)),
        decreases includes@.len() - k,
    {
        let ghost before = inc@;
        inc.push(concat("-I", join_path(pkg_path, includes[k].as_str()).as_str()));
        assert(views(inc@) =~= views(before).push("-I"@ + path_join(pkg_path@, includes@[k as int]@)));
        assert(include_args(pkg_path@, views(includes@).take(k + 1)) =~= include_args(
            pkg_path@,
            views(includes@).take(k as int),
        ).push("-I"@ + path_join(pkg_path@, includes@[k as int]@)));
        k = k + 1;
    }
    assert(views(includes@).take(includes@.len() as int) == views(includes@));
    let mut defs: Vec<String> = Vec::new();
    let mut d: usize = 0;
    while d < defines.len()
        invariant
            d <= defines@.len(),
            views(defs@) == define_args(views(defines@).take(d as int)),
        decreases defines@.len() - d,
    {
        let ghost before = defs@;
        defs.push(concat("-D", defines[d].as_str()));
        assert(views(defs@) =~= views(before).push("-D"@ + defines@[d as int]@));
        assert(define_args(views(defines@).take(d + 1)) =~= define_args(views(defines@).take(d as int)).push(
            "-D"@ + defines@[d as int]@,
        ));
        d = d + 1;
    }
    assert(views(defines@).take(defines@.len() as int) == views(defines@));
    let mut compiles: Vec<Command> = Vec::new();
    let mut objects: Vec<String> = Vec::new();
    let mut i: usize = 0;
    while i < sources.len()
        invariant
            i <= sources@.len(),
            views(inc@) == include_args(pkg_path@, views(includes@)),
            views(defs@) == define_args(views(defines@)),
            compiles@.len() == i,
            objects@.len() == i,
            forall|j: int| 0 <= j < i ==> {
                &&& #[trigger] objects@[j]@ == auto_object_path(pkg_path@, sources@[j]@)
                &&& compiles@[j].program@ == (if auto_is_cpp(sources@[j]@) { "c++"@ } else { "cc"@ })
                &&& views(compiles@[j].args@) == seq!["-c"@, "-fPIC"@] + include_args(pkg_path@, views(includes@))
                    + define_args(views(defines@)) + views(cflags@) + seq![
                    sources@[j]@,
                    "-o"@,
                    auto_object_path(pkg_path@, sources@[j]@),
                ]
            },
        decreases sources@.len() - i,
    {
        let (cmd, obj) = auto_compile(pkg_path, &sources[i], &inc, &defs, cflags);
        compiles.push(cmd);
        objects.push(obj);
        i = i + 1;
    }
    let lib_name = concat3("lib", name, ".a");
    let library = join_path(pkg_path, lib_name.as_str());
    let mut ar_args: Vec<String> = Vec::new();
    ar_args.push(String::from_str("rcs"));
    ar_args.push(library.clone());
    assert(views(ar_args@) =~= seq!["rcs"@, library@]);
    extend_views(&mut ar_args, &objects);
    Ok(AutoBuild {
        object_dir: join_path(pkg_path, ".hut-build"),
        compiles,
        objects,
        library,
        archive: Command { program: String::from_str("ar"), args: ar_args },
    })
}

/// The parent directory of a path (`Path::parent`, empty for a bare name).
pub open spec fn parent_path(p: Seq<char>) -> Seq<char> {
    let q = strip_trailing_slashes(p);
    let i = last_index_of(q, '/');
    if i < 0 {
        Seq::empty()
    } else if i == 0 {
        seq!['/']
    } else {
        strip_trailing_slashes(q.take(i))
    }
}

/// The directories holding static libraries among `files`, each once (as
/// paths compare), in order of first appearance.
pub open spec fn lib_dirs_of(files: Seq<Seq<char>>) -> Seq<Seq<char>>
    decreases files.len(),
{
    if files.len() == 0 {
        Seq::empty()
    } else {
        let rest = lib_dirs_of(files.drop_last());
        let f = files.last();
        if extension(f) == Some("a"@) && !crate::text::has_path(rest, parent_path(f)) {
            rest.push(parent_path(f))
        } else {
            rest
        }
    }
}

/// The parent directory of a path (see `parent_path`).
pub fn parent_dir(p: &str) -> (r: String)
    ensures
        r@ == parent_path(p@),
{
    let q = strip_trailing_slash_chars(&chars_of(p));
    match rfind_char(&q, '/') {
        None => String::new(),
        Some(i) => if i == 0 {
            proof {
                reveal_strlit("/");
            }
            String::from_str("/")
        } else {
            let head = take_chars(&q, i);
            string_of(&strip_trailing_slash_chars(&head))
        },
    }
}

/// The directories holding `.a` files among the files of a built package
/// (see `lib_dirs_of`).
pub fn scan_lib_dirs(files: &Vec<String>) -> (r: Vec<String>)
    ensures
        views(r@) == lib_dirs_of(views(files@)),
{
    let mut r: Vec<String> = Vec::new();
    let mut i: usize = 0;
    while i < files.len()
        invariant
            i <= files@.len(),
            views(r@) == lib_dirs_of(views(files@).take(i as int)),
        decreases files@.len() - i,
    {
        let ghost t = views(files@).take(i + 1);
        assert(t.drop_last() == views(files@).take(i as int));
        assert(t.last() == files@[i as int]@);
        let is_lib = match extension_chars(&chars_of(files[i].as_str())) {
            Some(e) => crate::text::eq_lit(&e, "a"),
            None => false,
        };
        if is_lib {
            let parent = parent_dir(files[i].as_str());
            let mut one: Vec<String> = Vec::new();
            one.push(parent);
            let ghost pv = one@[0]@;
            let ghost before = views(r@);
            add_glob_matches(&mut r, &one);
            assert(views(one@) =~= seq![pv]);
            assert(views(one@).drop_last() =~= Seq::<Seq<char>>::empty());
            assert(crate::headers::add_all(before, views(one@).drop_last()) == before);
        }
        i = i + 1;
    }
    assert(views(files@).take(files@.len() as int) == views(files@));
    r
}

/// Build outputs never count for integrity: a file whose extension is `a`,
/// `o`, `so` or `dylib` is not hashed, nor is the cache's own metadata file;
/// any other file is.
pub proof fn law_hashed_files(p: Seq<char>)
    ensures
        extension(p) == Some("o"@) ==> !hashed_path(p),
        extension(p) == Some("a"@) ==> !hashed_path(p),
        extension(p) == Some("so"@) ==> !hashed_path(p),
        extension(p) == Some("dylib"@) ==> !hashed_path(p),
        file_name(p) == Some(".hut-cache.json"@) ==> !hashed_path(p),
        file_name(p) != Some(".hut-cache.json"@) && extension(p) != Some("o"@) && extension(p) != Some("a"@)
            && extension(p) != Some("so"@) && extension(p) != Some("dylib"@) ==> hashed_path(p),
{
}

} // verus!
