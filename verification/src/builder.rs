//! The build: toolchain choice, source selection, object and output paths,
//! response files, and the compile and link commands. Running the commands,
//! probing for programs and checking timestamps is the caller's part.

use vstd::prelude::*;

use crate::error::HutError;
use crate::flags::{args_len, Flags};
use crate::text::{
    chars_of, concat, eq_lit, extension, extension_chars, file_name, has_prefix, has_substring, has_suffix,
    join_path, join_with, last_index_of, path_join, replace, replace_all, rfind_char, skip_chars, str_contains,
    str_ends_with, string_of, strip_tail, strip_tail_chars, last_name, strip_trailing_slash_chars, strip_trailing_slashes, take_chars, views,
    contains_char, has_char, has_path, path_key, path_listed, distinct_paths,
};

verus! {

// ───────────────────────────── toolchain ─────────────────────────────

/// A compiler toolchain.
#[derive(Debug)]
pub struct Compiler {
    /// C compiler, e.g. "gcc", "clang".
    pub cc: String,
    /// C++ compiler, e.g. "g++", "clang++".
    pub cxx: String,
    /// Archiver, e.g. "ar".
    pub ar: String,
    pub is_clang: bool,
}

/// The C++ compiler that goes with a C compiler.
pub open spec fn inferred_cxx(cc: Seq<char>) -> Seq<char> {
    if cc == "gcc"@ {
        "g++"@
    } else if cc == "clang"@ {
        "clang++"@
    } else if cc == "cc"@ {
        "c++"@
    } else if has_suffix(cc, "gcc"@) {
        replace_all(cc, "gcc"@, "g++"@)
    } else if has_substring(cc, "clang"@) && !has_substring(cc, "++"@) {
        cc + "++"@
    } else {
        cc
    }
}

/// The C++ compiler that goes with a C compiler: `gcc` → `g++`, `clang` →
/// `clang++`, `cc` → `c++`; a name ending in `gcc` gets `g++` for every
/// `gcc`, a clang name without `++` gets `++` appended; others stand.
pub fn infer_cxx(cc: &str) -> (r: String)
    ensures
        r@ == inferred_cxx(cc@),
{
    let c = chars_of(cc);
    if eq_lit(&c, "gcc") {
        String::from_str("g++")
    } else if eq_lit(&c, "clang") {
        String::from_str("clang++")
    } else if eq_lit(&c, "cc") {
        String::from_str("c++")
    } else if str_ends_with(cc, "gcc") {
        let from = chars_of("gcc");
        let to = chars_of("g++");
        proof {
            reveal_strlit("gcc");
        }
        string_of(&replace(&c, &from, &to))
    } else if str_contains(cc, "clang") && !str_contains(cc, "++") {
        concat(cc, "++")
    } else {
        String::from_str(cc)
    }
}

/// The archiver: `ar` when it exists, else `llvm-ar` when that exists, else `ar`.
pub fn detect_ar(ar_exists: bool, llvm_ar_exists: bool) -> (r: String)
    ensures
        r@ == (if ar_exists { "ar"@ } else if llvm_ar_exists { "llvm-ar"@ } else { "ar"@ }),
{
    if ar_exists {
        String::from_str("ar")
    } else if llvm_ar_exists {
        String::from_str("llvm-ar")
    } else {
        String::from_str("ar")
    }
}

/// The programs tried for a compiler preference, in order.
pub open spec fn compiler_candidates(preference: Seq<char>) -> Seq<Seq<char>> {
    if preference == "clang"@ {
        seq!["clang"@, "clang++"@]
    } else if preference == "gcc"@ {
        seq!["gcc"@, "g++"@]
    } else {
        seq!["gcc"@, "clang"@, "cc"@]
    }
}

/// The programs tried for a compiler preference (`clang`, `gcc`, or any
/// other word meaning automatic), in order.
pub fn candidate_compilers(preference: &str) -> (r: Vec<String>)
    ensures
        views(r@) == compiler_candidates(preference@),
{
    let p = chars_of(preference);
    let mut r: Vec<String> = Vec::new();
    if eq_lit(&p, "clang") {
        r.push(String::from_str("clang"));
        r.push(String::from_str("clang++"));
    } else if eq_lit(&p, "gcc") {
        r.push(String::from_str("gcc"));
        r.push(String::from_str("g++"));
    } else {
        r.push(String::from_str("gcc"));
        r.push(String::from_str("clang"));
        r.push(String::from_str("cc"));
    }
    assert(views(r@) =~= compiler_candidates(preference@));
    r
}

/// Index of the first `true`, or -1.
pub open spec fn first_true(ok: Seq<bool>) -> int
    decreases ok.len(),
{
    if ok.len() == 0 {
        -1
    } else if ok[0] {
        0
    } else {
        let r = first_true(ok.drop_first());
        if r < 0 { -1 } else { r + 1 }
    }
}

/// The (C, C++) compilers chosen: `CC` and `CXX` from the environment when
/// both exist, else `CC` when it exists, else the first existing candidate.
pub open spec fn chosen_compilers(
    cc_env: Option<Seq<char>>,
    cxx_env: Option<Seq<char>>,
    cc_exists: bool,
    cxx_exists: bool,
    cands: Seq<Seq<char>>,
    exists: Seq<bool>,
) -> Option<(Seq<char>, Seq<char>)> {
    if cc_env is Some && cxx_env is Some && cc_exists && cxx_exists {
        Some((cc_env->0, cxx_env->0))
    } else if cc_env is Some && cc_exists {
        Some((cc_env->0, inferred_cxx(cc_env->0)))
    } else if 0 <= first_true(exists) < cands.len() {
        Some((cands[first_true(exists)], inferred_cxx(cands[first_true(exists)])))
    } else {
        None
    }
}

/// View of an optional string.
pub open spec fn opt_view(o: Option<String>) -> Option<Seq<char>> {
    match o {
        Some(s) => Some(s@),
        None => None,
    }
}

/// Choose the toolchain (see `chosen_compilers`); `cc_exists` and
/// `cxx_exists` tell whether the programs named by `CC` and `CXX` exist,
/// `exists[i]` whether `candidates[i]` does; `ar` is the archiver.
pub fn choose_compiler(
    cc_env: Option<String>,
    cxx_env: Option<String>,
    cc_exists: bool,
    cxx_exists: bool,
    candidates: &Vec<String>,
    exists: &Vec<bool>,
    ar: String,
) -> (r: Result<Compiler, HutError>)
    ensures
        match chosen_compilers(opt_view(cc_env), opt_view(cxx_env), cc_exists, cxx_exists, views(candidates@), exists@) {
            None => r matches Err(HutError::NoCompiler),
            Some((cc, cxx)) => r matches Ok(c) && c.cc@ == cc && c.cxx@ == cxx && c.ar@ == ar@ && c.is_clang
                == has_substring(cc, "clang"@),
        },
{
    let ghost ce = opt_view(cc_env);
    let ghost xe = opt_view(cxx_env);
    match (cc_env, cxx_env) {
        (Some(cc), Some(cxx)) => {
            if cc_exists && cxx_exists {
                let is_clang = str_contains(cc.as_str(), "clang");
                return Ok(Compiler { cc, cxx, ar, is_clang });
            }
            if cc_exists {
                let is_clang = str_contains(cc.as_str(), "clang");
                let cxx = infer_cxx(cc.as_str());
                return Ok(Compiler { cc, cxx, ar, is_clang });
            }
        },
        (Some(cc), None) => {
            if cc_exists {
                let is_clang = str_contains(cc.as_str(), "clang");
                let cxx = infer_cxx(cc.as_str());
                return Ok(Compiler { cc, cxx, ar, is_clang });
            }
        },
        _ => {},
    }
    let mut i: usize = 0;
    let ghost e = exists@;
    assert(e.skip(0) == e);
    while i < candidates.len() && i < exists.len()
        invariant
            i <= candidates@.len(),
            i <= exists@.len(),
            e == exists@,
            !(ce is Some && xe is Some && cc_exists && cxx_exists),
            !(ce is Some && cc_exists),
            chosen_compilers(ce, xe, cc_exists, cxx_exists, views(candidates@), e) == chosen_compilers(
                opt_view(cc_env),
                opt_view(cxx_env),
                cc_exists,
                cxx_exists,
                views(candidates@),
                exists@,
            ),
            forall|j: int| 0 <= j < i ==> !e[j],
            first_true(e) == (if first_true(e.skip(i as int)) < 0 { -1 } else { first_true(e.skip(i as int)) + i }),
        decreases candidates@.len() - i,
    {
        assert(e.skip(i as int).drop_first() == e.skip(i + 1));
        if exists[i] {
            let c = candidates[i].clone();
            assert(views(candidates@)[i as int] == c@);
            let is_clang = str_contains(c.as_str(), "clang");
            let cxx = infer_cxx(c.as_str());
            return Ok(Compiler { cc: c, cxx, ar, is_clang });
        }
        i = i + 1;
    }
    proof {
        if i == exists@.len() {
            assert(e.skip(i as int).len() == 0);
        } else {
            lemma_first_true_bound(e.skip(i as int));
        }
    }
    Err(HutError::NoCompiler)
}

/// `first_true` is below the length.
proof fn lemma_first_true_bound(ok: Seq<bool>)
    ensures
        first_true(ok) < ok.len(),
    decreases ok.len(),
{
    if ok.len() > 0 && !ok[0] {
        lemma_first_true_bound(ok.drop_first());
    }
}

// ───────────────────────────── sources ─────────────────────────────

/// A C source (`.c`).
pub open spec fn is_c_path(p: Seq<char>) -> bool {
    extension(p) == Some("c"@)
}

/// A C++ source (`.cpp`, `.cxx`, `.cc`, `.c++`, `.C`, `.c++m`, `.cppm`).
pub open spec fn is_cpp_path(p: Seq<char>) -> bool {
    match extension(p) {
        Some(e) => e == "cpp"@ || e == "cxx"@ || e == "cc"@ || e == "c++"@ || e == "C"@ || e == "c++m"@ || e
            == "cppm"@,
        None => false,
    }
}

/// Whether a path names a C source file.
pub fn is_c_file(path: &str) -> (r: bool)
    ensures
        r == is_c_path(path@),
{
    match extension_chars(&chars_of(path)) {
        Some(e) => eq_lit(&e, "c"),
        None => false,
    }
}

/// Whether a path names a C++ source file.
pub fn is_cpp_file(path: &str) -> (r: bool)
    ensures
        r == is_cpp_path(path@),
{
    match extension_chars(&chars_of(path)) {
        Some(e) => eq_lit(&e, "cpp") || eq_lit(&e, "cxx") || eq_lit(&e, "cc") || eq_lit(&e, "c++") || eq_lit(
            &e,
            "C",
        ) || eq_lit(&e, "c++m") || eq_lit(&e, "cppm"),
        None => false,
    }
}

/// Whether a path names a C or C++ source file.
pub fn is_source_file(path: &str) -> (r: bool)
    ensures
        r == (is_c_path(path@) || is_cpp_path(path@)),
{
    is_c_file(path) || is_cpp_file(path)
}

/// The source files among `paths`, each once (as paths compare), in order.
pub open spec fn source_files(paths: Seq<Seq<char>>) -> Seq<Seq<char>>
    decreases paths.len(),
{
    if paths.len() == 0 {
        Seq::empty()
    } else {
        let rest = source_files(paths.drop_last());
        let p = paths.last();
        if (is_c_path(p) || is_cpp_path(p)) && !has_path(rest, p) {
            rest.push(p)
        } else {
            rest
        }
    }
}

/// The sources of a project: the source files found under `src/` (when it
/// exists), else those directly in the project root.
pub open spec fn project_sources(src_files: Option<Seq<Seq<char>>>, root_files: Seq<Seq<char>>) -> Seq<Seq<char>> {
    let a = match src_files {
        Some(f) => source_files(f),
        None => Seq::empty(),
    };
    if a.len() == 0 { source_files(root_files) } else { a }
}

/// The source files among `paths` (see `source_files`).
fn filter_sources(paths: &Vec<String>) -> (r: Vec<String>)
    ensures
        views(r@) == source_files(views(paths@)),
{
    let mut r: Vec<String> = Vec::new();
    let mut i: usize = 0;
    while i < paths.len()
        invariant
            i <= paths@.len(),
            views(r@) == source_files(views(paths@).take(i as int)),
        decreases paths@.len() - i,
    {
        let ghost t = views(paths@).take(i + 1);
        assert(t.drop_last() == views(paths@).take(i as int));
        assert(t.last() == paths@[i as int]@);
        let p = &paths[i];
        if is_source_file(p.as_str()) {
            let seen = path_listed(&r, p.as_str());
            if !seen {
                let ghost before = r@;
                r.push(p.clone());
                assert(views(r@) =~= views(before).push(p@));
            }
        }
        i = i + 1;
    }
    assert(views(paths@).take(paths@.len() as int) == views(paths@));
    r
}

/// The sources of a project (see `project_sources`): `src_files` are the
/// files under `src/` when that directory exists, `root_files` those
/// directly in the project root.
pub fn collect_sources(src_files: Option<Vec<String>>, root_files: &Vec<String>) -> (r: Vec<String>)
    ensures
        views(r@) == project_sources(
            match src_files {
                Some(f) => Some(views(f@)),
                None => None,
            },
            views(root_files@),
        ),
{
    let a = match &src_files {
        Some(f) => filter_sources(f),
        None => Vec::new(),
    };
    if a.len() == 0 {
        filter_sources(root_files)
    } else {
        a
    }
}

// ───────────────────────────── paths ─────────────────────────────

/// `<root>/target/<profile>`.
pub open spec fn output_dir_path(root: Seq<char>, release: bool) -> Seq<char> {
    path_join(path_join(root, "target"@), if release { "release"@ } else { "debug"@ })
}

/// `<root>/target/.build` (the same for both profiles).
pub open spec fn object_dir_path(root: Seq<char>) -> Seq<char> {
    path_join(path_join(root, "target"@), ".build"@)
}

/// The output directory of a profile.
pub fn output_dir(project_root: &str, release: bool) -> (r: String)
    ensures
        r@ == output_dir_path(project_root@, release),
{
    let t = join_path(project_root, "target");
    join_path(t.as_str(), if release { "release" } else { "debug" })
}

/// The directory of object files.
pub fn object_dir(project_root: &str, release: bool) -> (r: String)
    ensures
        r@ == object_dir_path(project_root@),
{
    let t = join_path(project_root, "target");
    join_path(t.as_str(), ".build")
}

/// Drop leading separators.
pub open spec fn trim_leading_slashes(s: Seq<char>) -> Seq<char>
    decreases s.len(),
{
    if s.len() > 0 && s[0] == '/' { trim_leading_slashes(s.drop_first()) } else { s }
}

/// A path relative to `root`, when `root` is a leading part of it (whole
/// components).
pub open spec fn relative_to(p: Seq<char>, root: Seq<char>) -> Option<Seq<char>> {
    let r = strip_trailing_slashes(root);
    if !has_prefix(p, r) {
        None
    } else if p.len() == r.len() {
        Some(Seq::empty())
    } else if p[r.len() as int] == '/' || (r.len() > 0 && r.last() == '/') {
        Some(trim_leading_slashes(p.skip(r.len() as int)))
    } else {
        None
    }
}

/// A path with its extension replaced by (or extended with) `ext`, as
/// `PathBuf::set_extension` does; a path without file name stands.
pub open spec fn with_extension(p: Seq<char>, ext: Seq<char>) -> Seq<char> {
    let q = strip_tail(p);
    match last_name(q) {
        None => p,
        Some(name) => {
            let d = last_index_of(name, '.');
            let stem_len = if d > 0 { d } else { name.len() as int };
            q.take(q.len() - name.len() + stem_len) + seq!['.'] + ext
        },
    }
}

/// The object file of a source: under the object directory, at the source's
/// path relative to the project root (its file name when it lies outside),
/// with extension `o`.
pub open spec fn object_path(source: Seq<char>, root: Seq<char>) -> Seq<char> {
    let rel = match relative_to(source, root) {
        Some(r) => r,
        None => file_name(source)->0,
    };
    with_extension(path_join(object_dir_path(root), rel), "o"@)
}

/// Relative path of `p` under `root` (see `relative_to`).
fn relative_chars(p: &Vec<char>, root: &str) -> (r: Option<Vec<char>>)
    ensures
        match r {
            Some(v) => relative_to(p@, root@) == Some(v@),
            None => relative_to(p@, root@) is None,
        },
{
    let r = strip_trailing_slash_chars(&chars_of(root));
    if !crate::text::starts_with(p, &r) {
        return None;
    }
    if p.len() == r.len() {
        return Some(Vec::new());
    }
    let n = r.len();
    if p[n] == '/' || (n > 0 && r[n - 1] == '/') {
        let mut rest = skip_chars(p, n);
        let ghost full = rest@;
        let mut k: usize = 0;
        assert(full.skip(0) == full);
        while k < rest.len() && rest[k] == '/'
            invariant
                k <= rest@.len(),
                rest@ == full,
                trim_leading_slashes(full) == trim_leading_slashes(full.skip(k as int)),
            decreases rest@.len() - k,
        {
            assert(full.skip(k as int).drop_first() == full.skip(k + 1));
            k = k + 1;
        }
        Some(skip_chars(&rest, k))
    } else {
        None
    }
}

/// Replace or add the extension (see `with_extension`).
pub fn set_extension(p: &str, ext: &str) -> (r: String)
    ensures
        r@ == with_extension(p@, ext@),
{
    let q = strip_tail_chars(&chars_of(p));
    match crate::text::last_name_chars(&q) {
        None => String::from_str(p),
        Some(name) => {
            let stem_len = match rfind_char(&name, '.') {
                Some(d) => if d > 0 { d } else { name.len() },
                None => name.len(),
            };
            proof {
                lemma_file_name_suffix(q@);
            }
            let keep = q.len() - name.len() + stem_len;
            let mut v = take_chars(&q, keep);
            v.push('.');
            let e = chars_of(ext);
            crate::text::extend_chars(&mut v, &e);
            string_of(&v)
        },
    }
}

/// A last name is no longer than its path.
proof fn lemma_file_name_suffix(q: Seq<char>)
    ensures
        last_name(q) matches Some(name) ==> name.len() <= q.len(),
{
    lemma_last_index_bounds(q, '/');
}

/// `last_index_of` finds a position inside the sequence, or -1.
proof fn lemma_last_index_bounds(s: Seq<char>, c: char)
    ensures
        -1 <= last_index_of(s, c) < s.len(),
    decreases s.len(),
{
    if s.len() > 0 && s.last() != c {
        lemma_last_index_bounds(s.drop_last(), c);
    }
}

/// The object file of a source (see `object_path`).
pub fn source_to_object(source: &str, project_root: &str, release: bool) -> (r: String)
    requires
        relative_to(source@, project_root@) is Some || file_name(source@) is Some,
    ensures
        r@ == object_path(source@, project_root@),
{
    let s = chars_of(source);
    let rel = match relative_chars(&s, project_root) {
        Some(r) => r,
        None => crate::text::file_name_chars(&s).unwrap(),
    };
    let od = object_dir(project_root, release);
    let rel_s = string_of(&rel);
    let joined = join_path(od.as_str(), rel_s.as_str());
    set_extension(joined.as_str(), "o")
}

// ───────────────────────────── response files ─────────────────────────────

/// An argument as written in a GCC/Clang response file: quoted, with `\`
/// and `"` escaped, when it holds a space, backslash or quote.
pub open spec fn rsp_escaped(arg: Seq<char>) -> Seq<char> {
    if has_char(arg, ' ') || has_char(arg, '\\') || has_char(arg, '"') {
        seq!['"'] + replace_all(replace_all(arg, seq!['\\'], seq!['\\', '\\']), seq!['"'], seq!['\\', '"'])
            + seq!['"']
    } else {
        arg
    }
}

/// Escape an argument for use inside a GCC/Clang response file.
pub fn escape_rsp_arg(arg: &str) -> (r: String)
    ensures
        r@ == rsp_escaped(arg@),
{
    let a = chars_of(arg);
    if contains_char(&a, ' ') || contains_char(&a, '\\') || contains_char(&a, '"') {
        let mut bs: Vec<char> = Vec::new();
        bs.push('\\');
        let mut bs2: Vec<char> = Vec::new();
        bs2.push('\\');
        bs2.push('\\');
        let mut q: Vec<char> = Vec::new();
        q.push('"');
        let mut q2: Vec<char> = Vec::new();
        q2.push('\\');
        q2.push('"');
        assert(bs@ =~= seq!['\\']);
        assert(bs2@ =~= seq!['\\', '\\']);
        assert(q@ =~= seq!['"']);
        assert(q2@ =~= seq!['\\', '"']);
        let step1 = replace(&a, &bs, &bs2);
        let step2 = replace(&step1, &q, &q2);
        let mut out: Vec<char> = Vec::new();
        out.push('"');
        crate::text::extend_chars(&mut out, &step2);
        out.push('"');
        assert(out@ =~= seq!['"'] + step2@ + seq!['"']);
        string_of(&out)
    } else {
        String::from_str(arg)
    }
}

/// The content of a response file: the escaped arguments, one per line.
pub open spec fn rsp_content(args: Seq<Seq<char>>) -> Seq<char> {
    join_with(args.map_values(|a: Seq<char>| rsp_escaped(a)), seq!['\n'])
}

/// The content of a response file for `args`.
pub fn response_file_content(args: &Vec<String>) -> (r: String)
    ensures
        r@ == rsp_content(views(args@)),
{
    let ghost all = views(args@).map_values(|a: Seq<char>| rsp_escaped(a));
    let mut out: Vec<char> = Vec::new();
    let mut i: usize = 0;
    while i < args.len()
        invariant
            i <= args@.len(),
            all == views(args@).map_values(|a: Seq<char>| rsp_escaped(a)),
            out@ == join_with(all.take(i as int), seq!['\n']),
        decreases args@.len() - i,
    {
        let ghost before = out@;
        let e = escape_rsp_arg(args[i].as_str());
        assert(all[i as int] == rsp_escaped(args@[i as int]@));
        if i > 0 {
            out.push('\n');
        }
        let ec = chars_of(e.as_str());
        crate::text::extend_chars(&mut out, &ec);
        proof {
            let t = all.take(i + 1);
            assert(t.drop_last() == all.take(i as int));
            assert(t.last() == all[i as int]);
            if i == 0 {
                assert(out@ =~= all[0]);
            } else {
                assert(out@ =~= before + seq!['\n'] + all[i as int]);
            }
        }
        i = i + 1;
    }
    assert(all.take(args@.len() as int) == all);
    string_of(&out)
}

// ───────────────────────────── commands ─────────────────────────────

/// Above this total length of flags, flags go through a response file.
pub const RESPONSE_FILE_LIMIT: usize = 32768;

/// A program and its arguments.
#[derive(Debug)]
pub struct Command {
    pub program: String,
    pub args: Vec<String>,
}

/// One compilation.
#[derive(Debug)]
pub struct CompileStep {
    pub command: Command,
    /// The object file written.
    pub object: String,
    /// A response file to write first: its path and content.
    pub response_file: Option<(String, String)>,
}

/// The link step.
#[derive(Debug)]
pub struct LinkStep {
    pub command: Command,
    /// A response file to write first: its path and content.
    pub response_file: Option<(String, String)>,
}

/// A project written in C++ (language `c++` or `cpp`).
pub open spec fn project_is_cpp(language: Seq<char>) -> bool {
    language == "c++"@ || language == "cpp"@
}

/// Whether a source is compiled with the C++ compiler: `.c` never, C++
/// extensions always, anything else when the project is C++.
pub open spec fn compiles_with_cxx(source: Seq<char>, project_cpp: bool) -> bool {
    if is_c_path(source) {
        false
    } else if is_cpp_path(source) {
        true
    } else {
        project_cpp
    }
}

/// Whether flags are too long for the command line.
pub open spec fn over_limit(f: Flags) -> bool {
    args_len(f.cflags@) + args_len(f.ldflags@) > RESPONSE_FILE_LIMIT
}

/// Whether the project language is C++.
pub fn language_is_cpp(language: &str) -> (r: bool)
    ensures
        r == project_is_cpp(language@),
{
    let l = chars_of(language);
    eq_lit(&l, "c++") || eq_lit(&l, "cpp")
}

/// Copy a list of strings onto the end of another.
fn append_all(dst: &mut Vec<String>, src: &Vec<String>)
    ensures
        views(final(dst)@) == views(old(dst)@) + views(src@),
{
    let mut i: usize = 0;
    while i < src.len()
        invariant
            i <= src@.len(),
            views(dst@) == views(old(dst)@) + views(src@.take(i as int)),
        decreases src@.len() - i,
    {
        let ghost before = dst@;
        dst.push(src[i].clone());
        assert(views(dst@) =~= views(before).push(src@[i as int]@));
        assert(views(src@.take(i + 1)) =~= views(src@.take(i as int)).push(src@[i as int]@));
        i = i + 1;
    }
    assert(src@.take(src@.len() as int) == src@);
}

/// The command that compiles `source` into its object file; its flags are
/// passed through a response file next to the object when they are too long.
pub fn compile_step(
    compiler: &Compiler,
    source: &str,
    project_root: &str,
    release: bool,
    project_cpp: bool,
    flags: &Flags,
) -> (r: CompileStep)
    requires
        relative_to(source@, project_root@) is Some || file_name(source@) is Some,
    ensures
        r.command.program@ == (if compiles_with_cxx(source@, project_cpp) { compiler.cxx@ } else { compiler.cc@ }),
        r.object@ == object_path(source@, project_root@),
        if over_limit(*flags) {
            &&& r.response_file matches Some((p, c)) && p@ == with_extension(r.object@, "rsp"@) && c@ == rsp_content(
                views(flags.cflags@),
            )
            &&& views(r.command.args@) == seq!["-c"@, source@, "-o"@, r.object@, "@"@ + with_extension(r.object@, "rsp"@)]
        } else {
            &&& r.response_file is None
            &&& views(r.command.args@) == seq!["-c"@, source@, "-o"@, r.object@] + views(flags.cflags@)
        },
{
    let use_cxx = if is_c_file(source) {
        false
    } else if is_cpp_file(source) {
        true
    } else {
        project_cpp
    };
    let program = if use_cxx { compiler.cxx.clone() } else { compiler.cc.clone() };
    let object = source_to_object(source, project_root, release);
    let mut args: Vec<String> = Vec::new();
    args.push(String::from_str("-c"));
    args.push(String::from_str(source));
    args.push(String::from_str("-o"));
    args.push(object.clone());
    let ghost head = views(args@);
    assert(head =~= seq!["-c"@, source@, "-o"@, object@]);
    if flags.exceeds(RESPONSE_FILE_LIMIT) {
        let rsp = set_extension(object.as_str(), "rsp");
        args.push(concat("@", rsp.as_str()));
        assert(views(args@) =~= seq!["-c"@, source@, "-o"@, object@, "@"@ + rsp@]);
        let content = response_file_content(&flags.cflags);
        CompileStep { command: Command { program, args }, object, response_file: Some((rsp, content)) }
    } else {
        append_all(&mut args, &flags.cflags);
        CompileStep { command: Command { program, args }, object, response_file: None }
    }
}

/// Whether some source is a C++ file.
pub open spec fn any_cpp(sources: Seq<Seq<char>>) -> bool {
    exists|i: int| 0 <= i < sources.len() && is_cpp_path(#[trigger] sources[i])
}

/// The command that links the objects into `output`: with the C++ compiler
/// when some source is C++, with all compiler then linker flags (through a
/// response file next to the output when they are too long).
pub fn link_step(compiler: &Compiler, sources: &Vec<String>, objects: &Vec<String>, output: &str, flags: &Flags) -> (r:
    LinkStep)
    ensures
        r.command.program@ == (if any_cpp(views(sources@)) { compiler.cxx@ } else { compiler.cc@ }),
        if over_limit(*flags) {
            &&& r.response_file matches Some((p, c)) && p@ == with_extension(output@, "rsp"@) && c@ == rsp_content(
                views(flags.cflags@) + views(flags.ldflags@),
            )
            &&& views(r.command.args@) == seq!["-o"@, output@] + views(objects@) + seq![
                "@"@ + with_extension(output@, "rsp"@),
            ]
        } else {
            &&& r.response_file is None
            &&& views(r.command.args@) == seq!["-o"@, output@] + views(objects@) + views(flags.cflags@) + views(
                flags.ldflags@,
            )
        },
{
    let mut cpp = false;
    let mut i: usize = 0;
    while i < sources.len()
        invariant
            i <= sources@.len(),
            cpp == exists|k: int| 0 <= k < i && is_cpp_path(#[trigger] views(sources@)[k]),
        decreases sources@.len() - i,
    {
        assert(views(sources@)[i as int] == sources@[i as int]@);
        if is_cpp_file(sources[i].as_str()) {
            cpp = true;
        }
        i = i + 1;
    }
    let program = if cpp { compiler.cxx.clone() } else { compiler.cc.clone() };
    let mut args: Vec<String> = Vec::new();
    args.push(String::from_str("-o"));
    args.push(String::from_str(output));
    assert(views(args@) =~= seq!["-o"@, output@]);
    append_all(&mut args, objects);
    if flags.exceeds(RESPONSE_FILE_LIMIT) {
        let rsp = set_extension(output, "rsp");
        let ghost before = views(args@);
        args.push(concat("@", rsp.as_str()));
        assert(views(args@) =~= before.push("@"@ + rsp@));
        let mut all: Vec<String> = Vec::new();
        append_all(&mut all, &flags.cflags);
        append_all(&mut all, &flags.ldflags);
        assert(views(all@) =~= views(flags.cflags@) + views(flags.ldflags@));
        let content = response_file_content(&all);
        LinkStep { command: Command { program, args }, response_file: Some((rsp, content)) }
    } else {
        append_all(&mut args, &flags.cflags);
        append_all(&mut args, &flags.ldflags);
        LinkStep { command: Command { program, args }, response_file: None }
    }
}

/// The binary of a profile: `<root>/target/<profile>/<name>`.
pub fn output_path(project_root: &str, release: bool, target_name: &str) -> (r: String)
    ensures
        r@ == path_join(output_dir_path(project_root@, release), target_name@),
{
    let d = output_dir(project_root, release);
    join_path(d.as_str(), target_name)
}

/// The include directories of a build: those of the dependencies, then
/// `<root>/include` and `<root>/src` when they exist.
pub fn build_includes(dep_includes: Vec<String>, project_root: &str, include_exists: bool, src_exists: bool) -> (r:
    Vec<String>)
    ensures
        views(r@) == views(dep_includes@) + (if include_exists {
            seq![path_join(project_root@, "include"@)]
        } else {
            Seq::empty()
        }) + (if src_exists {
            seq![path_join(project_root@, "src"@)]
        } else {
            Seq::empty()
        }),
{
    let mut r = dep_includes;
    let ghost d = views(r@);
    if include_exists {
        r.push(join_path(project_root, "include"));
    }
    let ghost mid = views(r@);
    if src_exists {
        r.push(join_path(project_root, "src"));
    }
    assert(views(r@) =~= d + (if include_exists {
        seq![path_join(project_root@, "include"@)]
    } else {
        Seq::empty()
    }) + (if src_exists {
        seq![path_join(project_root@, "src"@)]
    } else {
        Seq::empty()
    }));
    r
}

/// Nothing to do: every object was fresh and the binary exists and is newer
/// than every source.
pub fn up_to_date(fresh_count: usize, source_count: usize, output_exists: bool, binary_fresh: bool) -> (r: bool)
    ensures
        r == (fresh_count == source_count && output_exists && binary_fresh),
{
    fresh_count == source_count && output_exists && binary_fresh
}

/// The error of a project without sources.
pub fn check_sources(sources: &Vec<String>) -> (r: Result<(), HutError>)
    ensures
        sources@.len() == 0 <==> r is Err,
        r matches Err(HutError::Build(m)) ==> m@ == "No C/C++ source files found. Add .c or .cpp files to src/."@,
        r is Err ==> r matches Err(HutError::Build(_)),
{
    if sources.len() == 0 {
        Err(HutError::Build(String::from_str("No C/C++ source files found. Add .c or .cpp files to src/.")))
    } else {
        Ok(())
    }
}

// ───────────────────────────── incremental builds ─────────────────────────────

/// Whether a source's object file can be named (see `object_path`).
pub open spec fn object_nameable(source: Seq<char>, project_root: Seq<char>) -> bool {
    relative_to(source, project_root) is Some || file_name(source) is Some
}

/// The object files of the fresh sources, in order.
pub open spec fn cached_objects_of(sources: Seq<Seq<char>>, fresh: Seq<bool>, project_root: Seq<char>) -> Seq<
    Seq<char>,
>
    decreases sources.len(),
{
    if sources.len() == 0 {
        Seq::empty()
    } else {
        let rest = cached_objects_of(sources.drop_last(), fresh, project_root);
        if fresh[sources.len() - 1] {
            rest.push(object_path(sources.last(), project_root))
        } else {
            rest
        }
    }
}

/// The sources that must be compiled again, in order.
pub open spec fn stale_of(sources: Seq<Seq<char>>, fresh: Seq<bool>) -> Seq<Seq<char>>
    decreases sources.len(),
{
    if sources.len() == 0 {
        Seq::empty()
    } else {
        let rest = stale_of(sources.drop_last(), fresh);
        if fresh[sources.len() - 1] {
            rest
        } else {
            rest.push(sources.last())
        }
    }
}

/// Which sources an incremental build reuses and which it compiles.
#[derive(Debug)]
pub struct RebuildPlan {
    /// The object files of the fresh sources, in source order.
    pub cached_objects: Vec<String>,
    /// The sources to compile, in source order.
    pub stale_sources: Vec<String>,
}

/// Split the sources by freshness: `fresh[i]` tells whether the object of
/// `sources[i]` exists and is no older than the source.
pub fn plan_rebuild(sources: &Vec<String>, fresh: &Vec<bool>, project_root: &str, release: bool) -> (r: RebuildPlan)
    requires
        fresh@.len() == sources@.len(),
        forall|i: int| 0 <= i < sources@.len() ==> object_nameable(#[trigger] sources@[i]@, project_root@),
    ensures
        views(r.cached_objects@) == cached_objects_of(views(sources@), fresh@, project_root@),
        views(r.stale_sources@) == stale_of(views(sources@), fresh@),
{
    let mut cached: Vec<String> = Vec::new();
    let mut stale: Vec<String> = Vec::new();
    let mut i: usize = 0;
    while i < sources.len()
        invariant
            i <= sources@.len(),
            fresh@.len() == sources@.len(),
            forall|k: int| 0 <= k < sources@.len() ==> object_nameable(#[trigger] sources@[k]@, project_root@),
            views(cached@) == cached_objects_of(views(sources@).take(i as int), fresh@, project_root@),
            views(stale@) == stale_of(views(sources@).take(i as int), fresh@),
        decreases sources@.len() - i,
    {
        let ghost pre = views(sources@).take(i as int);
        let ghost next = views(sources@).take(i + 1);
        assert(next.drop_last() == pre);
        assert(next.last() == sources@[i as int]@);
        assert(object_nameable(sources@[i as int]@, project_root@));
        if fresh[i] {
            let ghost before = cached@;
            let o = source_to_object(sources[i].as_str(), project_root, release);
            cached.push(o);
            assert(views(cached@) =~= views(before).push(o@));
        } else {
            let ghost before = stale@;
            stale.push(sources[i].clone());
            assert(views(stale@) =~= views(before).push(sources@[i as int]@));
        }
        i = i + 1;
    }
    assert(views(sources@).take(sources@.len() as int) == views(sources@));
    RebuildPlan { cached_objects: cached, stale_sources: stale }
}

/// Only changed files are rebuilt: every source is either reused through its
/// object or compiled, never both; when all are fresh nothing is compiled and
/// every object is reused; when none is, everything is compiled.
pub proof fn law_rebuild_only_changed(sources: Seq<Seq<char>>, fresh: Seq<bool>, project_root: Seq<char>)
    requires
        fresh.len() == sources.len(),
    ensures
        stale_of(sources, fresh).len() + cached_objects_of(sources, fresh, project_root).len() == sources.len(),
        (forall|i: int| 0 <= i < sources.len() ==> #[trigger] fresh[i]) ==> stale_of(sources, fresh).len() == 0,
        (forall|i: int| 0 <= i < sources.len() ==> !#[trigger] fresh[i]) ==> stale_of(sources, fresh) == sources
            && cached_objects_of(sources, fresh, project_root).len() == 0,
    decreases sources.len(),
{
    if sources.len() > 0 {
        let p = sources.drop_last();
        let f = fresh.take(p.len() as int);
        lemma_prefix_fresh(sources, fresh, project_root);
        law_rebuild_only_changed(p, f, project_root);
        assert(sources =~= p.push(sources.last()));
    }
}

/// Exactly the sources that are not fresh are compiled again, each as often
/// as it occurs; so when no source occurs twice, none is compiled twice.
pub proof fn law_rebuild_exactly_stale(sources: Seq<Seq<char>>, fresh: Seq<bool>)
    requires
        fresh.len() == sources.len(),
    ensures
        forall|x: Seq<char>| #[trigger] stale_of(sources, fresh).contains(x) <==> exists|i: int|
            0 <= i < sources.len() && sources[i] == x && !fresh[i],
        sources.no_duplicates() ==> stale_of(sources, fresh).no_duplicates(),
{
    lemma_stale_members(sources, fresh);
}

proof fn lemma_stale_members(sources: Seq<Seq<char>>, fresh: Seq<bool>)
    requires
        sources.len() <= fresh.len(),
    ensures
        forall|x: Seq<char>| #[trigger] stale_of(sources, fresh).contains(x) <==> exists|i: int|
            0 <= i < sources.len() && sources[i] == x && !fresh[i],
        sources.no_duplicates() ==> stale_of(sources, fresh).no_duplicates(),
    decreases sources.len(),
{
    if sources.len() > 0 {
        let p = sources.drop_last();
        let n = sources.len() - 1;
        lemma_stale_members(p, fresh);
        let rest = stale_of(p, fresh);
        assert forall|x: Seq<char>| #[trigger] stale_of(sources, fresh).contains(x) <==> exists|i: int|
            0 <= i < sources.len() && sources[i] == x && !fresh[i] by {
            if stale_of(sources, fresh).contains(x) {
                if rest.contains(x) {
                    let i = choose|i: int| 0 <= i < p.len() && p[i] == x && !fresh[i];
                    assert(sources[i] == x);
                } else {
                    assert(!fresh[n] && x == sources[n]) by {
                        if fresh[n] {
                        } else {
                            let k = choose|k: int| 0 <= k < rest.push(sources.last()).len() && rest.push(sources.last())[k] == x;
                            if k < rest.len() {
                                assert(rest.contains(x));
                            }
                        }
                    }
                }
            }
            if exists|i: int| 0 <= i < sources.len() && sources[i] == x && !fresh[i] {
                let i = choose|i: int| 0 <= i < sources.len() && sources[i] == x && !fresh[i];
                if i < n {
                    assert(p[i] == x);
                    assert(rest.contains(x));
                    let k = choose|k: int| 0 <= k < rest.len() && rest[k] == x;
                    if !fresh[n] {
                        assert(rest.push(sources.last())[k] == x);
                    }
                } else {
                    assert(rest.push(sources.last())[rest.len() as int] == x);
                }
            }
        }
        if sources.no_duplicates() && !fresh[n] {
            assert(p.no_duplicates());
            assert(!rest.contains(sources[n])) by {
                if rest.contains(sources[n]) {
                    let i = choose|i: int| 0 <= i < p.len() && p[i] == sources[n] && !fresh[i];
                    assert(sources[i] == sources[n]);
                }
            }
        }
    }
}

/// Dropping the last source only needs the freshness flags before it.
proof fn lemma_prefix_fresh(sources: Seq<Seq<char>>, fresh: Seq<bool>, project_root: Seq<char>)
    requires
        fresh.len() == sources.len(),
        sources.len() > 0,
    ensures
        stale_of(sources.drop_last(), fresh) == stale_of(sources.drop_last(), fresh.take(sources.len() - 1)),
        cached_objects_of(sources.drop_last(), fresh, project_root) == cached_objects_of(
            sources.drop_last(),
            fresh.take(sources.len() - 1),
            project_root,
        ),
{
    lemma_flags_prefix(sources.drop_last(), fresh, fresh.take(sources.len() - 1), project_root);
}

/// Only the first `sources.len()` flags count.
proof fn lemma_flags_prefix(sources: Seq<Seq<char>>, f1: Seq<bool>, f2: Seq<bool>, project_root: Seq<char>)
    requires
        sources.len() <= f1.len(),
        sources.len() <= f2.len(),
        forall|i: int| 0 <= i < sources.len() ==> f1[i] == f2[i],
    ensures
        stale_of(sources, f1) == stale_of(sources, f2),
        cached_objects_of(sources, f1, project_root) == cached_objects_of(sources, f2, project_root),
    decreases sources.len(),
{
    if sources.len() > 0 {
        lemma_flags_prefix(sources.drop_last(), f1, f2, project_root);
    }
}

// ───────────────────────────── response-file round trip ─────────────────────────────

/// The quoted body of an argument: `\` and `"` each preceded by `\`.
pub open spec fn rsp_body(a: Seq<char>) -> Seq<char>
    decreases a.len(),
{
    if a.len() == 0 {
        Seq::empty()
    } else if a[0] == '\\' {
        seq!['\\', '\\'] + rsp_body(a.drop_first())
    } else if a[0] == '"' {
        seq!['\\', '"'] + rsp_body(a.drop_first())
    } else {
        seq![a[0]] + rsp_body(a.drop_first())
    }
}

/// Reading a quoted body back: a `\` stands for the character after it.
pub open spec fn rsp_unescape(s: Seq<char>) -> Seq<char>
    decreases s.len(),
{
    if s.len() == 0 {
        Seq::empty()
    } else if s[0] == '\\' && s.len() >= 2 {
        seq![s[1]] + rsp_unescape(s.skip(2))
    } else {
        seq![s[0]] + rsp_unescape(s.drop_first())
    }
}

/// Escaping can be undone: an argument with a space, `\` or `"` is written
/// as a quote, its body with `\` and `"` escaped, and a quote, and reading
/// the body between the quotes gives the argument back; any other argument
/// is written as it is.
pub proof fn law_rsp_round_trip(arg: Seq<char>)
    ensures
        (has_char(arg, ' ') || has_char(arg, '\\') || has_char(arg, '"')) ==> {
            let e = rsp_escaped(arg);
            &&& e.len() >= 2
            &&& e[0] == '"'
            &&& e[e.len() - 1] == '"'
            &&& e.subrange(1, e.len() - 1) == rsp_body(arg)
            &&& rsp_unescape(e.subrange(1, e.len() - 1)) == arg
        },
        !(has_char(arg, ' ') || has_char(arg, '\\') || has_char(arg, '"')) ==> rsp_escaped(arg) == arg,
{
    lemma_two_pass_is_body(arg);
    lemma_unescape_body(arg);
    let e = rsp_escaped(arg);
    if has_char(arg, ' ') || has_char(arg, '\\') || has_char(arg, '"') {
        assert(e.subrange(1, e.len() - 1) =~= rsp_body(arg));
    }
}

/// Replacing a one-character pattern distributes over concatenation.
proof fn lemma_replace1_concat(x: Seq<char>, y: Seq<char>, c: char, to: Seq<char>)
    ensures
        replace_all(x + y, seq![c], to) == replace_all(x, seq![c], to) + replace_all(y, seq![c], to),
    decreases x.len(),
{
    if x.len() == 0 {
        assert(x + y =~= y);
    } else {
        let xy = x + y;
        assert(has_prefix(xy, seq![c]) == (xy[0] == c)) by {
            if xy[0] == c {
                assert(xy.subrange(0, 1) =~= seq![c]);
            }
            if has_prefix(xy, seq![c]) {
                assert(xy.subrange(0, 1)[0] == xy[0]);
            }
        }
        assert(has_prefix(x, seq![c]) == (x[0] == c)) by {
            if x[0] == c {
                assert(x.subrange(0, 1) =~= seq![c]);
            }
            if has_prefix(x, seq![c]) {
                assert(x.subrange(0, 1)[0] == x[0]);
            }
        }
        assert(xy.skip(1) =~= x.skip(1) + y);
        assert(xy.drop_first() =~= x.drop_first() + y);
        assert(x.skip(1) =~= x.drop_first());
        lemma_replace1_concat(x.drop_first(), y, c, to);
        if x[0] == c {
            assert(replace_all(xy, seq![c], to) == to + replace_all(xy.skip(1), seq![c], to));
        } else {
            assert(replace_all(xy, seq![c], to) == seq![xy[0]] + replace_all(xy.drop_first(), seq![c], to));
        }
    }
}

/// Replacing in a text without the character changes nothing.
proof fn lemma_replace1_absent(x: Seq<char>, c: char, to: Seq<char>)
    requires
        forall|i: int| 0 <= i < x.len() ==> x[i] != c,
    ensures
        replace_all(x, seq![c], to) == x,
    decreases x.len(),
{
    if x.len() > 0 {
        assert(!has_prefix(x, seq![c])) by {
            if has_prefix(x, seq![c]) {
                assert(x.subrange(0, 1)[0] == x[0]);
            }
        }
        lemma_replace1_absent(x.drop_first(), c, to);
        assert(x =~= seq![x[0]] + x.drop_first());
    }
}

/// The two replacements of `rsp_escaped` give `rsp_body`.
proof fn lemma_two_pass_is_body(a: Seq<char>)
    ensures
        replace_all(replace_all(a, seq!['\\'], seq!['\\', '\\']), seq!['"'], seq!['\\', '"']) == rsp_body(a),
    decreases a.len(),
{
    let bs = seq!['\\'];
    let q = seq!['"'];
    if a.len() > 0 {
        let rest = a.drop_first();
        lemma_two_pass_is_body(rest);
        let head = seq![a[0]];
        assert(a =~= head + rest);
        lemma_replace1_concat(head, rest, '\\', seq!['\\', '\\']);
        let h1 = replace_all(head, bs, seq!['\\', '\\']);
        if a[0] == '\\' {
            assert(head.subrange(0, 1) =~= bs);
            assert(has_prefix(head, bs));
            assert(head.skip(1) =~= Seq::<char>::empty());
            assert(replace_all(head.skip(1), bs, seq!['\\', '\\']) == head.skip(1));
            assert(h1 == seq!['\\', '\\'] + replace_all(head.skip(1), bs, seq!['\\', '\\']));
            assert(h1 =~= seq!['\\', '\\']);
        } else {
            lemma_replace1_absent(head, '\\', seq!['\\', '\\']);
        }
        lemma_replace1_concat(h1, replace_all(rest, bs, seq!['\\', '\\']), '"', seq!['\\', '"']);
        if a[0] == '"' {
            assert(h1 == head);
            assert(h1.subrange(0, 1) =~= q);
            assert(has_prefix(h1, q));
            assert(h1.skip(1) =~= Seq::<char>::empty());
            assert(replace_all(h1.skip(1), q, seq!['\\', '"']) == h1.skip(1));
            assert(replace_all(h1, q, seq!['\\', '"']) == seq!['\\', '"'] + replace_all(h1.skip(1), q, seq!['\\', '"']));
            assert(replace_all(h1, q, seq!['\\', '"']) =~= seq!['\\', '"']);
        } else {
            lemma_replace1_absent(h1, '"', seq!['\\', '"']);
        }
    }
}

/// Reading back the body gives the argument.
proof fn lemma_unescape_body(a: Seq<char>)
    ensures
        rsp_unescape(rsp_body(a)) == a,
    decreases a.len(),
{
    if a.len() > 0 {
        let rest = a.drop_first();
        lemma_unescape_body(rest);
        let b = rsp_body(a);
        if a[0] == '\\' || a[0] == '"' {
            assert(b.skip(2) =~= rsp_body(rest));
        } else {
            assert(b.drop_first() =~= rsp_body(rest));
        }
        assert(a =~= seq![a[0]] + rest);
    }
}

/// The source files of a list are its C and C++ files: each is one of them,
/// every one of them is listed (itself or the same path named earlier), and
/// no two name the same path.
pub proof fn law_source_files(paths: Seq<Seq<char>>)
    ensures
        forall|p: Seq<char>|
            #[trigger] source_files(paths).contains(p) ==> paths.contains(p) && (is_c_path(p) || is_cpp_path(p)),
        forall|i: int|
            0 <= i < paths.len() && (is_c_path(#[trigger] paths[i]) || is_cpp_path(paths[i])) ==> has_path(
                source_files(paths),
                paths[i],
            ),
        distinct_paths(source_files(paths)),
    decreases paths.len(),
{
    if paths.len() > 0 {
        let q = paths.drop_last();
        law_source_files(q);
        let rest = source_files(q);
        let x = paths.last();
        let r = source_files(paths);
        assert(paths =~= q.push(x));
        let pushed = (is_c_path(x) || is_cpp_path(x)) && !has_path(rest, x);
        assert forall|p: Seq<char>| #[trigger] r.contains(p) implies paths.contains(p) && (is_c_path(p) || is_cpp_path(
            p,
        )) by {
            lemma_push_has(q, x, p);
            lemma_push_has(rest, x, p);
        }
        assert forall|i: int| 0 <= i < paths.len() && (is_c_path(#[trigger] paths[i]) || is_cpp_path(paths[i])) implies has_path(
            r,
            paths[i],
        ) by {
            if i < q.len() {
                assert(q[i] == paths[i]);
                let k = choose|k: int| 0 <= k < rest.len() && #[trigger] path_key(rest[k]) == path_key(q[i]);
                if pushed {
                    assert(r[k] == rest[k]);
                }
                assert(path_key(r[k]) == path_key(paths[i]));
            } else if pushed {
                assert(path_key(r[rest.len() as int]) == path_key(paths[i]));
            } else {
                let k = choose|k: int| 0 <= k < rest.len() && #[trigger] path_key(rest[k]) == path_key(x);
                assert(path_key(r[k]) == path_key(paths[i]));
            }
        }
        if pushed {
            assert forall|i: int, j: int| 0 <= i < j < r.len() implies path_key(#[trigger] r[i]) != path_key(
                #[trigger] r[j],
            ) by {
                if j == rest.len() {
                    assert(r[i] == rest[i]);
                    assert(r[j] == x);
                } else {
                    assert(r[i] == rest[i] && r[j] == rest[j]);
                }
            }
        }
    }
}

/// A project's sources are the C and C++ files under `src/` when there is
/// at least one, otherwise those directly in the root: each source is one
/// of those files, every one of them is listed (itself or the same path
/// named earlier), and no two name the same path.
pub proof fn law_project_sources(src_files: Option<Seq<Seq<char>>>, root_files: Seq<Seq<char>>)
    ensures
        ({
            let r = project_sources(src_files, root_files);
            let from_src = match src_files {
                Some(f) => exists|i: int| 0 <= i < f.len() && (is_c_path(#[trigger] f[i]) || is_cpp_path(f[i])),
                None => false,
            };
            let pool = if from_src { src_files->0 } else { root_files };
            &&& forall|p: Seq<char>| #[trigger] r.contains(p) ==> pool.contains(p) && (is_c_path(p) || is_cpp_path(p))
            &&& forall|i: int|
                0 <= i < pool.len() && (is_c_path(#[trigger] pool[i]) || is_cpp_path(pool[i])) ==> has_path(r, pool[i])
            &&& distinct_paths(r)
        }),
{
    law_source_files(root_files);
    match src_files {
        Some(f) => {
            law_source_files(f);
            let from_src = exists|i: int| 0 <= i < f.len() && (is_c_path(#[trigger] f[i]) || is_cpp_path(f[i]));
            if from_src {
                let i = choose|i: int| 0 <= i < f.len() && (is_c_path(#[trigger] f[i]) || is_cpp_path(f[i]));
                assert(has_path(source_files(f), f[i]));
            } else {
                if source_files(f).len() > 0 {
                    assert(source_files(f).contains(source_files(f)[0]));
                    let p = source_files(f)[0];
                    let k = choose|k: int| 0 <= k < f.len() && f[k] == p;
                    assert(is_c_path(f[k]) || is_cpp_path(f[k]));
                }
            }
        },
        None => {},
    }
}

/// Membership after appending.
proof fn lemma_push_has(s: Seq<Seq<char>>, x: Seq<char>, y: Seq<char>)
    ensures
        s.push(x).contains(y) == (s.contains(y) || y == x),
{
    if s.push(x).contains(y) {
        let k = choose|k: int| 0 <= k < s.push(x).len() && s.push(x)[k] == y;
        if k < s.len() {
            assert(s[k] == y);
        }
    }
    if s.contains(y) {
        let k = choose|k: int| 0 <= k < s.len() && s[k] == y;
        assert(s.push(x)[k] == y);
    }
    if y == x {
        assert(s.push(x)[s.len() as int] == y);
    }
}

} // verus!
