//! Compiler / linker flag system with dependency inheritance, platform
//! conditions, per-target flags, sanitizers, LTO and PIC support.

use vstd::prelude::*;

use crate::config::HutConfig;
use crate::package::{assoc_find, assoc_get, BuildConfig, PlatformBuildConfig, ResolvedDependency};
use crate::text::{
    chars_of, concat, concat3, eq_lit, extension, extension_chars, has_prefix, has_substring,
    owned, seq_eq, skip_chars, str_eq, string_of, trim, trim_chars, views, contains, starts_with,
    has_path, path_key, path_listed,
};

verus! {

/// Collected compiler and linker flags ready to be passed to the toolchain.
#[derive(Clone, Debug)]
pub struct Flags {
    pub cflags: Vec<String>,
    pub ldflags: Vec<String>,
}

// ───────────────────────────── specification ─────────────────────────────

/// Number of UTF-8 bytes of a text.
pub open spec fn byte_len(s: Seq<char>) -> nat {
    vstd::utf8::encode_utf8(s).len()
}

/// Sum over a list of arguments of their byte length plus one separator.
pub open spec fn args_len(s: Seq<String>) -> nat
    decreases s.len(),
{
    if s.len() == 0 {
        0
    } else {
        args_len(s.drop_last()) + byte_len(s.last()@) + 1
    }
}

/// Keep the first occurrence of every element, in order.
pub open spec fn dedup(s: Seq<Seq<char>>) -> Seq<Seq<char>>
    decreases s.len(),
{
    if s.len() == 0 {
        s
    } else {
        let d = dedup(s.drop_last());
        if d.contains(s.last()) {
            d
        } else {
            d.push(s.last())
        }
    }
}

/// `-DKEY` for an empty value, `-DKEY=VALUE` otherwise.
pub open spec fn define_flag(key: Seq<char>, val: Seq<char>) -> Seq<char> {
    if val.len() == 0 {
        "-D"@ + key
    } else {
        "-D"@ + key + "="@ + val
    }
}

/// The define flags of a table of defines, in table order.
pub open spec fn define_flags(d: Seq<(String, String)>) -> Seq<Seq<char>> {
    d.map_values(|e: (String, String)| define_flag(e.0@, e.1@))
}

/// Each text of a list with a prefix.
pub open spec fn prefixed(p: Seq<char>, v: Seq<String>) -> Seq<Seq<char>> {
    v.map_values(|s: String| p + s@)
}

/// The compiler flags every dependency carries, in dependency order.
pub open spec fn deps_cflags(deps: Seq<ResolvedDependency>) -> Seq<Seq<char>>
    decreases deps.len(),
{
    if deps.len() == 0 {
        Seq::empty()
    } else {
        deps_cflags(deps.drop_last()) + views(deps.last().cflags@)
    }
}

/// The linker flags every dependency carries, in dependency order.
pub open spec fn deps_ldflags(deps: Seq<ResolvedDependency>) -> Seq<Seq<char>>
    decreases deps.len(),
{
    if deps.len() == 0 {
        Seq::empty()
    } else {
        deps_ldflags(deps.drop_last()) + views(deps.last().ldflags@)
    }
}

/// The library paths of the dependencies, dependency by dependency.
pub open spec fn deps_lib_paths(deps: Seq<ResolvedDependency>) -> Seq<Seq<char>>
    decreases deps.len(),
{
    if deps.len() == 0 {
        Seq::empty()
    } else {
        deps_lib_paths(deps.drop_last()) + views(deps.last().library_paths@)
    }
}

/// `-L` for each of `lps` that names no path (see `same_path`) among
/// `prior` or earlier in `lps`.
pub open spec fn new_lib_flags(prior: Seq<Seq<char>>, lps: Seq<Seq<char>>) -> Seq<Seq<char>>
    decreases lps.len(),
{
    if lps.len() == 0 {
        Seq::empty()
    } else {
        let r = new_lib_flags(prior, lps.drop_last());
        if has_path(prior + lps.drop_last(), lps.last()) {
            r
        } else {
            r.push("-L"@ + lps.last())
        }
    }
}

/// Dependency by dependency: `-L` for every library path not named before
/// (as paths compare), then `-l` for every library.
pub open spec fn deps_link_flags(deps: Seq<ResolvedDependency>) -> Seq<Seq<char>>
    decreases deps.len(),
{
    if deps.len() == 0 {
        Seq::empty()
    } else {
        deps_link_flags(deps.drop_last()) + new_lib_flags(
            deps_lib_paths(deps.drop_last()),
            views(deps.last().library_paths@),
        ) + prefixed("-l"@, deps.last().link_libraries@)
    }
}

/// Some dependency passes `-pthread` among its compiler flags.
pub open spec fn needs_pthread(deps: Seq<ResolvedDependency>) -> bool {
    exists|i: int, j: int|
        0 <= i < deps.len() && 0 <= j < deps[i].cflags@.len() && deps[i].cflags@[j]@ == "-pthread"@
}

/// The texts of an optional list.
pub open spec fn opt_list(v: Option<Vec<String>>) -> Seq<Seq<char>> {
    match v {
        Some(l) => views(l@),
        None => Seq::empty(),
    }
}

/// Compiler flags of the platform override for `os`.
pub open spec fn platform_cflags(b: BuildConfig, os: Seq<char>) -> Seq<Seq<char>> {
    match assoc_get(b.platform@, os) {
        Some(p) => views(p.cflags@) + define_flags(p.defines@),
        None => Seq::empty(),
    }
}

/// Linker flags of the platform override for `os`.
pub open spec fn platform_ldflags(b: BuildConfig, os: Seq<char>) -> Seq<Seq<char>> {
    match assoc_get(b.platform@, os) {
        Some(p) => views(p.ldflags@),
        None => Seq::empty(),
    }
}

/// Language of a source file by its extension: C++ (`Some(true)`), C
/// (`Some(false)`), or undecided.
pub open spec fn cpp_by_extension(path: Seq<char>) -> Option<bool> {
    match extension(path) {
        Some(e) => if e == "cpp"@ || e == "cxx"@ || e == "cc"@ || e == "C"@ || e == "c++"@ {
            Some(true)
        } else if e == "c"@ || e == "i"@ {
            Some(false)
        } else {
            None
        },
        None => None,
    }
}

/// Whether a file is compiled as C++: by its extension, else by the
/// project's language.
pub open spec fn compiles_as_cpp(cfg: HutConfig, src: Seq<char>) -> bool {
    match cpp_by_extension(src) {
        Some(b) => b,
        None => cfg.package.language@ == "c++"@ || cfg.package.language@ == "cpp"@,
    }
}

/// The full `-std=` value for a standard given in short or full form.
pub open spec fn normalized_std(std: Seq<char>, is_cpp: bool) -> Seq<char> {
    let s = trim(std);
    if has_prefix(s, seq!['c']) || has_prefix(s, seq!['g', 'n', 'u']) {
        if has_prefix(s, seq!['g', 'n', 'u']) && is_cpp && !has_substring(s, seq!['+', '+']) {
            seq!['g', 'n', 'u', '+', '+'] + s.skip(3)
        } else {
            s
        }
    } else if is_cpp {
        seq!['c', '+', '+'] + s
    } else {
        seq!['c'] + s
    }
}

/// The language-standard flag for a source file (at most one).
pub open spec fn std_flags(cfg: HutConfig, src: Seq<char>) -> Seq<Seq<char>> {
    if compiles_as_cpp(cfg, src) {
        match cfg.build.cpp_standard {
            Some(s) => if s@.len() > 0 {
                seq!["-std="@ + normalized_std(s@, true)]
            } else {
                Seq::empty()
            },
            None => Seq::empty(),
        }
    } else if cfg.build.c_standard@.len() > 0 {
        seq!["-std="@ + normalized_std(cfg.build.c_standard@, false)]
    } else {
        Seq::empty()
    }
}

/// Optimization, debug and warning flags.
pub open spec fn profile_flags(b: BuildConfig, release: bool) -> Seq<Seq<char>> {
    (if release { seq!["-O"@ + b.opt_level@] } else { seq!["-O0"@] })
        + (if b.debug && !release { seq!["-g"@] } else { Seq::empty() })
        + (if b.warnings { seq!["-Wall"@, "-Wextra"@] } else { Seq::empty() })
}

/// The compiler flags inherited or configured before the standard flags:
/// dependencies, project extras, platform, per-target ("*" then the target),
/// include paths.
pub open spec fn head_cflags(
    cfg: HutConfig,
    deps: Seq<ResolvedDependency>,
    target: Seq<char>,
    includes: Seq<String>,
    os: Seq<char>,
) -> Seq<Seq<char>> {
    let b = cfg.build;
    deps_cflags(deps) + views(b.extra_cflags@) + platform_cflags(b, os)
        + opt_list(assoc_get(b.target_cflags@, "*"@))
        + opt_list(assoc_get(b.target_cflags@, target))
        + prefixed("-I"@, includes)
}

/// The standard compiler flags: language standard, optimization, debug,
/// warnings, defines, sanitizers, LTO, PIC and `-pthread`.
pub open spec fn tail_cflags(
    cfg: HutConfig,
    deps: Seq<ResolvedDependency>,
    src: Seq<char>,
    release: bool,
) -> Seq<Seq<char>> {
    let b = cfg.build;
    std_flags(cfg, src)
        + profile_flags(b, release)
        + define_flags(b.defines@)
        + prefixed("-fsanitize="@, b.sanitizers@)
        + switch_cflags(b, deps)
}

/// The compiler flags before de-duplication, in precedence order.
pub open spec fn raw_cflags(
    cfg: HutConfig,
    deps: Seq<ResolvedDependency>,
    target: Seq<char>,
    includes: Seq<String>,
    src: Seq<char>,
    release: bool,
    os: Seq<char>,
) -> Seq<Seq<char>> {
    head_cflags(cfg, deps, target, includes, os) + tail_cflags(cfg, deps, src, release)
}

/// The linker flags before de-duplication, in precedence order.
pub open spec fn raw_ldflags(
    cfg: HutConfig,
    deps: Seq<ResolvedDependency>,
    target: Seq<char>,
    os: Seq<char>,
) -> Seq<Seq<char>> {
    let b = cfg.build;
    deps_ldflags(deps) + views(b.extra_ldflags@) + platform_ldflags(b, os)
        + opt_list(assoc_get(b.target_ldflags@, "*"@))
        + opt_list(assoc_get(b.target_ldflags@, target))
        + deps_link_flags(deps)
        + prefixed("-fsanitize="@, b.sanitizers@)
        + (if b.lto { seq!["-flto"@] } else { Seq::empty() })
        + (if needs_pthread(deps) { seq!["-pthread"@] } else { Seq::empty() })
}

// ───────────────────────────── helpers ─────────────────────────────

/// Append one flag.
fn push_flag(v: &mut Vec<String>, f: String)
    ensures
        views(final(v)@) == views(old(v)@).push(f@),
{
    v.push(f);
    assert(views(v@) =~= views(old(v)@).push(f@));
}

/// Append copies of a list of flags.
fn extend_flags(v: &mut Vec<String>, src: &Vec<String>)
    ensures
        views(final(v)@) == views(old(v)@) + views(src@),
{
    let mut i: usize = 0;
    while i < src.len()
        invariant
            i <= src@.len(),
            views(v@) == views(old(v)@) + views(src@.take(i as int)),
        decreases src@.len() - i,
    {
        push_flag(v, src[i].clone());
        assert(views(src@.take(i + 1)) =~= views(src@.take(i as int)).push(src@[i as int]@));
        i = i + 1;
    }
    assert(src@.take(src@.len() as int) == src@);
}

/// Append a prefixed copy of every element of a list.
fn extend_prefixed(v: &mut Vec<String>, prefix: &str, src: &Vec<String>)
    ensures
        views(final(v)@) == views(old(v)@) + prefixed(prefix@, src@),
{
    let mut i: usize = 0;
    while i < src.len()
        invariant
            i <= src@.len(),
            views(v@) == views(old(v)@) + prefixed(prefix@, src@.take(i as int)),
        decreases src@.len() - i,
    {
        push_flag(v, concat(prefix, src[i].as_str()));
        assert(prefixed(prefix@, src@.take(i + 1)) =~= prefixed(prefix@, src@.take(i as int)).push(
            prefix@ + src@[i as int]@,
        ));
        i = i + 1;
    }
    assert(src@.take(src@.len() as int) == src@);
}

/// Append `-L` for each of `lps` not yet among the `seen` paths (as paths
/// compare), adding each to `seen`.
fn add_lib_flags(v: &mut Vec<String>, seen: &mut Vec<String>, lps: &Vec<String>)
    ensures
        views(final(v)@) == views(old(v)@) + new_lib_flags(views(old(seen)@), views(lps@)),
        views(final(seen)@) == views(old(seen)@) + views(lps@),
{
    let ghost prior = views(seen@);
    let mut k: usize = 0;
    assert(views(lps@).take(0) =~= Seq::<Seq<char>>::empty());
    assert(views(seen@) =~= prior + views(lps@).take(0));
    while k < lps.len()
        invariant
            k <= lps@.len(),
            prior == views(old(seen)@),
            views(v@) == views(old(v)@) + new_lib_flags(prior, views(lps@).take(k as int)),
            views(seen@) == prior + views(lps@).take(k as int),
        decreases lps@.len() - k,
    {
        let ghost t = views(lps@).take(k + 1);
        assert(t.drop_last() == views(lps@).take(k as int));
        assert(t.last() == lps@[k as int]@);
        if !path_listed(seen, lps[k].as_str()) {
            push_flag(v, concat("-L", lps[k].as_str()));
        }
        let ghost before = views(seen@);
        seen.push(lps[k].clone());
        assert(views(seen@) =~= before.push(lps@[k as int]@));
        assert(prior + t =~= (prior + views(lps@).take(k as int)).push(lps@[k as int]@));
        k = k + 1;
    }
    assert(views(lps@).take(lps@.len() as int) == views(lps@));
}

/// The define flag for one define.
fn define_flag_of(key: &str, val: &str) -> (r: String)
    ensures
        r@ == define_flag(key@, val@),
{
    if val.unicode_len() == 0 {
        concat("-D", key)
    } else {
        let mut r = concat3("-D", key, "=");
        r.append(val);
        r
    }
}

/// Append the define flags of a table of defines.
fn extend_defines(v: &mut Vec<String>, d: &Vec<(String, String)>)
    ensures
        views(final(v)@) == views(old(v)@) + define_flags(d@),
{
    let mut i: usize = 0;
    while i < d.len()
        invariant
            i <= d@.len(),
            views(v@) == views(old(v)@) + define_flags(d@.take(i as int)),
        decreases d@.len() - i,
    {
        push_flag(v, define_flag_of(d[i].0.as_str(), d[i].1.as_str()));
        assert(define_flags(d@.take(i + 1)) =~= define_flags(d@.take(i as int)).push(
            define_flag(d@[i as int].0@, d@[i as int].1@),
        ));
        i = i + 1;
    }
    assert(d@.take(d@.len() as int) == d@);
}

/// Append the list stored under `key` in a per-target table, if any.
fn extend_target(v: &mut Vec<String>, t: &Vec<(String, Vec<String>)>, key: &str)
    ensures
        views(final(v)@) == views(old(v)@) + opt_list(assoc_get(t@, key@)),
{
    match assoc_find(t, key) {
        Some(i) => extend_flags(v, &t[i].1),
        None => {
            assert(views(v@) =~= views(old(v)@) + opt_list(assoc_get(t@, key@)));
        },
    }
}

/// Whether any dependency passes `-pthread` among its compiler flags.
fn any_pthread(deps: &[ResolvedDependency]) -> (r: bool)
    ensures
        r == needs_pthread(deps@),
{
    let mut i: usize = 0;
    while i < deps.len()
        invariant
            i <= deps@.len(),
            forall|a: int, b: int|
                0 <= a < i && 0 <= b < deps@[a].cflags@.len() ==> deps@[a].cflags@[b]@
                    != "-pthread"@,
        decreases deps@.len() - i,
    {
        let fl = &deps[i].cflags;
        let mut j: usize = 0;
        while j < fl.len()
            invariant
                i < deps@.len(),
                *fl == deps@[i as int].cflags,
                j <= fl@.len(),
                forall|b: int| 0 <= b < j ==> fl@[b]@ != "-pthread"@,
            decreases fl@.len() - j,
        {
            if str_eq(fl[j].as_str(), "-pthread") {
                return true;
            }
            j = j + 1;
        }
        i = i + 1;
    }
    false
}

/// Deduplicate a list while preserving the order of first occurrences.
pub fn dedup_ordered(v: Vec<String>) -> (r: Vec<String>)
    ensures
        views(r@) == dedup(views(v@)),
{
    let mut r: Vec<String> = Vec::new();
    let mut i: usize = 0;
    while i < v.len()
        invariant
            i <= v@.len(),
            views(r@) == dedup(views(v@.take(i as int))),
        decreases v@.len() - i,
    {
        let ghost pre = views(v@.take(i as int));
        assert(views(v@.take(i + 1)) =~= pre.push(v@[i as int]@));
        assert(views(v@.take(i + 1)).drop_last() =~= pre);
        let mut found = false;
        let mut j: usize = 0;
        while j < r.len()
            invariant
                j <= r@.len(),
                i < v@.len(),
                found == exists|k: int| 0 <= k < j && r@[k]@ == v@[i as int]@,
            decreases r@.len() - j,
        {
            if str_eq(r[j].as_str(), v[i].as_str()) {
                found = true;
            }
            j = j + 1;
        }
        proof {
            if found {
                let k = choose|k: int| 0 <= k < r@.len() && r@[k]@ == v@[i as int]@;
                assert(views(r@)[k] == v@[i as int]@);
            } else {
                assert forall|k: int| 0 <= k < views(r@).len() implies views(r@)[k] != v@[i as int]@ by {
                    assert(views(r@)[k] == r@[k]@);
                }
            }
        }
        if !found {
            push_flag(&mut r, v[i].clone());
        }
        i = i + 1;
    }
    assert(v@.take(v@.len() as int) == v@);
    r
}

// ───────────────────────────── language detection ─────────────────────────────

/// Returns `Some(true)` if the file extension indicates C++, `Some(false)` for
/// C, `None` if the extension is ambiguous (header files, no extension).
pub fn is_cpp_source(path: &str) -> (r: Option<bool>)
    ensures
        r == cpp_by_extension(path@),
{
    let p = chars_of(path);
    match extension_chars(&p) {
        Some(e) => {
            if eq_lit(&e, "cpp") || eq_lit(&e, "cxx") || eq_lit(&e, "cc") || eq_lit(&e, "C")
                || eq_lit(&e, "c++") {
                Some(true)
            } else if eq_lit(&e, "c") || eq_lit(&e, "i") {
                Some(false)
            } else {
                None
            }
        },
        None => None,
    }
}

/// Normalize a standard version string into the full `-std=` flag value.
///
/// Shorthand ("11", "17", "20", "23") expands to "c11", "c++20", etc. by
/// language; full forms pass through, except that "gnu17" in C++ becomes
/// "gnu++17".
pub fn normalize_std(std: &str, is_cpp: bool) -> (r: String)
    ensures
        r@ == normalized_std(std@, is_cpp),
{
    let raw = chars_of(std);
    let s = trim_chars(&raw);
    let c_lit = chars_of("c");
    let gnu_lit = chars_of("gnu");
    let pp_lit = chars_of("++");
    proof {
        reveal_strlit("c");
        reveal_strlit("gnu");
        reveal_strlit("++");
        assert(c_lit@ =~= seq!['c']);
        assert(gnu_lit@ =~= seq!['g', 'n', 'u']);
        assert(pp_lit@ =~= seq!['+', '+']);
    }
    if starts_with(&s, &c_lit) || starts_with(&s, &gnu_lit) {
        if starts_with(&s, &gnu_lit) && is_cpp && !contains(&s, &pp_lit) {
            let rest = skip_chars(&s, 3);
            let mut out = chars_of("gnu++");
            proof {
                reveal_strlit("gnu++");
                assert(out@ =~= seq!['g', 'n', 'u', '+', '+']);
            }
            let mut k: usize = 0;
            let ghost base = out@;
            while k < rest.len()
                invariant
                    k <= rest@.len(),
                    out@ == base + rest@.take(k as int),
                decreases rest@.len() - k,
            {
                out.push(rest[k]);
                assert(rest@.take(k + 1) == rest@.take(k as int).push(rest@[k as int]));
                k = k + 1;
            }
            assert(rest@.take(rest@.len() as int) == rest@);
            string_of(&out)
        } else {
            string_of(&s)
        }
    } else {
        let mut out = if is_cpp {
            let o = chars_of("c++");
            proof {
                reveal_strlit("c++");
                assert(o@ =~= seq!['c', '+', '+']);
            }
            o
        } else {
            c_lit
        };
        let ghost base = out@;
        let mut k: usize = 0;
        while k < s.len()
            invariant
                k <= s@.len(),
                out@ == base + s@.take(k as int),
            decreases s@.len() - k,
        {
            out.push(s[k]);
            assert(s@.take(k + 1) == s@.take(k as int).push(s@[k as int]));
            k = k + 1;
        }
        assert(s@.take(s@.len() as int) == s@);
        string_of(&out)
    }
}

impl Flags {
    /// Total length of all arguments, each counted in bytes plus one
    /// separator (used for response-file threshold detection).
    pub fn total_len(&self) -> (r: usize)
        requires
            args_len(self.cflags@) + args_len(self.ldflags@) <= usize::MAX,
        ensures
            r == args_len(self.cflags@) + args_len(self.ldflags@),
    {
        let a = list_len(&self.cflags);
        let b = list_len(&self.ldflags);
        a + b
    }
}

impl Flags {
    /// Whether the total length (as `total_len` counts it) is above `limit`.
    pub fn exceeds(&self, limit: usize) -> (r: bool)
        ensures
            r == (args_len(self.cflags@) + args_len(self.ldflags@) > limit),
    {
        match prefix_within(&self.cflags, limit) {
            None => {
                proof {
                    lemma_args_len_nonneg(self.ldflags@);
                }
                true
            },
            Some(a) => match prefix_within(&self.ldflags, limit - a) {
                None => true,
                Some(_) => false,
            },
        }
    }
}

/// The length of a list (see `args_len`) when it is at most `limit`.
fn prefix_within(v: &Vec<String>, limit: usize) -> (r: Option<usize>)
    ensures
        match r {
            Some(n) => n == args_len(v@) && n <= limit,
            None => args_len(v@) > limit,
        },
{
    let mut total: usize = 0;
    let mut i: usize = 0;
    while i < v.len()
        invariant
            i <= v@.len(),
            total <= limit,
            total == args_len(v@.take(i as int)),
        decreases v@.len() - i,
    {
        assert(v@.take(i + 1).drop_last() == v@.take(i as int));
        assert(v@.take(i + 1).last() == v@[i as int]);
        let n = v[i].as_str().as_bytes().len();
        assert(n == byte_len(v@[i as int]@));
        if n >= limit - total {
            proof {
                lemma_args_len_prefix(v@, i as int + 1);
            }
            return None;
        }
        total = total + n + 1;
        i = i + 1;
    }
    assert(v@.take(v@.len() as int) == v@);
    Some(total)
}

/// Lengths are never negative.
proof fn lemma_args_len_nonneg(v: Seq<String>)
    ensures
        args_len(v) >= 0,
{
}

/// Sum of byte lengths plus one per element.
fn list_len(v: &Vec<String>) -> (r: usize)
    requires
        args_len(v@) <= usize::MAX,
    ensures
        r == args_len(v@),
{
    let mut total: usize = 0;
    let mut i: usize = 0;
    while i < v.len()
        invariant
            i <= v@.len(),
            args_len(v@) <= usize::MAX,
            total == args_len(v@.take(i as int)),
        decreases v@.len() - i,
    {
        assert(v@.take(i + 1).drop_last() == v@.take(i as int));
        proof {
            lemma_args_len_prefix(v@, i as int + 1);
        }
        let n = v[i].as_str().len();
        total = total + n + 1;
        i = i + 1;
    }
    assert(v@.take(v@.len() as int) == v@);
    total
}

/// The length of a prefix never exceeds the length of the whole list.
proof fn lemma_args_len_prefix(v: Seq<String>, k: int)
    requires
        0 <= k <= v.len(),
    ensures
        args_len(v.take(k)) <= args_len(v),
    decreases v.len() - k,
{
    if k < v.len() {
        lemma_args_len_prefix(v, k + 1);
        assert(v.take(k + 1).drop_last() == v.take(k));
    } else {
        assert(v.take(k) == v);
    }
}

// ───────────────────────────── collection ─────────────────────────────

/// The compiler flags before the standard ones (see `head_cflags`).
fn build_head_cflags(
    config: &HutConfig,
    deps: &[ResolvedDependency],
    target_name: &str,
    include_paths: &[String],
    os: &str,
) -> (r: Vec<String>)
    ensures
        views(r@) == head_cflags(*config, deps@, target_name@, include_paths@, os@),
{
    let b = &config.build;
    let mut cflags: Vec<String> = Vec::new();
    let mut i: usize = 0;
    while i < deps.len()
        invariant
            i <= deps@.len(),
            views(cflags@) == deps_cflags(deps@.take(i as int)),
        decreases deps@.len() - i,
    {
        assert(deps@.take(i + 1).drop_last() == deps@.take(i as int));
        extend_flags(&mut cflags, &deps[i].cflags);
        i = i + 1;
    }
    assert(deps@.take(deps@.len() as int) == deps@);
    extend_flags(&mut cflags, &b.extra_cflags);
    let ghost c2 = views(cflags@);
    match assoc_find(&b.platform, os) {
        Some(k) => {
            let plat: &PlatformBuildConfig = &b.platform[k].1;
            extend_flags(&mut cflags, &plat.cflags);
            extend_defines(&mut cflags, &plat.defines);
        },
        None => {},
    }
    assert(views(cflags@) =~= c2 + platform_cflags(*b, os@));
    extend_target(&mut cflags, &b.target_cflags, "*");
    extend_target(&mut cflags, &b.target_cflags, target_name);
    let inc_vec = include_list(include_paths);
    extend_prefixed(&mut cflags, "-I", &inc_vec);
    cflags
}

/// Append the language-standard flag for a source file.
fn push_std_flag(cflags: &mut Vec<String>, config: &HutConfig, source_file: &str)
    ensures
        views(final(cflags)@) == views(old(cflags)@) + std_flags(*config, source_file@),
{
    let b = &config.build;
    let ext_cpp = is_cpp_source(source_file);
    let is_cpp = match ext_cpp {
        Some(x) => x,
        None => str_eq(config.package.language.as_str(), "c++") || str_eq(
            config.package.language.as_str(),
            "cpp",
        ),
    };
    if is_cpp {
        match &b.cpp_standard {
            Some(cs) => {
                if cs.as_str().unicode_len() > 0 {
                    let n = normalize_std(cs.as_str(), true);
                    push_flag(cflags, concat("-std=", n.as_str()));
                }
            },
            None => {},
        }
    } else {
        if b.c_standard.as_str().unicode_len() > 0 {
            let n = normalize_std(b.c_standard.as_str(), false);
            push_flag(cflags, concat("-std=", n.as_str()));
        }
    }
    assert(views(cflags@) =~= views(old(cflags)@) + std_flags(*config, source_file@));
}

/// Append the optimization, debug and warning flags.
fn push_profile_flags(cflags: &mut Vec<String>, b: &BuildConfig, release: bool)
    ensures
        views(final(cflags)@) == views(old(cflags)@) + profile_flags(*b, release),
{
    if release {
        push_flag(cflags, concat("-O", b.opt_level.as_str()));
    } else {
        push_flag(cflags, owned("-O0"));
    }
    if b.debug && !release {
        push_flag(cflags, owned("-g"));
    }
    if b.warnings {
        push_flag(cflags, owned("-Wall"));
        push_flag(cflags, owned("-Wextra"));
    }
    assert(views(cflags@) =~= views(old(cflags)@) + profile_flags(*b, release));
}

/// The trailing switches: `-flto`, `-fPIC`, `-pthread`.
pub open spec fn switch_cflags(b: BuildConfig, deps: Seq<ResolvedDependency>) -> Seq<Seq<char>> {
    (if b.lto { seq!["-flto"@] } else { Seq::empty() })
        + (if b.pic { seq!["-fPIC"@] } else { Seq::empty() })
        + (if needs_pthread(deps) { seq!["-pthread"@] } else { Seq::empty() })
}

/// Append `-flto`, `-fPIC` and `-pthread` as configured.
fn push_switch_cflags(cflags: &mut Vec<String>, b: &BuildConfig, deps: &[ResolvedDependency])
    ensures
        views(final(cflags)@) == views(old(cflags)@) + switch_cflags(*b, deps@),
{
    if b.lto {
        push_flag(cflags, owned("-flto"));
    }
    if b.pic {
        push_flag(cflags, owned("-fPIC"));
    }
    if any_pthread(deps) {
        push_flag(cflags, owned("-pthread"));
    }
    assert(views(cflags@) =~= views(old(cflags)@) + switch_cflags(*b, deps@));
}

/// Append the standard compiler flags (see `tail_cflags`).
fn push_tail_cflags(
    cflags: &mut Vec<String>,
    config: &HutConfig,
    deps: &[ResolvedDependency],
    source_file: &str,
    release: bool,
)
    ensures
        views(final(cflags)@) == views(old(cflags)@) + tail_cflags(*config, deps@, source_file@, release),
{
    let b = &config.build;
    let ghost g0 = views(cflags@);
    push_std_flag(cflags, config, source_file);
    let ghost g1 = views(cflags@);
    push_profile_flags(cflags, b, release);
    let ghost g2 = views(cflags@);
    extend_defines(cflags, &b.defines);
    let ghost g3 = views(cflags@);
    extend_prefixed(cflags, "-fsanitize=", &b.sanitizers);
    let ghost g4 = views(cflags@);
    push_switch_cflags(cflags, b, deps);
    assert(views(cflags@) =~= views(old(cflags)@) + tail_cflags(*config, deps@, source_file@, release));
}

/// The linker flags before de-duplication (see `raw_ldflags`).
fn build_ldflags(
    config: &HutConfig,
    deps: &[ResolvedDependency],
    target_name: &str,
    os: &str,
) -> (r: Vec<String>)
    ensures
        views(r@) == raw_ldflags(*config, deps@, target_name@, os@),
{
    let b = &config.build;
    let mut ldflags: Vec<String> = Vec::new();
    let mut i: usize = 0;
    while i < deps.len()
        invariant
            i <= deps@.len(),
            views(ldflags@) == deps_ldflags(deps@.take(i as int)),
        decreases deps@.len() - i,
    {
        assert(deps@.take(i + 1).drop_last() == deps@.take(i as int));
        extend_flags(&mut ldflags, &deps[i].ldflags);
        i = i + 1;
    }
    assert(deps@.take(deps@.len() as int) == deps@);
    extend_flags(&mut ldflags, &b.extra_ldflags);
    let ghost l2 = views(ldflags@);
    match assoc_find(&b.platform, os) {
        Some(k) => {
            extend_flags(&mut ldflags, &b.platform[k].1.ldflags);
        },
        None => {},
    }
    assert(views(ldflags@) =~= l2 + platform_ldflags(*b, os@));
    extend_target(&mut ldflags, &b.target_ldflags, "*");
    extend_target(&mut ldflags, &b.target_ldflags, target_name);
    let ghost l6 = views(ldflags@);
    let mut seen: Vec<String> = Vec::new();
    let mut d: usize = 0;
    assert(views(seen@) =~= deps_lib_paths(deps@.take(0)));
    while d < deps.len()
        invariant
            d <= deps@.len(),
            views(ldflags@) == l6 + deps_link_flags(deps@.take(d as int)),
            views(seen@) == deps_lib_paths(deps@.take(d as int)),
        decreases deps@.len() - d,
    {
        assert(deps@.take(d + 1).drop_last() == deps@.take(d as int));
        assert(deps@.take(d + 1).last() == deps@[d as int]);
        add_lib_flags(&mut ldflags, &mut seen, &deps[d].library_paths);
        extend_prefixed(&mut ldflags, "-l", &deps[d].link_libraries);
        d = d + 1;
    }
    extend_prefixed(&mut ldflags, "-fsanitize=", &b.sanitizers);
    let ghost l8 = views(ldflags@);
    if b.lto {
        push_flag(&mut ldflags, owned("-flto"));
    }
    if any_pthread(deps) {
        push_flag(&mut ldflags, owned("-pthread"));
    }
    assert(views(ldflags@) =~= l8 + (if b.lto { seq!["-flto"@] } else { Seq::empty() }) + (if needs_pthread(
        deps@,
    ) {
        seq!["-pthread"@]
    } else {
        Seq::empty()
    }));
    assert(views(ldflags@) =~= raw_ldflags(*config, deps@, target_name@, os@));
    ldflags
}

/// Collect all compiler and linker flags for a build of `target_name`
/// compiling `source_file` on operating system `os`.
///
/// Flags are merged with increasing precedence: dependency flags, project
/// extra flags, platform flags, per-target flags (`"*"` then the target),
/// include paths, library paths and libraries, then the standard flags
/// (`-std`, `-O`, `-g`, warnings, defines, sanitizers, `-flto`, `-fPIC`,
/// `-pthread`). Each list keeps only the first occurrence of every flag.
pub fn collect_flags(
    config: &HutConfig,
    deps: &[ResolvedDependency],
    target_name: &str,
    include_paths: &[String],
    source_file: &str,
    release: bool,
    os: &str,
) -> (r: Flags)
    ensures
        views(r.cflags@) == dedup(
            raw_cflags(*config, deps@, target_name@, include_paths@, source_file@, release, os@),
        ),
        views(r.ldflags@) == dedup(raw_ldflags(*config, deps@, target_name@, os@)),
{
    let mut cflags = build_head_cflags(config, deps, target_name, include_paths, os);
    push_tail_cflags(&mut cflags, config, deps, source_file, release);
    let ldflags = build_ldflags(config, deps, target_name, os);
    Flags { cflags: dedup_ordered(cflags), ldflags: dedup_ordered(ldflags) }
}

/// Copy a slice of paths into a list.
fn include_list(v: &[String]) -> (r: Vec<String>)
    ensures
        r@ == v@,
{
    let mut r: Vec<String> = Vec::new();
    let mut i: usize = 0;
    while i < v.len()
        invariant
            i <= v@.len(),
            r@ == v@.take(i as int),
        decreases v@.len() - i,
    {
        r.push(v[i].clone());
        assert(v@.take(i + 1) == v@.take(i as int).push(v@[i as int]));
        i = i + 1;
    }
    assert(v@.take(v@.len() as int) == v@);
    r
}

// ───────────────────────────── laws ─────────────────────────────

/// Deduplication keeps each flag once, keeps exactly the flags of the input,
/// and keeps the first occurrences in their order: a flag `x` before a flag
/// `y` in the result first occurs before `y` first occurs in the input.
pub proof fn law_dedup(s: Seq<Seq<char>>)
    ensures
        forall|i: int, j: int| 0 <= i < j < dedup(s).len() ==> #[trigger] dedup(s)[i] != #[trigger] dedup(s)[j],
        forall|x: Seq<char>| #[trigger] dedup(s).contains(x) <==> s.contains(x),
        forall|i: int, j: int|
            #![trigger dedup(s)[i], dedup(s)[j]]
            0 <= i && i < j && j < dedup(s).len() ==> first_pos(s, dedup(s)[i]) < first_pos(s, dedup(s)[j]),
{
    lemma_dedup_members(s);
    lemma_dedup_order(s);
}

/// Deduplication keeps each element once and exactly the elements of the
/// input.
proof fn lemma_dedup_members(s: Seq<Seq<char>>)
    ensures
        forall|i: int, j: int| 0 <= i < j < dedup(s).len() ==> #[trigger] dedup(s)[i] != #[trigger] dedup(s)[j],
        forall|x: Seq<char>| #[trigger] dedup(s).contains(x) <==> s.contains(x),
    decreases s.len(),
{
    if s.len() > 0 {
        let p = s.drop_last();
        lemma_dedup_members(p);
        let d = dedup(p);
        let x = s.last();
        assert(s =~= p.push(x));
        assert forall|y: Seq<char>| #[trigger] dedup(s).contains(y) <==> s.contains(y) by {
            lemma_contains_push(p, x, y);
            lemma_contains_push(d, x, y);
        }
        if !d.contains(x) {
            assert forall|i: int, j: int| 0 <= i < j < dedup(s).len() implies #[trigger] dedup(s)[i]
                != #[trigger] dedup(s)[j] by {
                if j == d.len() {
                    assert(d.contains(dedup(s)[i]));
                }
            }
        }
    }
}

/// Deduplication keeps first occurrences in their order.
proof fn lemma_dedup_order(s: Seq<Seq<char>>)
    ensures
        forall|i: int, j: int|
            #![trigger dedup(s)[i], dedup(s)[j]]
            0 <= i && i < j && j < dedup(s).len() ==> first_pos(s, dedup(s)[i]) < first_pos(s, dedup(s)[j]),
    decreases s.len(),
{
    if s.len() > 0 {
        let p = s.drop_last();
        lemma_dedup_order(p);
        lemma_dedup_members(p);
        let d = dedup(p);
        let x = s.last();
        assert(s =~= p.push(x));
        assert forall|i: int, j: int|
            #![trigger dedup(s)[i], dedup(s)[j]]
            0 <= i && i < j && j < dedup(s).len() implies first_pos(s, dedup(s)[i]) < first_pos(s, dedup(s)[j]) by {
            assert(dedup(s)[i] == d[i]);
            assert(d.contains(d[i]));
            assert(p.contains(d[i]));
            p.index_of_first_ensures(d[i]);
            lemma_first_index_push(p, x, d[i]);
            if j < d.len() {
                assert(dedup(s)[j] == d[j]);
                assert(d.contains(d[j]));
                assert(p.contains(d[j]));
                lemma_first_index_push(p, x, d[j]);
            } else {
                assert(!d.contains(x));
                assert(!p.contains(x));
                lemma_first_index_absent_push(p, x);
                assert(dedup(s)[j] == x);
            }
        }
    }
}

/// The first position of `x` in `s`, or -1.
pub open spec fn first_pos(s: Seq<Seq<char>>, x: Seq<char>) -> int {
    match s.index_of_first(x) {
        Some(a) => a,
        None => -1,
    }
}

/// Membership after appending.
proof fn lemma_contains_push(s: Seq<Seq<char>>, x: Seq<char>, y: Seq<char>)
    ensures
        s.push(x).contains(y) == (s.contains(y) || y == x),
{
    if s.push(x).contains(y) {
        let k = choose|k: int| 0 <= k < s.push(x).len() && s.push(x)[k] == y;
        if k < s.len() {
            assert(s[k] == y);
        }
    }
    if s.contains(y) {
        let k = choose|k: int| 0 <= k < s.len() && s[k] == y;
        assert(s.push(x)[k] == y);
    }
    if y == x {
        assert(s.push(x)[s.len() as int] == y);
    }
}

/// Appending keeps the first position of what was there.
proof fn lemma_first_index_push(s: Seq<Seq<char>>, x: Seq<char>, y: Seq<char>)
    requires
        s.contains(y),
    ensures
        s.push(x).index_of_first(y) == s.index_of_first(y),
{
    s.index_of_first_ensures(y);
    s.push(x).index_of_first_ensures(y);
    let a = s.index_of_first(y)->0;
    assert(s.push(x)[a] == y);
    assert(s.push(x).contains(y));
    let b = s.push(x).index_of_first(y)->0;
    if b < a {
        assert(s[b] == y);
    }
}

/// An element appended to a sequence without it first occurs at the end.
proof fn lemma_first_index_absent_push(s: Seq<Seq<char>>, x: Seq<char>)
    requires
        !s.contains(x),
    ensures
        s.push(x).index_of_first(x) == Some(s.len() as int),
{
    assert(s.push(x)[s.len() as int] == x);
    assert(s.push(x).contains(x));
    s.push(x).index_of_first_ensures(x);
    let b = s.push(x).index_of_first(x)->0;
    if b < s.len() {
        assert(s[b] == x);
    }
}

/// Dependencies pass their flags on: every compiler and linker flag of every
/// dependency, `-L` for each of its library paths (or for the same path
/// named earlier) and `-l` for each of its libraries end up among the flags
/// of a build, and `-pthread` is added to
/// both lists when some dependency compiles with it.
pub proof fn law_flag_inheritance(
    cfg: HutConfig,
    deps: Seq<ResolvedDependency>,
    target: Seq<char>,
    includes: Seq<String>,
    src: Seq<char>,
    release: bool,
    os: Seq<char>,
)
    ensures
        ({
            let c = dedup(raw_cflags(cfg, deps, target, includes, src, release, os));
            let l = dedup(raw_ldflags(cfg, deps, target, os));
            &&& forall|i: int, j: int|
                0 <= i < deps.len() && 0 <= j < deps[i].cflags@.len() ==> c.contains(#[trigger] deps[i].cflags@[j]@)
            &&& forall|i: int, j: int|
                0 <= i < deps.len() && 0 <= j < deps[i].ldflags@.len() ==> l.contains(#[trigger] deps[i].ldflags@[j]@)
            &&& forall|i: int, j: int|
                0 <= i < deps.len() && 0 <= j < deps[i].library_paths@.len() ==> lib_flag_for(
                    l,
                    #[trigger] deps[i].library_paths@[j]@,
                )
            &&& forall|i: int, j: int|
                0 <= i < deps.len() && 0 <= j < deps[i].link_libraries@.len() ==> l.contains(
                    "-l"@ + #[trigger] deps[i].link_libraries@[j]@,
                )
            &&& needs_pthread(deps) ==> c.contains("-pthread"@) && l.contains("-pthread"@)
        }),
{
    let rc = raw_cflags(cfg, deps, target, includes, src, release, os);
    let rl = raw_ldflags(cfg, deps, target, os);
    lemma_dedup_members(rc);
    lemma_dedup_members(rl);
    let b = cfg.build;
    let hc = head_cflags(cfg, deps, target, includes, os);
    let lt = views(b.extra_ldflags@) + platform_ldflags(b, os) + opt_list(assoc_get(b.target_ldflags@, "*"@))
        + opt_list(assoc_get(b.target_ldflags@, target));
    let la = deps_ldflags(deps) + lt;
    let lb = la + deps_link_flags(deps);
    let lc = lb + prefixed("-fsanitize="@, b.sanitizers@) + (if b.lto { seq!["-flto"@] } else { Seq::empty() });
    assert(rl =~= lc + (if needs_pthread(deps) { seq!["-pthread"@] } else { Seq::empty() }));
    let hd = views(b.extra_cflags@) + platform_cflags(b, os) + opt_list(assoc_get(b.target_cflags@, "*"@))
        + opt_list(assoc_get(b.target_cflags@, target)) + prefixed("-I"@, includes);
    assert(hc =~= deps_cflags(deps) + hd);
    assert forall|i: int, j: int| 0 <= i < deps.len() && 0 <= j < deps[i].cflags@.len() implies dedup(rc).contains(
        #[trigger] deps[i].cflags@[j]@,
    ) by {
        lemma_deps_cflags_has(deps, i, j);
        lemma_contains_left(deps_cflags(deps), hd, deps[i].cflags@[j]@);
        lemma_contains_left(hc, tail_cflags(cfg, deps, src, release), deps[i].cflags@[j]@);
    }
    assert forall|i: int, j: int| 0 <= i < deps.len() && 0 <= j < deps[i].ldflags@.len() implies dedup(rl).contains(
        #[trigger] deps[i].ldflags@[j]@,
    ) by {
        let x = deps[i].ldflags@[j]@;
        lemma_deps_ldflags_has(deps, i, j);
        lemma_contains_left(deps_ldflags(deps), lt, x);
        lemma_contains_left(la, deps_link_flags(deps), x);
        lemma_contains_left(lb, prefixed("-fsanitize="@, b.sanitizers@), x);
        lemma_contains_left(lb + prefixed("-fsanitize="@, b.sanitizers@), (if b.lto { seq!["-flto"@] } else { Seq::empty() }), x);
        lemma_contains_left(lc, (if needs_pthread(deps) { seq!["-pthread"@] } else { Seq::empty() }), x);
    }
    assert forall|i: int, j: int| 0 <= i < deps.len() && 0 <= j < deps[i].library_paths@.len() implies lib_flag_for(
        dedup(rl),
        #[trigger] deps[i].library_paths@[j]@,
    ) by {
        let lpx = deps[i].library_paths@[j]@;
        lemma_lib_path_in(deps, i, j);
        lemma_link_flags_cover(deps, lpx);
        let y = choose|y: Seq<char>| #[trigger] path_key(y) == path_key(lpx) && deps_link_flags(deps).contains("-L"@ + y);
        let x = "-L"@ + y;
        lemma_contains_right(la, deps_link_flags(deps), x);
        lemma_contains_left(lb, prefixed("-fsanitize="@, b.sanitizers@), x);
        lemma_contains_left(lb + prefixed("-fsanitize="@, b.sanitizers@), (if b.lto { seq!["-flto"@] } else { Seq::empty() }), x);
        lemma_contains_left(lc, (if needs_pthread(deps) { seq!["-pthread"@] } else { Seq::empty() }), x);
        assert(dedup(rl).contains(x));
    }
    assert forall|i: int, j: int| 0 <= i < deps.len() && 0 <= j < deps[i].link_libraries@.len() implies dedup(
        rl,
    ).contains("-l"@ + #[trigger] deps[i].link_libraries@[j]@) by {
        let x = "-l"@ + deps[i].link_libraries@[j]@;
        lemma_link_libs_has(deps, i, j);
        lemma_contains_right(la, deps_link_flags(deps), x);
        lemma_contains_left(lb, prefixed("-fsanitize="@, b.sanitizers@), x);
        lemma_contains_left(lb + prefixed("-fsanitize="@, b.sanitizers@), (if b.lto { seq!["-flto"@] } else { Seq::empty() }), x);
        lemma_contains_left(lc, (if needs_pthread(deps) { seq!["-pthread"@] } else { Seq::empty() }), x);
    }
    if needs_pthread(deps) {
        let p = "-pthread"@;
        lemma_contains_right(lc, seq![p], p);
        let sw = switch_cflags(b, deps);
        let pre = (if b.lto { seq!["-flto"@] } else { Seq::empty() }) + (if b.pic { seq!["-fPIC"@] } else { Seq::empty() });
        assert(sw =~= pre + seq![p]);
        lemma_contains_right(pre, seq![p], p);
        let tc = tail_cflags(cfg, deps, src, release);
        let tpre = std_flags(cfg, src) + profile_flags(b, release) + define_flags(b.defines@) + prefixed(
            "-fsanitize="@,
            b.sanitizers@,
        );
        assert(tc =~= tpre + sw);
        lemma_contains_right(tpre, sw, p);
        lemma_contains_right(hc, tc, p);
    }
}

/// Membership in the left part of a concatenation.
proof fn lemma_contains_left(a: Seq<Seq<char>>, b: Seq<Seq<char>>, x: Seq<char>)
    requires
        a.contains(x),
    ensures
        (a + b).contains(x),
{
    let k = choose|k: int| 0 <= k < a.len() && a[k] == x;
    assert((a + b)[k] == x);
}

/// Membership in the right part of a concatenation.
proof fn lemma_contains_right(a: Seq<Seq<char>>, b: Seq<Seq<char>>, x: Seq<char>)
    requires
        b.contains(x),
    ensures
        (a + b).contains(x),
{
    let k = choose|k: int| 0 <= k < b.len() && b[k] == x;
    assert((a + b)[a.len() + k] == x);
}

/// A dependency's compiler flag is among those of all dependencies.
proof fn lemma_deps_cflags_has(deps: Seq<ResolvedDependency>, i: int, j: int)
    requires
        0 <= i < deps.len(),
        0 <= j < deps[i].cflags@.len(),
    ensures
        deps_cflags(deps).contains(deps[i].cflags@[j]@),
    decreases deps.len(),
{
    let x = deps[i].cflags@[j]@;
    if i == deps.len() - 1 {
        assert(views(deps.last().cflags@)[j] == x);
        lemma_contains_right(deps_cflags(deps.drop_last()), views(deps.last().cflags@), x);
    } else {
        assert(deps.drop_last()[i] == deps[i]);
        lemma_deps_cflags_has(deps.drop_last(), i, j);
        lemma_contains_left(deps_cflags(deps.drop_last()), views(deps.last().cflags@), x);
    }
}

/// A dependency's linker flag is among those of all dependencies.
proof fn lemma_deps_ldflags_has(deps: Seq<ResolvedDependency>, i: int, j: int)
    requires
        0 <= i < deps.len(),
        0 <= j < deps[i].ldflags@.len(),
    ensures
        deps_ldflags(deps).contains(deps[i].ldflags@[j]@),
    decreases deps.len(),
{
    let x = deps[i].ldflags@[j]@;
    if i == deps.len() - 1 {
        assert(views(deps.last().ldflags@)[j] == x);
        lemma_contains_right(deps_ldflags(deps.drop_last()), views(deps.last().ldflags@), x);
    } else {
        assert(deps.drop_last()[i] == deps[i]);
        lemma_deps_ldflags_has(deps.drop_last(), i, j);
        lemma_contains_left(deps_ldflags(deps.drop_last()), views(deps.last().ldflags@), x);
    }
}

/// `-l` of a library of a dependency is among the link flags.
proof fn lemma_link_libs_has(deps: Seq<ResolvedDependency>, i: int, j: int)
    requires
        0 <= i < deps.len(),
        0 <= j < deps[i].link_libraries@.len(),
    ensures
        deps_link_flags(deps).contains("-l"@ + deps[i].link_libraries@[j]@),
    decreases deps.len(),
{
    let d = deps.last();
    let before = deps_link_flags(deps.drop_last());
    let lp = new_lib_flags(deps_lib_paths(deps.drop_last()), views(d.library_paths@));
    let ll = prefixed("-l"@, d.link_libraries@);
    let x = "-l"@ + deps[i].link_libraries@[j]@;
    if i == deps.len() - 1 {
        assert(ll[j] == x);
        lemma_contains_right(before + lp, ll, x);
    } else {
        assert(deps.drop_last()[i] == deps[i]);
        lemma_link_libs_has(deps.drop_last(), i, j);
        lemma_contains_left(before, lp, x);
        lemma_contains_left(before + lp, ll, x);
    }
}

/// Some flag `-L` names the same path as `x` (see `same_path`).
pub open spec fn lib_flag_for(flags: Seq<Seq<char>>, x: Seq<char>) -> bool {
    exists|y: Seq<char>| #[trigger] path_key(y) == path_key(x) && flags.contains("-L"@ + y)
}

/// A library path of a dependency is among those of all dependencies.
proof fn lemma_lib_path_in(deps: Seq<ResolvedDependency>, i: int, j: int)
    requires
        0 <= i < deps.len(),
        0 <= j < deps[i].library_paths@.len(),
    ensures
        deps_lib_paths(deps).contains(deps[i].library_paths@[j]@),
    decreases deps.len(),
{
    let x = deps[i].library_paths@[j]@;
    if i == deps.len() - 1 {
        assert(views(deps.last().library_paths@)[j] == x);
        lemma_contains_right(deps_lib_paths(deps.drop_last()), views(deps.last().library_paths@), x);
    } else {
        assert(deps.drop_last()[i] == deps[i]);
        lemma_lib_path_in(deps.drop_last(), i, j);
        lemma_contains_left(deps_lib_paths(deps.drop_last()), views(deps.last().library_paths@), x);
    }
}

/// Each of `lps` names a path among `prior`, or has a `-L` flag for the
/// same path.
proof fn lemma_new_lib_flags_cover(prior: Seq<Seq<char>>, lps: Seq<Seq<char>>, k: int)
    requires
        0 <= k < lps.len(),
    ensures
        has_path(prior, lps[k]) || lib_flag_for(new_lib_flags(prior, lps), lps[k]),
    decreases lps.len(),
{
    let n = lps.drop_last();
    let r = new_lib_flags(prior, n);
    let res = new_lib_flags(prior, lps);
    let last = lps.last();
    if k < n.len() {
        lemma_new_lib_flags_cover(prior, n, k);
        assert(n[k] == lps[k]);
        if lib_flag_for(r, lps[k]) {
            let y = choose|y: Seq<char>| #[trigger] path_key(y) == path_key(lps[k]) && r.contains("-L"@ + y);
            if !has_path(prior + n, last) {
                lemma_contains_left(r, seq!["-L"@ + last], "-L"@ + y);
                assert(r + seq!["-L"@ + last] =~= r.push("-L"@ + last));
            }
            assert(res.contains("-L"@ + y));
        }
    } else {
        if !has_path(prior + n, last) {
            assert(res[r.len() as int] == "-L"@ + last);
            assert(path_key(last) == path_key(lps[k]));
        } else {
            let m = choose|m: int| 0 <= m < (prior + n).len() && #[trigger] path_key((prior + n)[m]) == path_key(last);
            if m < prior.len() {
                assert(path_key(prior[m]) == path_key(lps[k]));
            } else {
                let m2 = m - prior.len();
                assert((prior + n)[m] == n[m2]);
                assert(n[m2] == lps[m2]);
                lemma_new_lib_flags_cover(prior, n, m2);
                if has_path(prior, n[m2]) {
                    let q = choose|q: int| 0 <= q < prior.len() && #[trigger] path_key(prior[q]) == path_key(n[m2]);
                    assert(path_key(prior[q]) == path_key(lps[k]));
                } else {
                    let y = choose|y: Seq<char>| #[trigger] path_key(y) == path_key(n[m2]) && r.contains("-L"@ + y);
                    assert(path_key(y) == path_key(lps[k]));
                }
            }
        }
    }
}

/// Every library path of the dependencies has a `-L` flag for the same
/// path among their link flags.
proof fn lemma_link_flags_cover(deps: Seq<ResolvedDependency>, x: Seq<char>)
    requires
        deps_lib_paths(deps).contains(x),
    ensures
        lib_flag_for(deps_link_flags(deps), x),
    decreases deps.len(),
{
    let p = deps.drop_last();
    let pp = deps_lib_paths(p);
    let lv = views(deps.last().library_paths@);
    let before = deps_link_flags(p);
    let lp = new_lib_flags(pp, lv);
    let ll = prefixed("-l"@, deps.last().link_libraries@);
    let all = deps_link_flags(deps);
    assert(all == before + lp + ll);
    let idx = choose|idx: int| 0 <= idx < (pp + lv).len() && (pp + lv)[idx] == x;
    if idx < pp.len() {
        assert(pp[idx] == x);
        lemma_link_flags_cover(p, x);
        let y = choose|y: Seq<char>| #[trigger] path_key(y) == path_key(x) && before.contains("-L"@ + y);
        lemma_contains_left(before, lp, "-L"@ + y);
        lemma_contains_left(before + lp, ll, "-L"@ + y);
    } else {
        let k = idx - pp.len();
        assert(lv[k] == x);
        lemma_new_lib_flags_cover(pp, lv, k);
        if has_path(pp, x) {
            let q = choose|q: int| 0 <= q < pp.len() && #[trigger] path_key(pp[q]) == path_key(x);
            lemma_link_flags_cover(p, pp[q]);
            let y = choose|y: Seq<char>| #[trigger] path_key(y) == path_key(pp[q]) && before.contains("-L"@ + y);
            lemma_contains_left(before, lp, "-L"@ + y);
            lemma_contains_left(before + lp, ll, "-L"@ + y);
            assert(path_key(y) == path_key(x));
        } else {
            let y = choose|y: Seq<char>| #[trigger] path_key(y) == path_key(x) && lp.contains("-L"@ + y);
            lemma_contains_right(before, lp, "-L"@ + y);
            lemma_contains_left(before + lp, ll, "-L"@ + y);
        }
    }
}

/// The entry an association list holds first under `key` is what a lookup
/// finds.
proof fn lemma_assoc_first<V>(m: Seq<(String, V)>, key: Seq<char>, i: int)
    requires
        0 <= i < m.len(),
        m[i].0@ == key,
        forall|j: int| 0 <= j < i ==> (#[trigger] m[j]).0@ != key,
    ensures
        assoc_get(m, key) == Some(m[i].1),
    decreases i,
{
    if i > 0 {
        assert(m[0].0@ != key);
        let r = m.drop_first();
        assert forall|j: int| 0 <= j < i - 1 implies (#[trigger] r[j]).0@ != key by {
            assert(r[j] == m[j + 1]);
        }
        lemma_assoc_first(r, key, i - 1);
    }
}

/// The platform override named after the build's operating system applies:
/// each of its compiler flags, and each of its defines as `-DKEY` (empty
/// value) or `-DKEY=VALUE`, is among the compiler flags of the build, and
/// each of its linker flags among the linker flags.
pub proof fn law_platform_flags(
    cfg: HutConfig,
    deps: Seq<ResolvedDependency>,
    target: Seq<char>,
    includes: Seq<String>,
    src: Seq<char>,
    release: bool,
    os: Seq<char>,
    i: int,
)
    requires
        0 <= i < cfg.build.platform@.len(),
        cfg.build.platform@[i].0@ == os,
        forall|j: int| 0 <= j < i ==> (#[trigger] cfg.build.platform@[j]).0@ != os,
    ensures
        ({
            let p = cfg.build.platform@[i].1;
            let c = dedup(raw_cflags(cfg, deps, target, includes, src, release, os));
            let l = dedup(raw_ldflags(cfg, deps, target, os));
            &&& forall|j: int| 0 <= j < p.cflags@.len() ==> c.contains(#[trigger] p.cflags@[j]@)
            &&& forall|j: int| 0 <= j < p.ldflags@.len() ==> l.contains(#[trigger] p.ldflags@[j]@)
            &&& forall|j: int|
                0 <= j < p.defines@.len() ==> c.contains(
                    if (#[trigger] p.defines@[j]).1@.len() == 0 {
                        "-D"@ + p.defines@[j].0@
                    } else {
                        "-D"@ + p.defines@[j].0@ + "="@ + p.defines@[j].1@
                    },
                )
        }),
{
    let b = cfg.build;
    let p = b.platform@[i].1;
    lemma_assoc_first(b.platform@, os, i);
    let rc = raw_cflags(cfg, deps, target, includes, src, release, os);
    let rl = raw_ldflags(cfg, deps, target, os);
    lemma_dedup_members(rc);
    lemma_dedup_members(rl);
    let ca = deps_cflags(deps) + views(b.extra_cflags@);
    let pc = views(p.cflags@) + define_flags(p.defines@);
    let cb = opt_list(assoc_get(b.target_cflags@, "*"@)) + opt_list(assoc_get(b.target_cflags@, target))
        + prefixed("-I"@, includes) + tail_cflags(cfg, deps, src, release);
    assert(platform_cflags(b, os) == pc);
    assert(rc =~= (ca + pc) + cb);
    let la = deps_ldflags(deps) + views(b.extra_ldflags@);
    let pl = views(p.ldflags@);
    let lb = opt_list(assoc_get(b.target_ldflags@, "*"@)) + opt_list(assoc_get(b.target_ldflags@, target))
        + deps_link_flags(deps) + prefixed("-fsanitize="@, b.sanitizers@) + (if b.lto {
        seq!["-flto"@]
    } else {
        Seq::empty()
    }) + (if needs_pthread(deps) {
        seq!["-pthread"@]
    } else {
        Seq::empty()
    });
    assert(platform_ldflags(b, os) == pl);
    assert(rl =~= (la + pl) + lb);
    assert forall|j: int| 0 <= j < p.cflags@.len() implies dedup(rc).contains(#[trigger] p.cflags@[j]@) by {
        let x = p.cflags@[j]@;
        assert(views(p.cflags@)[j] == x);
        lemma_contains_left(views(p.cflags@), define_flags(p.defines@), x);
        lemma_contains_right(ca, pc, x);
        lemma_contains_left(ca + pc, cb, x);
    }
    assert forall|j: int| 0 <= j < p.ldflags@.len() implies dedup(rl).contains(#[trigger] p.ldflags@[j]@) by {
        let x = p.ldflags@[j]@;
        assert(pl[j] == x);
        lemma_contains_right(la, pl, x);
        lemma_contains_left(la + pl, lb, x);
    }
    assert forall|j: int| 0 <= j < p.defines@.len() implies dedup(rc).contains(
        if (#[trigger] p.defines@[j]).1@.len() == 0 {
            "-D"@ + p.defines@[j].0@
        } else {
            "-D"@ + p.defines@[j].0@ + "="@ + p.defines@[j].1@
        },
    ) by {
        let d = p.defines@[j];
        let x = if d.1@.len() == 0 { "-D"@ + d.0@ } else { "-D"@ + d.0@ + "="@ + d.1@ };
        assert(define_flags(p.defines@)[j] == define_flag(d.0@, d.1@));
        assert(define_flag(d.0@, d.1@) == x);
        lemma_contains_right(views(p.cflags@), define_flags(p.defines@), x);
        lemma_contains_right(ca, pc, x);
        lemma_contains_left(ca + pc, cb, x);
    }
}

/// Every define of the project is passed to the compiler: `-DKEY` for an
/// empty value, `-DKEY=VALUE` otherwise.
pub proof fn law_project_defines(
    cfg: HutConfig,
    deps: Seq<ResolvedDependency>,
    target: Seq<char>,
    includes: Seq<String>,
    src: Seq<char>,
    release: bool,
    os: Seq<char>,
)
    ensures
        ({
            let d = cfg.build.defines@;
            let c = dedup(raw_cflags(cfg, deps, target, includes, src, release, os));
            forall|j: int|
                0 <= j < d.len() ==> c.contains(
                    if (#[trigger] d[j]).1@.len() == 0 {
                        "-D"@ + d[j].0@
                    } else {
                        "-D"@ + d[j].0@ + "="@ + d[j].1@
                    },
                )
        }),
{
    let b = cfg.build;
    let rc = raw_cflags(cfg, deps, target, includes, src, release, os);
    lemma_dedup_members(rc);
    let hc = head_cflags(cfg, deps, target, includes, os);
    let ta = std_flags(cfg, src) + profile_flags(b, release);
    let df = define_flags(b.defines@);
    let tb = prefixed("-fsanitize="@, b.sanitizers@) + switch_cflags(b, deps);
    assert(rc =~= (hc + (ta + df)) + tb);
    assert forall|j: int| 0 <= j < b.defines@.len() implies dedup(rc).contains(
        if (#[trigger] b.defines@[j]).1@.len() == 0 {
            "-D"@ + b.defines@[j].0@
        } else {
            "-D"@ + b.defines@[j].0@ + "="@ + b.defines@[j].1@
        },
    ) by {
        let e = b.defines@[j];
        let x = if e.1@.len() == 0 { "-D"@ + e.0@ } else { "-D"@ + e.0@ + "="@ + e.1@ };
        assert(df[j] == define_flag(e.0@, e.1@));
        lemma_contains_right(ta, df, x);
        lemma_contains_right(hc, ta + df, x);
        lemma_contains_left(hc + (ta + df), tb, x);
    }
}

} // verus!
