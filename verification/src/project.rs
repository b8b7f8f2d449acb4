//! What the subcommands decide, apart from the files they read and write and
//! the programs they run: project paths, new-project choices and templates,
//! edits to the dependency tables and the lockfile, the binary `run`
//! starts, the files `fmt` formats and the compiler `lint` uses.

use vstd::prelude::*;

use crate::config::{is_template, template_base, HutConfig, PackageMeta};
use crate::error::HutError;
use crate::index::PackagesIndex;
use crate::lockfile::{LockedPackage, Lockfile};
use crate::package::{copy_table, BuildConfig, ResolvedDependency};
use crate::table::{has_key, sorted_keys, table_find, table_insert, table_remove, table_view};
use crate::text::{
    all_digits, chars_of, concat, eq_lit, str_eq, extension, extension_chars, find_char, first_index_of, is_digit,
    join_path, path_join, replace, replace_all, skip_chars, string_of, take_chars, trim, trim_chars, views,
};

verus! {

// ───────────────────────────── directories ─────────────────────────────

/// The user's cache directory (`dirs::cache_dir`); it depends on the
/// environment, so nothing is claimed of it.
#[verifier::external_body]
fn user_cache_dir() -> (r: Option<String>) {
    dirs::cache_dir().map(|p| p.to_string_lossy().to_string())
}

/// The user's home directory (`dirs::home_dir`); it depends on the
/// environment, so nothing is claimed of it.
#[verifier::external_body]
fn user_home_dir() -> (r: Option<String>) {
    dirs::home_dir().map(|p| p.to_string_lossy().to_string())
}

/// `<base>/hut/cache`, with `.hut` for a missing base.
pub open spec fn cache_path(base: Option<Seq<char>>) -> Seq<char> {
    let b = match base {
        Some(b) => b,
        None => ".hut"@,
    };
    path_join(path_join(b, "hut"@), "cache"@)
}

/// View of an optional string.
pub open spec fn opt_seq(o: Option<String>) -> Option<Seq<char>> {
    match o {
        Some(s) => Some(s@),
        None => None,
    }
}

/// The package cache under a cache directory (`.hut` when there is none).
pub fn cache_dir_under(base: Option<String>) -> (r: String)
    ensures
        r@ == cache_path(match base {
            Some(b) => Some(b@),
            None => None,
        }),
{
    let b = match base {
        Some(b) => b,
        None => String::from_str(".hut"),
    };
    let h = join_path(b.as_str(), "hut");
    join_path(h.as_str(), "cache")
}

/// The package cache: `<user cache dir>/hut/cache`.
pub fn cache_dir() -> (r: String)
    ensures
        exists|b: Option<Seq<char>>| r@ == cache_path(b),
{
    let base = user_cache_dir();
    let ghost bv = opt_seq(base);
    let r = cache_dir_under(base);
    assert(r@ == cache_path(bv));
    r
}

/// Where packages are kept: the package cache.
pub fn packages_dir() -> (r: String)
    ensures
        exists|b: Option<Seq<char>>| r@ == cache_path(b),
{
    cache_dir()
}

/// `<home>/.hut`, with `.` for a missing home.
pub open spec fn home_path(home: Option<Seq<char>>) -> Seq<char> {
    path_join(
        match home {
            Some(h) => h,
            None => "."@,
        },
        ".hut"@,
    )
}

/// hut's own directory: `<home>/.hut`.
pub fn hut_home() -> (r: String)
    ensures
        exists|h: Option<Seq<char>>| r@ == home_path(h),
{
    let home = user_home_dir();
    let ghost hv = opt_seq(home);
    let h = match home {
        Some(h) => h,
        None => String::from_str("."),
    };
    let r = join_path(h.as_str(), ".hut");
    assert(r@ == home_path(hv));
    r
}

/// The lockfile of the current project: `hut.lock`.
pub fn lockfile_path() -> (r: String)
    ensures
        r@ == "hut.lock"@,
{
    String::from_str("hut.lock")
}

/// Split a dependency spec `name@version` at its first `@`.
pub fn parse_dep_spec(spec: &str) -> (r: (String, Option<String>))
    ensures
        ({
            let i = first_index_of(spec@, '@');
            if i < 0 {
                r.0@ == spec@ && r.1 is None
            } else {
                r.0@ == spec@.take(i) && (r.1 matches Some(v) && v@ == spec@.skip(i + 1))
            }
        }),
{
    let s = chars_of(spec);
    match find_char(&s, '@') {
        Some(i) => {
            let n = s.len();
            assert(i < n);
            (string_of(&take_chars(&s, i)), Some(string_of(&skip_chars(&s, i + 1))))
        },
        None => (String::from_str(spec), None),
    }
}

// ───────────────────────────── new projects ─────────────────────────────

/// The name of a new project: the given name unless it is `.` or `./`,
/// else the current directory's name, else `my-project`.
pub open spec fn project_name(name: Option<Seq<char>>, cwd_name: Option<Seq<char>>) -> Seq<char> {
    match name {
        Some(n) if n != "."@ && n != "./"@ => n,
        _ => match cwd_name {
            Some(c) => c,
            None => "my-project"@,
        },
    }
}

/// The name of a new project (see `project_name`).
pub fn init_project_name(name: Option<&str>, cwd_name: Option<String>) -> (r: String)
    ensures
        r@ == project_name(
            match name {
                Some(n) => Some(n@),
                None => None,
            },
            match cwd_name {
                Some(c) => Some(c@),
                None => None,
            },
        ),
{
    match name {
        Some(n) => {
            let c = chars_of(n);
            if !eq_lit(&c, ".") && !eq_lit(&c, "./") {
                return String::from_str(n);
            }
        },
        None => {},
    }
    match cwd_name {
        Some(c) => c,
        None => String::from_str("my-project"),
    }
}

/// The value of a decimal numeral.
pub open spec fn digits_value(s: Seq<char>) -> nat
    decreases s.len(),
{
    if s.len() == 0 {
        0
    } else {
        digits_value(s.drop_last()) * 10 + ((s.last() as nat) - ('0' as nat)) as nat
    }
}

/// What `str::parse::<usize>` makes of a text: an optional `+` and at
/// least one digit, with a value that fits.
pub open spec fn parsed_usize(s: Seq<char>) -> Option<nat> {
    let d = if s.len() > 0 && s[0] == '+' { s.drop_first() } else { s };
    if d.len() > 0 && all_digits(d) && digits_value(d) <= usize::MAX {
        Some(digits_value(d))
    } else {
        None
    }
}

/// Parse an unsigned number (see `parsed_usize`).
pub fn parse_usize(s: &str) -> (r: Option<usize>)
    ensures
        match r {
            Some(n) => parsed_usize(s@) == Some(n as nat),
            None => parsed_usize(s@) is None,
        },
{
    let c = chars_of(s);
    let d = if c.len() > 0 && c[0] == '+' { skip_chars(&c, 1) } else { c };
    assert(d@ == (if s@.len() > 0 && s@[0] == '+' { s@.drop_first() } else { s@ }));
    if d.len() == 0 {
        return None;
    }
    let mut v: usize = 0;
    let mut i: usize = 0;
    while i < d.len()
        invariant
            i <= d@.len(),
            d@.len() > 0,
            d@ == (if s@.len() > 0 && s@[0] == '+' { s@.drop_first() } else { s@ }),
            all_digits(d@.take(i as int)),
            v == digits_value(d@.take(i as int)),
        decreases d@.len() - i,
    {
        let ch = d[i];
        assert(d@.take(i + 1).drop_last() == d@.take(i as int));
        assert(d@.take(i + 1).last() == ch);
        if !('0' <= ch && ch <= '9') {
            assert(!all_digits(d@)) by {
                assert(!is_digit(d@[i as int]));
            }
            return None;
        }
        let digit = (ch as u32 - '0' as u32) as usize;
        match v.checked_mul(10) {
            None => {
                proof {
                    if all_digits(d@) {
                        lemma_digits_grow(d@, i as int + 1);
                    }
                }
                return None;
            },
            Some(m) => match m.checked_add(digit) {
                None => {
                    proof {
                        if all_digits(d@) {
                            lemma_digits_grow(d@, i as int + 1);
                        }
                    }
                    return None;
                },
                Some(nv) => {
                    v = nv;
                },
            },
        }
        i = i + 1;
    }
    assert(d@.take(d@.len() as int) == d@);
    Some(v)
}

/// A longer all-digit prefix has at least the value of a shorter one.
proof fn lemma_digits_grow(d: Seq<char>, k: int)
    requires
        0 <= k <= d.len(),
        all_digits(d),
    ensures
        digits_value(d.take(k)) <= digits_value(d),
    decreases d.len() - k,
{
    if k < d.len() {
        lemma_digits_grow(d, k + 1);
        assert(d.take(k + 1).drop_last() == d.take(k));
        assert(is_digit(d[k]));
    } else {
        assert(d.take(k) == d);
    }
}

/// The source file extension of a new project.
pub open spec fn main_ext(is_cpp: bool) -> Seq<char> {
    if is_cpp { "cpp"@ } else { "c"@ }
}

/// The hello-world program of a new C project, with `{NAME}` for its name.
pub open spec fn hello_c() -> Seq<char> {
    "#include <stdio.h>\n\nint main() {\n    printf(\"Hello from {NAME}!\\n\");\n    return 0;\n}\n"@
}

/// The hello-world program of a new C++ project, with `{NAME}` for its name.
pub open spec fn hello_cpp() -> Seq<char> {
    "#include <iostream>\n\nint main() {\n    std::cout << \"Hello from {NAME}!\" << std::endl;\n    return 0;\n}\n"@
}

/// The main source of a new project called `name`.
pub open spec fn main_source_text(is_cpp: bool, name: Seq<char>) -> Seq<char> {
    replace_all(if is_cpp { hello_cpp() } else { hello_c() }, "{NAME}"@, name)
}

/// The hello-world main source of a new project: its extension and text.
pub fn main_source(is_cpp: bool, name: &str) -> (r: (String, String))
    ensures
        r.0@ == main_ext(is_cpp),
        r.1@ == main_source_text(is_cpp, name@),
{
    let template = if is_cpp {
        "#include <iostream>\n\nint main() {\n    std::cout << \"Hello from {NAME}!\" << std::endl;\n    return 0;\n}\n"
    } else {
        "#include <stdio.h>\n\nint main() {\n    printf(\"Hello from {NAME}!\\n\");\n    return 0;\n}\n"
    };
    let t = chars_of(template);
    let from = chars_of("{NAME}");
    proof {
        reveal_strlit("{NAME}");
    }
    let to = chars_of(name);
    let text = string_of(&replace(&t, &from, &to));
    (String::from_str(if is_cpp { "cpp" } else { "c" }), text)
}

/// The `.gitignore` of a new project.
pub fn gitignore_text() -> (r: String)
    ensures
        r@ == "target/\n*.o\n*.a\n*.so\n"@,
{
    String::from_str("target/\n*.o\n*.a\n*.so\n")
}

/// Apply the language answer of `hut init`: `2` selects C++ (and C++17
/// unless a C++ standard is set); anything else keeps C.
pub fn apply_language_choice(config: &mut HutConfig, answer: &str)
    ensures
        old(config).wf() ==> final(config).wf(),
        trim(answer@) == "2"@ ==> final(config).package.language@ == "c++"@ && (match old(config).build.cpp_standard {
            Some(s) => final(config).build.cpp_standard == Some(s),
            None => final(config).build.cpp_standard matches Some(s) && s@ == "c++17"@,
        }),
        trim(answer@) == "2"@ ==> *final(config) == (HutConfig {
            package: PackageMeta { language: final(config).package.language, ..old(config).package },
            build: BuildConfig { cpp_standard: final(config).build.cpp_standard, ..old(config).build },
            ..*old(config)
        }),
        trim(answer@) != "2"@ ==> *final(config) == *old(config),
{
    let t = trim_chars(&chars_of(answer));
    if eq_lit(&t, "2") {
        config.package.language = String::from_str("c++");
        if config.build.cpp_standard.is_none() {
            config.build.cpp_standard = Some(String::from_str("c++17"));
        }
    }
}

/// The compiler chosen by a numbered answer: the `n`-th available one for
/// `1 <= n <= available.len()`, none otherwise (automatic).
pub open spec fn chosen_available(answer: Seq<char>, available: Seq<Seq<char>>) -> Option<Seq<char>> {
    match parsed_usize(trim(answer)) {
        Some(n) => if 1 <= n <= available.len() { Some(available[n - 1]) } else { None },
        None => None,
    }
}

/// Apply a numbered compiler answer (see `chosen_available`).
pub fn apply_compiler_choice(config: &mut HutConfig, answer: &str, available: &Vec<String>)
    ensures
        old(config).wf() ==> final(config).wf(),
        match chosen_available(answer@, views(available@)) {
            Some(c) => final(config).build.compiler@ == c && *final(config) == (HutConfig {
                build: BuildConfig { compiler: final(config).build.compiler, ..old(config).build },
                ..*old(config)
            }),
            None => *final(config) == *old(config),
        },
{
    let t = string_of(&trim_chars(&chars_of(answer)));
    match parse_usize(t.as_str()) {
        Some(n) => {
            if n >= 1 && n <= available.len() {
                assert(views(available@)[n - 1] == available@[n - 1]@);
                config.build.compiler = available[n - 1].clone();
            }
        },
        None => {},
    }
}

/// What `hut build --compiler <c>` does with the setting.
#[derive(Debug)]
pub enum CompilerSetting {
    /// Store this compiler in the manifest.
    Use(String),
    /// Ask the user to pick among the available compilers.
    Prompt,
    /// `auto` was asked for and no compiler is available.
    NoCompiler,
}

/// The setting for a requested compiler: a named one as given; for `auto`,
/// the only available compiler, a prompt when several are available and the
/// terminal is interactive, else the first available one.
pub fn compiler_setting(requested: &str, available: &Vec<String>, interactive: bool) -> (r: CompilerSetting)
    ensures
        requested@ != "auto"@ ==> (r matches CompilerSetting::Use(c) && c@ == requested@),
        requested@ == "auto"@ ==> if available@.len() == 0 {
            r is NoCompiler
        } else if available@.len() == 1 || !interactive {
            r matches CompilerSetting::Use(c) && c@ == available@[0]@
        } else {
            r is Prompt
        },
{
    if !eq_lit(&chars_of(requested), "auto") {
        return CompilerSetting::Use(String::from_str(requested));
    }
    if available.len() == 0 {
        CompilerSetting::NoCompiler
    } else if available.len() == 1 || !interactive {
        CompilerSetting::Use(available[0].clone())
    } else {
        CompilerSetting::Prompt
    }
}

/// Add a workspace member unless it is one already; tells whether it was
/// added.
pub fn add_workspace_member(config: &mut HutConfig, member: String) -> (r: bool)
    ensures
        old(config).wf() ==> final(config).wf(),
        r == !views(old(config).workspace.members@).contains(member@),
        views(final(config).workspace.members@) == (if r {
            views(old(config).workspace.members@).push(member@)
        } else {
            views(old(config).workspace.members@)
        }),
        *final(config) == (HutConfig { workspace: final(config).workspace, ..*old(config) }),
{
    let mut i: usize = 0;
    while i < config.workspace.members.len()
        invariant
            i <= config.workspace.members@.len(),
            forall|k: int| 0 <= k < i ==> config.workspace.members@[k]@ != member@,
        decreases config.workspace.members@.len() - i,
    {
        if str_eq(config.workspace.members[i].as_str(), member.as_str()) {
            assert(views(config.workspace.members@)[i as int] == member@);
            return false;
        }
        i = i + 1;
    }
    assert(!views(config.workspace.members@).contains(member@)) by {
        if views(config.workspace.members@).contains(member@) {
            let k = choose|k: int| 0 <= k < views(config.workspace.members@).len() && views(config.workspace.members@)[k] == member@;
            assert(config.workspace.members@[k]@ == member@);
        }
    }
    let ghost before = config.workspace.members@;
    config.workspace.members.push(member);
    assert(views(config.workspace.members@) =~= views(before).push(member@));
    true
}

// ───────────────────────────── dependency tables ─────────────────────────────

/// A table of strings as a map of texts.
pub open spec fn str_map(t: Seq<(String, String)>) -> Map<Seq<char>, Seq<char>> {
    table_view(t).map_values(|v: String| v@)
}

/// The table `hut add` writes to: test dependencies for `--dev`, build
/// dependencies for `--build`, else regular ones.
pub open spec fn target_table(c: HutConfig, dev: bool, build: bool) -> Seq<(String, String)> {
    if dev {
        c.test_dependencies@
    } else if build {
        c.build_dependencies@
    } else {
        c.dependencies@
    }
}

/// Adding names one by one: the table, the names added, the names the index
/// lacks. A name already in the table is left alone; a new one gets
/// constraint `latest`.
pub open spec fn add_fold(t: Map<Seq<char>, Seq<char>>, idx: Map<Seq<char>, crate::index::PackageEntry>, names: Seq<
    Seq<char>,
>) -> (Map<Seq<char>, Seq<char>>, Seq<Seq<char>>, Seq<Seq<char>>)
    decreases names.len(),
{
    if names.len() == 0 {
        (t, Seq::empty(), Seq::empty())
    } else {
        let (m, a, e) = add_fold(t, idx, names.drop_last());
        let n = trim(names.last());
        if m.contains_key(n) {
            (m, a, e)
        } else if !idx.contains_key(n) {
            (m, a, e.push(n))
        } else {
            (m.insert(n, "latest"@), a.push(n), e)
        }
    }
}

/// Inserting into a table inserts into its text map.
proof fn lemma_str_map_insert(before: Seq<(String, String)>, after: Seq<(String, String)>, k: Seq<char>, v: String)
    requires
        table_view(after) == table_view(before).insert(k, v),
    ensures
        str_map(after) == str_map(before).insert(k, v@),
{
    assert(str_map(after) =~= str_map(before).insert(k, v@));
}

/// Add packages to the dependency table (see `add_fold`). When some name
/// is missing from the index the result is the error listing them;
/// otherwise the names added.
pub fn add_dependencies(config: &mut HutConfig, index: &PackagesIndex, pkgs: &Vec<String>, dev: bool, build: bool) -> (r:
    Result<Vec<String>, HutError>)
    requires
        sorted_keys(target_table(*old(config), dev, build)),
        index.wf(),
    ensures
        old(config).wf() ==> final(config).wf(),
        sorted_keys(target_table(*final(config), dev, build)),
        ({
            let (m, a, e) = add_fold(str_map(target_table(*old(config), dev, build)), index.entries(), views(pkgs@));
            &&& str_map(target_table(*final(config), dev, build)) == m
            &&& if e.len() > 0 {
                r matches Err(HutError::Other(msg)) && msg@ == "packages not found: "@ + crate::text::join_with(e, ", "@)
            } else {
                r matches Ok(added) && views(added@) == a
            }
        }),
        final(config).package == old(config).package,
        final(config).build == old(config).build,
        final(config).scripts == old(config).scripts,
        final(config).workspace == old(config).workspace,
        dev ==> final(config).dependencies == old(config).dependencies && final(config).build_dependencies
            == old(config).build_dependencies,
        !dev && build ==> final(config).dependencies == old(config).dependencies && final(config).test_dependencies
            == old(config).test_dependencies,
        !dev && !build ==> final(config).build_dependencies == old(config).build_dependencies
            && final(config).test_dependencies == old(config).test_dependencies,
{
    let mut table: Vec<(String, String)> = Vec::new();
    if dev {
        std::mem::swap(&mut table, &mut config.test_dependencies);
    } else if build {
        std::mem::swap(&mut table, &mut config.build_dependencies);
    } else {
        std::mem::swap(&mut table, &mut config.dependencies);
    }
    let ghost start = str_map(table@);
    let mut added: Vec<String> = Vec::new();
    let mut missing: Vec<String> = Vec::new();
    let mut i: usize = 0;
    while i < pkgs.len()
        invariant
            i <= pkgs@.len(),
            index.wf(),
            sorted_keys(table@),
            ({
                let (m, a, e) = add_fold(start, index.entries(), views(pkgs@).take(i as int));
                str_map(table@) == m && views(added@) == a && views(missing@) == e
            }),
        decreases pkgs@.len() - i,
    {
        let ghost t = views(pkgs@).take(i + 1);
        assert(t.drop_last() == views(pkgs@).take(i as int));
        assert(t.last() == pkgs@[i as int]@);
        let name = string_of(&trim_chars(&chars_of(pkgs[i].as_str())));
        match table_find(&table, name.as_str()) {
            Some(_) => {
                assert(has_key(table@, name@));
            },
            None => {
                if index.find(name.as_str()).is_none() {
                    let ghost before = missing@;
                    missing.push(name);
                    assert(views(missing@) =~= views(before).push(trim(pkgs@[i as int]@)));
                } else {
                    let ghost before = table@;
                    let ghost ba = added@;
                    let latest = String::from_str("latest");
                    table_insert(&mut table, name.clone(), latest);
                    proof {
                        lemma_str_map_insert(before, table@, name@, latest);
                    }
                    added.push(name);
                    assert(views(added@) =~= views(ba).push(trim(pkgs@[i as int]@)));
                }
            },
        }
        i = i + 1;
    }
    assert(views(pkgs@).take(pkgs@.len() as int) == views(pkgs@));
    if dev {
        config.test_dependencies = table;
    } else if build {
        config.build_dependencies = table;
    } else {
        config.dependencies = table;
    }
    if missing.len() > 0 {
        let list = join_strings(&missing, ", ");
        Err(HutError::Other(concat("packages not found: ", list.as_str())))
    } else {
        Ok(added)
    }
}

/// Join strings with a separator.
pub fn join_strings(parts: &Vec<String>, sep: &str) -> (r: String)
    ensures
        r@ == crate::text::join_with(views(parts@), sep@),
{
    let mut r = String::new();
    let mut i: usize = 0;
    while i < parts.len()
        invariant
            i <= parts@.len(),
            r@ == crate::text::join_with(views(parts@).take(i as int), sep@),
        decreases parts@.len() - i,
    {
        let ghost before = r@;
        let ghost t = views(parts@).take(i + 1);
        assert(t.drop_last() == views(parts@).take(i as int));
        assert(t.last() == parts@[i as int]@);
        if i > 0 {
            r.append(sep);
        }
        r.append(parts[i].as_str());
        proof {
            if i == 0 {
                assert(before.len() == 0);
                assert(r@ =~= t[0]);
            }
        }
        i = i + 1;
    }
    assert(views(parts@).take(parts@.len() as int) == views(parts@));
    r
}

/// Remove a dependency from the first table that has it (regular, build,
/// then test); tells whether one did.
pub fn remove_dependency(config: &mut HutConfig, pkg: &str) -> (r: bool)
    requires
        sorted_keys(old(config).dependencies@),
        sorted_keys(old(config).build_dependencies@),
        sorted_keys(old(config).test_dependencies@),
    ensures
        old(config).wf() ==> final(config).wf(),
        sorted_keys(final(config).dependencies@),
        sorted_keys(final(config).build_dependencies@),
        sorted_keys(final(config).test_dependencies@),
        final(config).package == old(config).package,
        final(config).build == old(config).build,
        final(config).scripts == old(config).scripts,
        final(config).workspace == old(config).workspace,
        r == (table_view(old(config).dependencies@).contains_key(pkg@) || table_view(
            old(config).build_dependencies@,
        ).contains_key(pkg@) || table_view(old(config).test_dependencies@).contains_key(pkg@)),
        if table_view(old(config).dependencies@).contains_key(pkg@) {
            table_view(final(config).dependencies@) == table_view(old(config).dependencies@).remove(pkg@)
                && final(config).build_dependencies == old(config).build_dependencies
                && final(config).test_dependencies == old(config).test_dependencies
        } else if table_view(old(config).build_dependencies@).contains_key(pkg@) {
            final(config).dependencies == old(config).dependencies && table_view(final(config).build_dependencies@)
                == table_view(old(config).build_dependencies@).remove(pkg@) && final(config).test_dependencies
                == old(config).test_dependencies
        } else {
            final(config).dependencies == old(config).dependencies && final(config).build_dependencies
                == old(config).build_dependencies && table_view(final(config).test_dependencies@) == table_view(
                old(config).test_dependencies@,
            ).remove(pkg@)
        },
{
    if table_find(&config.dependencies, pkg).is_some() {
        table_remove(&mut config.dependencies, pkg);
        return true;
    }
    if table_find(&config.build_dependencies, pkg).is_some() {
        table_remove(&mut config.build_dependencies, pkg);
        return true;
    }
    let found = table_find(&config.test_dependencies, pkg).is_some();
    table_remove(&mut config.test_dependencies, pkg);
    found
}

/// The names of a table.
pub open spec fn table_names(t: Seq<(String, String)>) -> Seq<Seq<char>> {
    t.map_values(|p: (String, String)| p.0@)
}

/// What `hut update` re-resolves: the named dependency (none when it is no
/// dependency), or every dependency.
pub fn update_targets(config: &HutConfig, pkg: Option<&str>) -> (r: Option<Vec<String>>)
    ensures
        match pkg {
            Some(p) => if has_key(config.dependencies@, p@) || has_key(config.build_dependencies@, p@) || has_key(
                config.test_dependencies@,
                p@,
            ) {
                r matches Some(v) && views(v@) == seq![p@]
            } else {
                r is None
            },
            None => r matches Some(v) && views(v@) == table_names(config.all_dependencies()),
        },
{
    match pkg {
        Some(p) => {
            if table_find(&config.dependencies, p).is_some() || table_find(&config.build_dependencies, p).is_some()
                || table_find(&config.test_dependencies, p).is_some() {
                let mut v: Vec<String> = Vec::new();
                v.push(String::from_str(p));
                assert(views(v@) =~= seq![p@]);
                Some(v)
            } else {
                None
            }
        },
        None => {
            let mut v: Vec<String> = Vec::new();
            push_names(&mut v, &config.dependencies);
            push_names(&mut v, &config.build_dependencies);
            push_names(&mut v, &config.test_dependencies);
            assert(table_names(config.all_dependencies()) =~= table_names(config.dependencies@) + table_names(
                config.build_dependencies@,
            ) + table_names(config.test_dependencies@));
            assert(views(v@) =~= views(Seq::<String>::empty()) + table_names(config.dependencies@) + table_names(
                config.build_dependencies@,
            ) + table_names(config.test_dependencies@));
            Some(v)
        },
    }
}

/// Append the names of a table.
fn push_names(v: &mut Vec<String>, t: &Vec<(String, String)>)
    ensures
        views(final(v)@) == views(old(v)@) + table_names(t@),
{
    let mut i: usize = 0;
    while i < t.len()
        invariant
            i <= t@.len(),
            views(v@) == views(old(v)@) + table_names(t@.take(i as int)),
        decreases t@.len() - i,
    {
        let ghost before = v@;
        v.push(t[i].0.clone());
        assert(views(v@) =~= views(before).push(t@[i as int].0@));
        assert(table_names(t@.take(i + 1)) =~= table_names(t@.take(i as int)).push(t@[i as int].0@));
        i = i + 1;
    }
    assert(t@.take(t@.len() as int) == t@);
}

/// The lockfile entry recorded for a resolved dependency: its version, its
/// repository as source and resolved URL (empty when unknown), no integrity
/// hash yet, and its package's dependencies.
pub open spec fn locks(dep: ResolvedDependency, lp: LockedPackage) -> bool {
    let repo = match dep.package.repository {
        Some(r) => r@,
        None => Seq::empty(),
    };
    &&& lp.name@ == dep.name@
    &&& lp.version@ == dep.version@
    &&& lp.source@ == repo
    &&& lp.integrity@.len() == 0
    &&& lp.resolved@ == repo
    &&& lp.dependencies@ == dep.package.dependencies@
}

/// The lockfile entry for a resolved dependency (see `locks`).
pub fn locked_package(dep: &ResolvedDependency) -> (r: LockedPackage)
    ensures
        locks(*dep, r),
{
    let repo = match &dep.package.repository {
        Some(r) => r.clone(),
        None => String::new(),
    };
    LockedPackage {
        name: dep.name.clone(),
        version: dep.version.clone(),
        source: repo.clone(),
        integrity: String::new(),
        resolved: repo,
        dependencies: copy_table(&dep.package.dependencies),
    }
}

/// Index of the last dependency named `k`, or -1.
pub open spec fn last_named(deps: Seq<ResolvedDependency>, k: Seq<char>) -> int
    decreases deps.len(),
{
    if deps.len() == 0 {
        -1
    } else if deps.last().name@ == k {
        deps.len() - 1
    } else {
        last_named(deps.drop_last(), k)
    }
}

/// Record every resolved dependency in the lockfile: a name resolved
/// several times keeps its last entry; other names stay as they were.
pub fn lock_resolved(lockfile: &mut Lockfile, deps: &Vec<ResolvedDependency>)
    requires
        old(lockfile).wf(),
    ensures
        final(lockfile).wf(),
        final(lockfile).version == old(lockfile).version,
        forall|k: Seq<char>|
            #![trigger final(lockfile).entries().contains_key(k)]
            if last_named(deps@, k) >= 0 {
                final(lockfile).entries().contains_key(k) && locks(
                    deps@[last_named(deps@, k)],
                    final(lockfile).entries()[k],
                )
            } else {
                final(lockfile).entries().contains_key(k) == old(lockfile).entries().contains_key(k) && (
                old(lockfile).entries().contains_key(k) ==> final(lockfile).entries()[k] == old(
                    lockfile,
                ).entries()[k])
            },
{
    let ghost e0 = lockfile.entries();
    let mut i: usize = 0;
    while i < deps.len()
        invariant
            i <= deps@.len(),
            lockfile.wf(),
            lockfile.version == old(lockfile).version,
            e0 == old(lockfile).entries(),
            forall|k: Seq<char>|
                #![trigger lockfile.entries().contains_key(k)]
                if last_named(deps@.take(i as int), k) >= 0 {
                    lockfile.entries().contains_key(k) && locks(
                        deps@[last_named(deps@.take(i as int), k)],
                        lockfile.entries()[k],
                    )
                } else {
                    lockfile.entries().contains_key(k) == e0.contains_key(k) && (e0.contains_key(k)
                        ==> lockfile.entries()[k] == e0[k])
                },
        decreases deps@.len() - i,
    {
        let ghost t = deps@.take(i + 1);
        assert(t.drop_last() == deps@.take(i as int));
        assert(t.last() == deps@[i as int]);
        let lp = locked_package(&deps[i]);
        let ghost before = lockfile.entries();
        lockfile.insert(lp);
        proof {
            assert forall|k: Seq<char>| #![trigger lockfile.entries().contains_key(k)]
                if last_named(t, k) >= 0 {
                    lockfile.entries().contains_key(k) && locks(deps@[last_named(t, k)], lockfile.entries()[k])
                } else {
                    lockfile.entries().contains_key(k) == e0.contains_key(k) && (e0.contains_key(k)
                        ==> lockfile.entries()[k] == e0[k])
                } by {
                if k == deps@[i as int].name@ {
                    assert(last_named(t, k) == i);
                } else {
                    assert(last_named(t, k) == last_named(deps@.take(i as int), k));
                    assert(before.contains_key(k) == lockfile.entries().contains_key(k));
                    if last_named(deps@.take(i as int), k) >= 0 {
                        assert(before.contains_key(k));
                    }
                }
            }
        }
        i = i + 1;
    }
    assert(deps@.take(deps@.len() as int) == deps@);
}

/// Drop the given names from the lockfile.
pub fn unlock_all(lockfile: &mut Lockfile, names: &Vec<String>)
    requires
        old(lockfile).wf(),
    ensures
        final(lockfile).wf(),
        final(lockfile).version == old(lockfile).version,
        forall|k: Seq<char>| #[trigger] final(lockfile).entries().contains_key(k) == (old(lockfile).entries().contains_key(k)
            && !views(names@).contains(k)),
        forall|k: Seq<char>| #[trigger] final(lockfile).entries().contains_key(k) ==> final(lockfile).entries()[k] == old(
            lockfile,
        ).entries()[k],
{
    let ghost e0 = lockfile.entries();
    let mut i: usize = 0;
    while i < names.len()
        invariant
            i <= names@.len(),
            lockfile.wf(),
            lockfile.version == old(lockfile).version,
            e0 == old(lockfile).entries(),
            forall|k: Seq<char>| #[trigger] lockfile.entries().contains_key(k) == (e0.contains_key(k) && !views(
                names@,
            ).take(i as int).contains(k)),
            forall|k: Seq<char>| #[trigger] lockfile.entries().contains_key(k) ==> lockfile.entries()[k] == e0[k],
        decreases names@.len() - i,
    {
        let ghost pre = views(names@).take(i as int);
        let ghost t = views(names@).take(i + 1);
        assert(t == pre.push(names@[i as int]@));
        lockfile.remove(names[i].as_str());
        proof {
            assert forall|k: Seq<char>| #[trigger] t.contains(k) == (pre.contains(k) || k == names@[i as int]@) by {
                if t.contains(k) {
                    let j = choose|j: int| 0 <= j < t.len() && t[j] == k;
                    if j < i {
                        assert(pre[j] == k);
                    }
                }
                if pre.contains(k) {
                    let j = choose|j: int| 0 <= j < pre.len() && pre[j] == k;
                    assert(t[j] == k);
                }
                if k == names@[i as int]@ {
                    assert(t[i as int] == k);
                }
            }
        }
        i = i + 1;
    }
    assert(views(names@).take(names@.len() as int) == views(names@));
}

// ───────────────────────────── run ─────────────────────────────

/// Whether the project has any dependency.
pub fn has_dependencies(config: &HutConfig) -> (r: bool)
    ensures
        r == (config.all_dependencies().len() > 0),
{
    config.dependencies.len() > 0 || config.build_dependencies.len() > 0 || config.test_dependencies.len() > 0
}

/// The target `hut run` runs: the one named, else the package.
pub fn run_target_name(config: &HutConfig, target: Option<&str>) -> (r: String)
    ensures
        r@ == (match target {
            Some(t) => t@,
            None => config.package.name@,
        }),
{
    match target {
        Some(t) => String::from_str(t),
        None => config.package.name.clone(),
    }
}

/// The script of a name, when the project defines one.
pub fn script_for(config: &HutConfig, name: &str) -> (r: Option<String>)
    ensures
        match r {
            Some(s) => has_key(config.scripts@, name@) && exists|i: int| 0 <= i < config.scripts@.len()
                && #[trigger] config.scripts@[i].0@ == name@ && config.scripts@[i].1@ == s@,
            None => !has_key(config.scripts@, name@),
        },
{
    match table_find(&config.scripts, name) {
        Some(i) => Some(config.scripts[i].1.clone()),
        None => None,
    }
}

/// A source that makes the JIT add the C++ include paths.
pub open spec fn jit_cxx_path(p: Seq<char>) -> bool {
    match extension(p) {
        Some(e) => e == "cpp"@ || e == "cc"@ || e == "cxx"@ || e == "CPP"@ || e == "hpp"@ || e == "hh"@ || e
            == "hxx"@,
        None => false,
    }
}

/// Whether some source is C++ for the JIT.
pub fn jit_needs_cxx(sources: &Vec<String>) -> (r: bool)
    ensures
        r == exists|i: int| 0 <= i < sources@.len() && jit_cxx_path(#[trigger] sources@[i]@),
{
    let mut i: usize = 0;
    while i < sources.len()
        invariant
            i <= sources@.len(),
            forall|k: int| 0 <= k < i ==> !jit_cxx_path(#[trigger] sources@[k]@),
        decreases sources@.len() - i,
    {
        let hit = match extension_chars(&chars_of(sources[i].as_str())) {
            Some(e) => eq_lit(&e, "cpp") || eq_lit(&e, "cc") || eq_lit(&e, "cxx") || eq_lit(&e, "CPP") || eq_lit(
                &e,
                "hpp",
            ) || eq_lit(&e, "hh") || eq_lit(&e, "hxx"),
            None => false,
        };
        if hit {
            return true;
        }
        i = i + 1;
    }
    false
}

/// The sources the JIT compiles at once: each file followed by a newline.
pub open spec fn combined_text(contents: Seq<Seq<char>>) -> Seq<char>
    decreases contents.len(),
{
    if contents.len() == 0 {
        Seq::empty()
    } else {
        combined_text(contents.drop_last()) + contents.last() + seq!['\n']
    }
}

/// Concatenate source texts, each followed by a newline.
pub fn combined_source(contents: &Vec<String>) -> (r: String)
    ensures
        r@ == combined_text(views(contents@)),
{
    let mut r = String::new();
    let mut i: usize = 0;
    while i < contents.len()
        invariant
            i <= contents@.len(),
            r@ == combined_text(views(contents@).take(i as int)),
        decreases contents@.len() - i,
    {
        let ghost t = views(contents@).take(i + 1);
        assert(t.drop_last() == views(contents@).take(i as int));
        assert(t.last() == contents@[i as int]@);
        r.append(contents[i].as_str());
        r.append("\n");
        proof {
            reveal_strlit("\n");
        }
        i = i + 1;
    }
    assert(views(contents@).take(contents@.len() as int) == views(contents@));
    r
}

/// The decimal text of a signed number.
pub open spec fn int_text(n: int) -> Seq<char> {
    if n < 0 { seq!['-'] + crate::text::decimal((-n) as nat) } else { crate::text::decimal(n as nat) }
}

/// The error of a program that exited with a non-zero code.
pub fn exit_status_error(code: i32) -> (r: Option<HutError>)
    ensures
        code == 0 <==> r is None,
        r matches Some(HutError::Other(m)) ==> m@ == "Process exited with code "@ + int_text(code as int),
        r is Some ==> r matches Some(HutError::Other(_)),
{
    if code == 0 {
        return None;
    }
    let magnitude: u64 = if code < 0 { (-(code as i64)) as u64 } else { code as u64 };
    let digits = string_of(&crate::text::decimal_chars(magnitude));
    let text = if code < 0 { concat("-", digits.as_str()) } else { digits };
    proof {
        reveal_strlit("-");
    }
    Some(HutError::Other(concat("Process exited with code ", text.as_str())))
}

// ───────────────────────────── fmt, lint, clean ─────────────────────────────

/// Files `hut fmt` formats among the sources.
pub open spec fn fmt_source_path(p: Seq<char>) -> bool {
    match extension(p) {
        Some(e) => e == "c"@ || e == "h"@ || e == "cpp"@ || e == "hpp"@ || e == "cc"@ || e == "cxx"@ || e == "hxx"@,
        None => false,
    }
}

/// Headers `hut fmt` adds from `include/` and `src/`.
pub open spec fn fmt_header_path(p: Seq<char>) -> bool {
    match extension(p) {
        Some(e) => e == "h"@ || e == "hpp"@ || e == "hxx"@,
        None => false,
    }
}

/// The set of files `hut fmt` formats, as a sorted table.
pub open spec fn fmt_files(sources: Seq<Seq<char>>, headers: Seq<Seq<char>>) -> Set<Seq<char>> {
    Set::new(|p: Seq<char>| (sources.contains(p) && fmt_source_path(p)) || (headers.contains(p) && fmt_header_path(p)))
}

/// The order in which paths are compared component by component: for paths
/// without empty or `.` components, that of their text with `/` before
/// every other character.
pub open spec fn path_order_key(p: Seq<char>) -> Seq<char> {
    p.map_values(|c: char| if c == '/' { '\0' } else { c })
}

/// The comparison key of a path (see `path_order_key`).
fn path_key_of(p: &str) -> (r: String)
    ensures
        r@ == path_order_key(p@),
{
    let cs = chars_of(p);
    let mut out: Vec<char> = Vec::new();
    let mut i: usize = 0;
    while i < cs.len()
        invariant
            i <= cs@.len(),
            cs@ == p@,
            out@ == path_order_key(p@.take(i as int)),
        decreases cs@.len() - i,
    {
        let c = cs[i];
        out.push(if c == '/' { '\0' } else { c });
        assert(path_order_key(p@.take(i + 1)) =~= path_order_key(p@.take(i as int)).push(
            if c == '/' { '\0' } else { c },
        ));
        i = i + 1;
    }
    assert(p@.take(p@.len() as int) == p@);
    string_of(&out)
}

/// What the table of `hut fmt` holds: each key is the comparison key of its
/// file, and each file is one to format.
pub open spec fn fmt_table_ok(t: Seq<(String, String)>, sources: Seq<Seq<char>>, headers: Seq<Seq<char>>) -> bool {
    forall|k: Seq<char>|
        #[trigger] table_view(t).contains_key(k) ==> path_order_key(table_view(t)[k]@) == k && fmt_files(
            sources,
            headers,
        ).contains(table_view(t)[k]@)
}

/// The files `hut fmt` formats: the C/C++ sources and the headers found in
/// `include/` and `src/`, sorted as paths (component by component), each
/// once.
pub fn format_targets(sources: &Vec<String>, headers: &Vec<String>) -> (r: Vec<String>)
    ensures
        forall|i: int, j: int|
            0 <= i < j < r@.len() ==> crate::table::seq_lt(
                path_order_key(#[trigger] r@[i]@),
                path_order_key(#[trigger] r@[j]@),
            ),
        forall|i: int| 0 <= i < r@.len() ==> fmt_files(views(sources@), views(headers@)).contains(#[trigger] r@[i]@),
        forall|p: Seq<char>|
            #[trigger] fmt_files(views(sources@), views(headers@)).contains(p) ==> exists|i: int|
                0 <= i < r@.len() && path_order_key(#[trigger] r@[i]@) == path_order_key(p),
{
    let mut t: Vec<(String, String)> = Vec::new();
    let ghost sv = views(sources@);
    let ghost hv = views(headers@);
    let mut i: usize = 0;
    while i < sources.len()
        invariant
            i <= sources@.len(),
            sv == views(sources@),
            hv == views(headers@),
            sorted_keys(t@),
            fmt_table_ok(t@, sv, hv),
            forall|p: Seq<char>|
                #![trigger sv.take(i as int).contains(p)]
                sv.take(i as int).contains(p) && fmt_source_path(p) ==> table_view(t@).contains_key(path_order_key(p)),
        decreases sources@.len() - i,
    {
        let ghost pre = sv.take(i as int);
        assert(sv.take(i + 1) == pre.push(sources@[i as int]@));
        let is_fmt = match extension_chars(&chars_of(sources[i].as_str())) {
            Some(e) => eq_lit(&e, "c") || eq_lit(&e, "h") || eq_lit(&e, "cpp") || eq_lit(&e, "hpp") || eq_lit(&e, "cc")
                || eq_lit(&e, "cxx") || eq_lit(&e, "hxx"),
            None => false,
        };
        if is_fmt {
            let key = path_key_of(sources[i].as_str());
            assert(sv.contains(sources@[i as int]@)) by {
                assert(sv[i as int] == sources@[i as int]@);
            }
            table_insert(&mut t, key, sources[i].clone());
        }
        proof {
            assert forall|p: Seq<char>|
                #![trigger sv.take(i + 1).contains(p)]
                sv.take(i + 1).contains(p) && fmt_source_path(p) implies table_view(t@).contains_key(path_order_key(p)) by {
                lemma_push_contains(pre, sources@[i as int]@, p);
            }
        }
        i = i + 1;
    }
    assert(sv.take(sources@.len() as int) == sv);
    let mut j: usize = 0;
    while j < headers.len()
        invariant
            j <= headers@.len(),
            sv == views(sources@),
            hv == views(headers@),
            sorted_keys(t@),
            fmt_table_ok(t@, sv, hv),
            forall|p: Seq<char>|
                #![trigger path_order_key(p)]
                (sv.contains(p) && fmt_source_path(p)) || (hv.take(j as int).contains(p) && fmt_header_path(p))
                    ==> table_view(t@).contains_key(path_order_key(p)),
        decreases headers@.len() - j,
    {
        let ghost pre = hv.take(j as int);
        assert(hv.take(j + 1) == pre.push(headers@[j as int]@));
        let is_header = match extension_chars(&chars_of(headers[j].as_str())) {
            Some(e) => eq_lit(&e, "h") || eq_lit(&e, "hpp") || eq_lit(&e, "hxx"),
            None => false,
        };
        if is_header {
            let key = path_key_of(headers[j].as_str());
            assert(hv.contains(headers@[j as int]@)) by {
                assert(hv[j as int] == headers@[j as int]@);
            }
            table_insert(&mut t, key, headers[j].clone());
        }
        proof {
            assert forall|p: Seq<char>|
                #![trigger path_order_key(p)]
                (sv.contains(p) && fmt_source_path(p)) || (hv.take(j + 1).contains(p) && fmt_header_path(p))
                    implies table_view(t@).contains_key(path_order_key(p)) by {
                lemma_push_contains(pre, headers@[j as int]@, p);
            }
        }
        j = j + 1;
    }
    assert(hv.take(headers@.len() as int) == hv);
    table_values(t, Ghost(sv), Ghost(hv))
}

/// Membership in a sequence with one more element.
proof fn lemma_push_contains(s: Seq<Seq<char>>, x: Seq<char>, p: Seq<char>)
    ensures
        s.push(x).contains(p) == (s.contains(p) || p == x),
{
    if s.push(x).contains(p) {
        let k = choose|k: int| 0 <= k < s.push(x).len() && s.push(x)[k] == p;
        if k < s.len() {
            assert(s[k] == p);
        }
    }
    if s.contains(p) {
        let k = choose|k: int| 0 <= k < s.len() && s[k] == p;
        assert(s.push(x)[k] == p);
    }
    if p == x {
        assert(s.push(x)[s.len() as int] == p);
    }
}

/// The files of the `hut fmt` table, in key order.
fn table_values(t: Vec<(String, String)>, Ghost(sv): Ghost<Seq<Seq<char>>>, Ghost(hv): Ghost<Seq<Seq<char>>>) -> (r: Vec<
    String,
>)
    requires
        sorted_keys(t@),
        fmt_table_ok(t@, sv, hv),
        forall|p: Seq<char>| #[trigger] fmt_files(sv, hv).contains(p) ==> table_view(t@).contains_key(path_order_key(p)),
    ensures
        forall|i: int, j: int|
            0 <= i < j < r@.len() ==> crate::table::seq_lt(
                path_order_key(#[trigger] r@[i]@),
                path_order_key(#[trigger] r@[j]@),
            ),
        forall|i: int| 0 <= i < r@.len() ==> fmt_files(sv, hv).contains(#[trigger] r@[i]@),
        forall|p: Seq<char>|
            #[trigger] fmt_files(sv, hv).contains(p) ==> exists|i: int|
                0 <= i < r@.len() && path_order_key(#[trigger] r@[i]@) == path_order_key(p),
{
    let mut r: Vec<String> = Vec::new();
    let mut i: usize = 0;
    while i < t.len()
        invariant
            i <= t@.len(),
            sorted_keys(t@),
            fmt_table_ok(t@, sv, hv),
            r@.len() == i,
            forall|k: int| 0 <= k < i ==> #[trigger] path_order_key(r@[k]@) == t@[k].0@ && fmt_files(sv, hv).contains(
                r@[k]@,
            ),
        decreases t@.len() - i,
    {
        proof {
            crate::table::lemma_view_at(t@, i as int);
        }
        r.push(t[i].1.clone());
        i = i + 1;
    }
    proof {
        assert forall|i: int, j: int| 0 <= i < j < r@.len() implies crate::table::seq_lt(
            path_order_key(#[trigger] r@[i]@),
            path_order_key(#[trigger] r@[j]@),
        ) by {
            assert(path_order_key(r@[i]@) == t@[i].0@);
            assert(path_order_key(r@[j]@) == t@[j].0@);
        }
        assert forall|i: int| 0 <= i < r@.len() implies fmt_files(sv, hv).contains(#[trigger] r@[i]@) by {
            assert(path_order_key(r@[i]@) == t@[i].0@);
        }
        assert forall|p: Seq<char>| #[trigger] fmt_files(sv, hv).contains(p) implies exists|i: int|
            0 <= i < r@.len() && path_order_key(#[trigger] r@[i]@) == path_order_key(p) by {
            let k = path_order_key(p);
            assert(table_view(t@).contains_key(k));
            assert(has_key(t@, k));
            let m = choose|m: int| 0 <= m < t@.len() && #[trigger] t@[m].0@ == k;
            assert(path_order_key(r@[m]@) == t@[m].0@);
        }
    }
    r
}

/// The outcome of `hut fmt --check`: an error naming how many files need
/// formatting.
pub fn format_check_result(failed: usize) -> (r: Result<(), HutError>)
    ensures
        failed == 0 <==> r is Ok,
        r matches Err(HutError::Other(m)) ==> m@ == crate::text::decimal(failed as nat)
            + " file(s) need formatting. Run `hut fmt` to fix."@,
        r is Err ==> r matches Err(HutError::Other(_)),
{
    if failed == 0 {
        Ok(())
    } else {
        let n = string_of(&crate::text::decimal_chars(failed as u64));
        Err(HutError::Other(concat(n.as_str(), " file(s) need formatting. Run `hut fmt` to fix.")))
    }
}

/// The compiler `hut lint` uses: for `gcc` or `auto`, gcc when it exists,
/// else clang when it exists, else an error; any other setting as written.
pub fn lint_compiler(preference: &str, gcc_exists: bool, clang_exists: bool) -> (r: Result<String, HutError>)
    ensures
        (preference@ == "gcc"@ || preference@ == "auto"@) ==> (if gcc_exists {
            r matches Ok(c) && c@ == "gcc"@
        } else if clang_exists {
            r matches Ok(c) && c@ == "clang"@
        } else {
            r matches Err(HutError::Other(m)) && m@ == "No C compiler found. Install gcc or clang."@
        }),
        !(preference@ == "gcc"@ || preference@ == "auto"@) ==> (r matches Ok(c) && c@ == preference@),
{
    let p = chars_of(preference);
    if eq_lit(&p, "gcc") || eq_lit(&p, "auto") {
        if gcc_exists {
            Ok(String::from_str("gcc"))
        } else if clang_exists {
            Ok(String::from_str("clang"))
        } else {
            Err(HutError::Other(String::from_str("No C compiler found. Install gcc or clang.")))
        }
    } else {
        Ok(String::from_str(preference))
    }
}

// ───────────────────────────── upgrade ─────────────────────────────

/// The version a line declares: `version = "<v>"` after trimming, up to the
/// closing quote.
pub open spec fn line_version(line: Seq<char>) -> Option<Seq<char>> {
    let t = trim(line);
    let p = "version = \""@;
    if crate::text::has_prefix(t, p) {
        let rest = t.skip(p.len() as int);
        let e = first_index_of(rest, '"');
        if e < 0 { None } else { Some(rest.take(e)) }
    } else {
        None
    }
}

/// The first version a list of lines declares.
pub open spec fn first_version(lines: Seq<Seq<char>>) -> Option<Seq<char>>
    decreases lines.len(),
{
    if lines.len() == 0 {
        None
    } else {
        match line_version(lines[0]) {
            Some(v) => Some(v),
            None => first_version(lines.drop_first()),
        }
    }
}

/// The version declared in a Cargo manifest: that of the first line
/// `version = "..."`.
pub fn version_from_manifest(content: &str) -> (r: Option<String>)
    ensures
        match r {
            Some(v) => first_version(crate::tags::lines_of(content@)) == Some(v@),
            None => first_version(crate::tags::lines_of(content@)) is None,
        },
{
    let lines = split_lines(content);
    let ghost lv = views(lines@);
    let prefix = chars_of("version = \"");
    let mut i: usize = 0;
    assert(lv.skip(0) == lv);
    while i < lines.len()
        invariant
            i <= lines@.len(),
            lv == views(lines@),
            lv == crate::tags::lines_of(content@),
            prefix@ == "version = \""@,
            first_version(lv) == first_version(lv.skip(i as int)),
        decreases lines@.len() - i,
    {
        let ghost rest = lv.skip(i as int);
        assert(rest[0] == lines@[i as int]@);
        assert(rest.drop_first() == lv.skip(i + 1));
        let t = trim_chars(&chars_of(lines[i].as_str()));
        if crate::text::starts_with(&t, &prefix) {
            let after = skip_chars(&t, prefix.len());
            match find_char(&after, '"') {
                Some(e) => {
                    let n = after.len();
                    assert(e < n);
                    return Some(string_of(&take_chars(&after, e)));
                },
                None => {},
            }
        }
        i = i + 1;
    }
    None
}

/// The lines of a text (see `crate::tags::lines_of`).
pub fn split_lines(s: &str) -> (r: Vec<String>)
    ensures
        views(r@) == crate::tags::lines_of(s@),
{
    let mut rest = chars_of(s);
    let mut out: Vec<String> = Vec::new();
    assert(views(out@) + crate::tags::lines_of(rest@) =~= crate::tags::lines_of(s@));
    while rest.len() > 0
        invariant
            views(out@) + crate::tags::lines_of(rest@) == crate::tags::lines_of(s@),
        decreases rest@.len(),
    {
        let ghost r0 = rest@;
        proof {
            crate::tags::lemma_first_index_bounds(r0, '\n');
        }
        let (line, next) = match find_char(&rest, '\n') {
            Some(i) => {
                let l = take_chars(&rest, i);
                let l = if l.len() > 0 && l[l.len() - 1] == '\r' {
                    take_chars(&l, l.len() - 1)
                } else {
                    l
                };
                (l, skip_chars(&rest, i + 1))
            },
            None => (rest.clone(), Vec::new()),
        };
        assert(crate::tags::lines_of(r0) == seq![line@] + crate::tags::lines_of(next@)) by {
            if first_index_of(r0, '\n') < 0 {
                assert(crate::tags::lines_of(next@) =~= Seq::<Seq<char>>::empty());
                assert(seq![line@] + crate::tags::lines_of(next@) =~= seq![line@]);
            }
        }
        let ghost before = out@;
        out.push(string_of(&line));
        assert(views(out@) =~= views(before).push(line@));
        assert(views(out@) + crate::tags::lines_of(next@) =~= views(before) + crate::tags::lines_of(r0));
        rest = next;
    }
    assert(crate::tags::lines_of(rest@) =~= Seq::<Seq<char>>::empty());
    assert(views(out@) =~= crate::tags::lines_of(s@));
    out
}

// ───────────────────────────── templates ─────────────────────────────

/// The header of the `lib` template.
pub open spec fn lib_header() -> Seq<char> {
    "#ifndef MYLIB_H\n#define MYLIB_H\n\n// Public API\nint mylib_add(int a, int b);\nconst char* mylib_version(void);\n\n#endif // MYLIB_H\n"@
}

/// The source of the `lib` template.
pub open spec fn lib_source() -> Seq<char> {
    "#include \"mylib.h\"\n\nint mylib_add(int a, int b) {\n    return a + b;\n}\n\nconst char* mylib_version(void) {\n    return \"0.1.0\";\n}\n"@
}

/// The main program of the `app` template.
pub open spec fn app_main() -> Seq<char> {
    "#include <stdio.h>\n\nint main(int argc, char** argv) {\n    printf(\"Hello, world!\\n\");\n    if (argc > 1) {\n        printf(\"Arguments: %d\\n\", argc - 1);\n        for (int i = 1; i < argc; i++) {\n            printf(\"  %s\\n\", argv[i]);\n        }\n    }\n    return 0;\n}\n"@
}

/// The main program of the `raylib-game` template.
pub open spec fn raylib_main() -> Seq<char> {
    "#include \"raylib.h\"\n\nint main() {\n    const int screenWidth = 800;\n    const int screenHeight = 450;\n\n    InitWindow(screenWidth, screenHeight, \"raylib game — built with hut\");\n\n    SetTargetFPS(60);\n\n    while (!WindowShouldClose()) {\n        BeginDrawing();\n        ClearBackground(RAYWHITE);\n        DrawText(\"Hello, raylib!\", 190, 200, 20, LIGHTGRAY);\n        EndDrawing();\n    }\n\n    CloseWindow();\n    return 0;\n}\n"@
}

/// A project scaffold: its manifest and the files to write (path relative
/// to the project, content).
#[derive(Debug)]
pub struct ProjectTemplate {
    pub config: HutConfig,
    pub files: Vec<(String, String)>,
}

/// The pairs of a file list as texts.
pub open spec fn file_views(v: Seq<(String, String)>) -> Seq<(Seq<char>, Seq<char>)> {
    v.map_values(|p: (String, String)| (p.0@, p.1@))
}

/// A file to write.
fn file(path: &str, content: &str) -> (r: (String, String))
    ensures
        r.0@ == path@,
        r.1@ == content@,
{
    (String::from_str(path), String::from_str(content))
}

/// The scaffold of a template: `lib` (a library with a header and a
/// source), `app` (a main program), `raylib-game` (a raylib program with a
/// raylib `^5.0` dependency); none for other names.
pub fn project_template(template: &str) -> (r: Option<ProjectTemplate>)
    ensures
        r matches Some(t) ==> t.config.wf(),
        template@ == "lib"@ ==> (r matches Some(t) && is_template(t.config, "mylib"@) && file_views(t.files@)
            == seq![("include/mylib.h"@, lib_header()), ("src/mylib.c"@, lib_source())]),
        template@ == "app"@ ==> (r matches Some(t) && is_template(t.config, "myapp"@) && file_views(t.files@)
            == seq![("src/main.c"@, app_main())]),
        template@ == "raylib-game"@ ==> (r matches Some(t) && template_base(t.config, "raylib-game"@) && file_views(t.config.dependencies@) == seq![("raylib"@, "^5.0"@)] && file_views(t.files@) == seq![
            ("src/main.c"@, raylib_main()),
        ]),
        !(template@ == "lib"@ || template@ == "app"@ || template@ == "raylib-game"@) ==> r is None,
{
    let t = chars_of(template);
    proof {
        reveal_strlit("lib");
        reveal_strlit("app");
        reveal_strlit("raylib-game");
        assert("lib"@[0] == 'l' && "app"@[0] == 'a' && "raylib-game"@[0] == 'r');
        assert("lib"@ != "app"@ && "lib"@ != "raylib-game"@ && "app"@ != "raylib-game"@);
    }
    if eq_lit(&t, "lib") {
        Some(lib_template())
    } else if eq_lit(&t, "app") {
        Some(app_template())
    } else if eq_lit(&t, "raylib-game") {
        Some(raylib_template())
    } else {
        None
    }
}

/// The `lib` scaffold.
fn lib_template() -> (t: ProjectTemplate)
    ensures
        is_template(t.config, "mylib"@),
        t.config.wf(),
        file_views(t.files@) == seq![("include/mylib.h"@, lib_header()), ("src/mylib.c"@, lib_source())],
{
    let config = HutConfig::default_template("mylib");
    let mut files: Vec<(String, String)> = Vec::new();
    files.push(file("include/mylib.h", "#ifndef MYLIB_H\n#define MYLIB_H\n\n// Public API\nint mylib_add(int a, int b);\nconst char* mylib_version(void);\n\n#endif // MYLIB_H\n"));
    files.push(file("src/mylib.c", "#include \"mylib.h\"\n\nint mylib_add(int a, int b) {\n    return a + b;\n}\n\nconst char* mylib_version(void) {\n    return \"0.1.0\";\n}\n"));
    assert(file_views(files@) =~= seq![("include/mylib.h"@, lib_header()), ("src/mylib.c"@, lib_source())]);
    ProjectTemplate { config, files }
}

/// The `app` scaffold.
fn app_template() -> (t: ProjectTemplate)
    ensures
        is_template(t.config, "myapp"@),
        t.config.wf(),
        file_views(t.files@) == seq![("src/main.c"@, app_main())],
{
    let config = HutConfig::default_template("myapp");
    let mut files: Vec<(String, String)> = Vec::new();
    files.push(file("src/main.c", "#include <stdio.h>\n\nint main(int argc, char** argv) {\n    printf(\"Hello, world!\\n\");\n    if (argc > 1) {\n        printf(\"Arguments: %d\\n\", argc - 1);\n        for (int i = 1; i < argc; i++) {\n            printf(\"  %s\\n\", argv[i]);\n        }\n    }\n    return 0;\n}\n"));
    assert(file_views(files@) =~= seq![("src/main.c"@, app_main())]);
    ProjectTemplate { config, files }
}

/// The `raylib-game` scaffold.
fn raylib_template() -> (t: ProjectTemplate)
    ensures
        template_base(t.config, "raylib-game"@),
        t.config.wf(),
        file_views(t.config.dependencies@) == seq![("raylib"@, "^5.0"@)],
        file_views(t.files@) == seq![("src/main.c"@, raylib_main())],
{
    let mut config = HutConfig::default_template("raylib-game");
    let mut deps: Vec<(String, String)> = Vec::new();
    deps.push(file("raylib", "^5.0"));
    assert(file_views(deps@) =~= seq![("raylib"@, "^5.0"@)]);
    config.dependencies = deps;
    let mut files: Vec<(String, String)> = Vec::new();
    files.push(file("src/main.c", "#include \"raylib.h\"\n\nint main() {\n    const int screenWidth = 800;\n    const int screenHeight = 450;\n\n    InitWindow(screenWidth, screenHeight, \"raylib game — built with hut\");\n\n    SetTargetFPS(60);\n\n    while (!WindowShouldClose()) {\n        BeginDrawing();\n        ClearBackground(RAYWHITE);\n        DrawText(\"Hello, raylib!\", 190, 200, 20, LIGHTGRAY);\n        EndDrawing();\n    }\n\n    CloseWindow();\n    return 0;\n}\n"));
    assert(file_views(files@) =~= seq![("src/main.c"@, raylib_main())]);
    ProjectTemplate { config, files }
}

/// The dependencies `hut outdated` reports: those in the index with no
/// lockfile entry, with their repository, in table order.
pub open spec fn outdated_list(deps: Seq<(String, String)>, locked: Map<Seq<char>, LockedPackage>, idx: Map<
    Seq<char>,
    crate::index::PackageEntry,
>) -> Seq<(Seq<char>, Seq<char>)>
    decreases deps.len(),
{
    if deps.len() == 0 {
        Seq::empty()
    } else {
        let rest = outdated_list(deps.drop_last(), locked, idx);
        let n = deps.last().0@;
        if idx.contains_key(n) && !locked.contains_key(n) {
            rest.push((n, idx[n].repo@))
        } else {
            rest
        }
    }
}

/// The dependencies that are not locked yet (see `outdated_list`).
pub fn outdated(config: &HutConfig, lockfile: &Lockfile, index: &PackagesIndex) -> (r: Vec<(String, String)>)
    requires
        lockfile.wf(),
        index.wf(),
    ensures
        file_views(r@) == outdated_list(config.all_dependencies(), lockfile.entries(), index.entries()),
{
    let mut all: Vec<(String, String)> = Vec::new();
    append_pairs(&mut all, &config.dependencies);
    append_pairs(&mut all, &config.build_dependencies);
    append_pairs(&mut all, &config.test_dependencies);
    assert(all@ =~= config.all_dependencies());
    let mut r: Vec<(String, String)> = Vec::new();
    let mut i: usize = 0;
    while i < all.len()
        invariant
            i <= all@.len(),
            lockfile.wf(),
            index.wf(),
            file_views(r@) == outdated_list(all@.take(i as int), lockfile.entries(), index.entries()),
        decreases all@.len() - i,
    {
        let ghost t = all@.take(i + 1);
        assert(t.drop_last() == all@.take(i as int));
        assert(t.last() == all@[i as int]);
        let name = all[i].0.as_str();
        match index.find(name) {
            Some(e) => {
                if lockfile.get(name).is_none() {
                    let ghost before = r@;
                    r.push((String::from_str(name), e.repo.clone()));
                    assert(file_views(r@) =~= file_views(before).push((name@, e.repo@)));
                }
            },
            None => {},
        }
        i = i + 1;
    }
    assert(all@.take(all@.len() as int) == all@);
    r
}

/// Append copies of pairs.
fn append_pairs(dst: &mut Vec<(String, String)>, src: &Vec<(String, String)>)
    ensures
        final(dst)@ == old(dst)@ + src@,
{
    let mut i: usize = 0;
    while i < src.len()
        invariant
            i <= src@.len(),
            dst@ == old(dst)@ + src@.take(i as int),
        decreases src@.len() - i,
    {
        dst.push((src[i].0.clone(), src[i].1.clone()));
        assert(src@.take(i + 1) == src@.take(i as int).push(src@[i as int]));
        i = i + 1;
    }
    assert(src@.take(src@.len() as int) == src@);
}

/// The size `du -sh` prints: its first word, `?` when there is none.
pub open spec fn first_word(s: Seq<char>) -> Seq<char>
    decreases s.len(),
{
    if s.len() == 0 {
        "?"@
    } else if crate::text::is_white(s[0]) {
        first_word(s.drop_first())
    } else {
        word_at(s)
    }
}

/// The characters up to the first whitespace.
pub open spec fn word_at(s: Seq<char>) -> Seq<char>
    decreases s.len(),
{
    if s.len() == 0 || crate::text::is_white(s[0]) {
        Seq::empty()
    } else {
        seq![s[0]] + word_at(s.drop_first())
    }
}

/// The size in the output of `du -sh <path>` (see `first_word`).
pub fn du_size(output: &str) -> (r: String)
    ensures
        r@ == first_word(output@),
{
    let c = chars_of(output);
    let mut i: usize = 0;
    assert(c@.skip(0) == c@);
    while i < c.len() && crate::text::is_whitespace(c[i])
        invariant
            i <= c@.len(),
            first_word(c@) == first_word(c@.skip(i as int)),
        decreases c@.len() - i,
    {
        assert(c@.skip(i as int).drop_first() == c@.skip(i + 1));
        i = i + 1;
    }
    if i == c.len() {
        assert(c@.skip(i as int).len() == 0);
        return String::from_str("?");
    }
    let start = i;
    let mut j: usize = i;
    while j < c.len() && !crate::text::is_whitespace(c[j])
        invariant
            start <= j <= c@.len(),
            word_at(c@.skip(start as int)) == c@.subrange(start as int, j as int) + word_at(c@.skip(j as int)),
        decreases c@.len() - j,
    {
        assert(c@.skip(j as int).drop_first() == c@.skip(j + 1));
        assert(c@.subrange(start as int, j + 1) == c@.subrange(start as int, j as int) + seq![c@[j as int]]);
        j = j + 1;
    }
    if j < c.len() {
        assert(word_at(c@.skip(j as int)) == Seq::<char>::empty());
    } else {
        assert(c@.skip(j as int).len() == 0);
    }
    let w = take_chars(&skip_chars(&c, start), j - start);
    assert(w@ =~= c@.subrange(start as int, j as int));
    string_of(&w)
}

/// The `lib` scaffold declares and defines `mylib_add`, which returns the
/// sum of its arguments, and `mylib_version`, which returns "0.1.0".
pub proof fn law_lib_template_text()
    ensures
        lib_header()
            == "#ifndef MYLIB_H\n#define MYLIB_H\n\n// Public API\nint mylib_add(int a, int b);\nconst char* mylib_version(void);\n\n#endif // MYLIB_H\n"@,
        lib_source()
            == "#include \"mylib.h\"\n\nint mylib_add(int a, int b) {\n    return a + b;\n}\n\nconst char* mylib_version(void) {\n    return \"0.1.0\";\n}\n"@,
{
}

/// The `app` scaffold greets the world and lists its arguments; the
/// `raylib-game` scaffold opens an 800 by 450 window at 60 frames per second
/// and draws a greeting until it is closed.
pub proof fn law_program_template_texts()
    ensures
        app_main() == "#include <stdio.h>\n\nint main(int argc, char** argv) {\n    printf(\"Hello, world!\\n\");\n    if (argc > 1) {\n        printf(\"Arguments: %d\\n\", argc - 1);\n        for (int i = 1; i < argc; i++) {\n            printf(\"  %s\\n\", argv[i]);\n        }\n    }\n    return 0;\n}\n"@,
        raylib_main() == "#include \"raylib.h\"\n\nint main() {\n    const int screenWidth = 800;\n    const int screenHeight = 450;\n\n    InitWindow(screenWidth, screenHeight, \"raylib game — built with hut\");\n\n    SetTargetFPS(60);\n\n    while (!WindowShouldClose()) {\n        BeginDrawing();\n        ClearBackground(RAYWHITE);\n        DrawText(\"Hello, raylib!\", 190, 200, 20, LIGHTGRAY);\n        EndDrawing();\n    }\n\n    CloseWindow();\n    return 0;\n}\n"@,
{
}

} // verus!
