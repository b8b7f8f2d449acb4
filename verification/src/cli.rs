//! The command-line grammar of `hut`: subcommands, their aliases, flags,
//! options and positional arguments.
//!
//! Arguments after the subcommand name are scanned left to right. `--` ends
//! option processing: later tokens are positional, or go to the trailing
//! argument list of the subcommands that forward arguments (`run`,
//! `workspace run`). A long option is `--name` or `--name=value`; a short
//! option is `-x`, with a value option taking the rest of the token
//! (`-cgcc`, `-c=gcc`) or the next token. A value never starts with `-`
//! unless it is `-` itself. Every flag and option may be given once.

use vstd::prelude::*;

use crate::text::{chars_of, eq_lit, find_char, first_index_of, skip_chars, string_of, take_chars, views};

verus! {

/// hut — A fast build system and package manager for C/C++.
#[derive(Debug)]
pub struct Cli {
    pub command: Commands,
}

/// The subcommands.
#[derive(Debug)]
pub enum Commands {
    /// Create a new hut project in an existing directory (or a new one).
    Init { name: Option<String> },
    /// Scaffold a project from a template.
    Create { template: String },
    /// Install all dependencies.
    Install,
    /// Add dependencies and install them.
    Add { pkgs: Vec<String>, dev: bool, build: bool },
    /// Remove a dependency.
    Remove { pkg: String },
    /// Update dependencies to the latest compatible versions.
    Update { pkg: Option<String> },
    /// List outdated dependencies.
    Outdated,
    /// Compile the project.
    Build { release: bool, compiler: Option<String> },
    /// Build and execute a target (or run a script).
    Run { target: Option<String>, args: Vec<String>, release: bool, jit: bool },
    /// Discover and run test targets.
    Test,
    /// Symlink a local package for development.
    Link { path: Option<String> },
    /// Remove a local development symlink.
    Unlink { pkg: String },
    /// Show instructions for publishing to the registry.
    Publish,
    /// Manage the package cache.
    Pm(PmCommand),
    /// Self-update hut to the latest version.
    Upgrade,
    /// Extract a dependency's source for local patching.
    Patch { pkg: String },
    /// Show project info and dependency tree.
    Info,
    /// Watch for file changes and rebuild automatically.
    Dev,
    /// Manage workspace members.
    Workspace(WorkspaceCommand),
    /// Generate shell completion scripts.
    Completions { shell: String },
    /// Search the package registry.
    Search { query: String },
    /// Format C/C++ source files with clang-format.
    Fmt { check: bool },
    /// Lint C/C++ source files.
    Lint,
    /// Clean build artifacts (removes target/).
    Clean,
}

/// `hut pm` subcommands.
#[derive(Debug)]
pub enum PmCommand {
    /// Show cache path and disk usage.
    Cache,
    /// List all cached packages.
    Ls,
    /// Show the hut binary directory.
    Bin,
}

/// `hut workspace` subcommands.
#[derive(Debug)]
pub enum WorkspaceCommand {
    /// Add a directory to the workspace members.
    Add { path: String },
    /// List workspace members.
    Ls,
    /// Run a command in all workspace members.
    Run { command: String, args: Vec<String> },
}

/// Why an argument list was refused.
#[derive(Debug, PartialEq, Eq, Structural)]
pub enum CliError {
    /// No subcommand was given.
    MissingSubcommand,
    /// The subcommand name is not known.
    UnknownSubcommand,
    /// A flag or positional argument that the subcommand does not take.
    UnexpectedArgument,
    /// A flag or option given twice.
    DuplicateArgument,
    /// An option without its value.
    MissingValue,
    /// A required positional argument is missing.
    MissingArgument,
}

// ───────────────────────────── abstract syntax ─────────────────────────────

/// What a parsed command means, over character sequences.
pub enum CommandView {
    Init { name: Option<Seq<char>> },
    Create { template: Seq<char> },
    Install,
    Add { pkgs: Seq<Seq<char>>, dev: bool, build: bool },
    Remove { pkg: Seq<char> },
    Update { pkg: Option<Seq<char>> },
    Outdated,
    Build { release: bool, compiler: Option<Seq<char>> },
    Run { target: Option<Seq<char>>, args: Seq<Seq<char>>, release: bool, jit: bool },
    Test,
    Link { path: Option<Seq<char>> },
    Unlink { pkg: Seq<char> },
    Publish,
    PmCache,
    PmLs,
    PmBin,
    Upgrade,
    Patch { pkg: Seq<char> },
    Info,
    Dev,
    WorkspaceAdd { path: Seq<char> },
    WorkspaceLs,
    WorkspaceRun { command: Seq<char>, args: Seq<Seq<char>> },
    Completions { shell: Seq<char> },
    Search { query: Seq<char> },
    Fmt { check: bool },
    Lint,
    Clean,
}

/// View of an optional string.
pub open spec fn opt_view(o: Option<String>) -> Option<Seq<char>> {
    match o {
        Some(s) => Some(s@),
        None => None,
    }
}

impl View for Commands {
    type V = CommandView;

    open spec fn view(&self) -> CommandView {
        match self {
            Commands::Init { name } => CommandView::Init { name: opt_view(*name) },
            Commands::Create { template } => CommandView::Create { template: template@ },
            Commands::Install => CommandView::Install,
            Commands::Add { pkgs, dev, build } => CommandView::Add {
                pkgs: views(pkgs@),
                dev: *dev,
                build: *build,
            },
            Commands::Remove { pkg } => CommandView::Remove { pkg: pkg@ },
            Commands::Update { pkg } => CommandView::Update { pkg: opt_view(*pkg) },
            Commands::Outdated => CommandView::Outdated,
            Commands::Build { release, compiler } => CommandView::Build {
                release: *release,
                compiler: opt_view(*compiler),
            },
            Commands::Run { target, args, release, jit } => CommandView::Run {
                target: opt_view(*target),
                args: views(args@),
                release: *release,
                jit: *jit,
            },
            Commands::Test => CommandView::Test,
            Commands::Link { path } => CommandView::Link { path: opt_view(*path) },
            Commands::Unlink { pkg } => CommandView::Unlink { pkg: pkg@ },
            Commands::Publish => CommandView::Publish,
            Commands::Pm(PmCommand::Cache) => CommandView::PmCache,
            Commands::Pm(PmCommand::Ls) => CommandView::PmLs,
            Commands::Pm(PmCommand::Bin) => CommandView::PmBin,
            Commands::Upgrade => CommandView::Upgrade,
            Commands::Patch { pkg } => CommandView::Patch { pkg: pkg@ },
            Commands::Info => CommandView::Info,
            Commands::Dev => CommandView::Dev,
            Commands::Workspace(WorkspaceCommand::Add { path }) => CommandView::WorkspaceAdd {
                path: path@,
            },
            Commands::Workspace(WorkspaceCommand::Ls) => CommandView::WorkspaceLs,
            Commands::Workspace(WorkspaceCommand::Run { command, args }) =>
                CommandView::WorkspaceRun { command: command@, args: views(args@) },
            Commands::Completions { shell } => CommandView::Completions { shell: shell@ },
            Commands::Search { query } => CommandView::Search { query: query@ },
            Commands::Fmt { check } => CommandView::Fmt { check: *check },
            Commands::Lint => CommandView::Lint,
            Commands::Clean => CommandView::Clean,
        }
    }
}

// ───────────────────────────── scanning (specification) ─────────────────────────────

/// A flag (`takes_value == false`) or an option with a value.
pub struct OptSpec {
    pub long: Seq<char>,
    pub short: Option<char>,
    pub takes_value: bool,
}

/// What scanning has gathered so far.
pub struct Scan {
    /// Per flag or option: given or not.
    pub present: Seq<bool>,
    /// Per option: its value (meaningful when present).
    pub values: Seq<Seq<char>>,
    /// Positional arguments.
    pub pos: Seq<Seq<char>>,
    /// Arguments after `--` for subcommands that forward them.
    pub last: Seq<Seq<char>>,
    /// Whether `--` has been seen.
    pub dd: bool,
}

/// A token that reads as a flag: `-` followed by at least one character.
pub open spec fn is_flag_like(t: Seq<char>) -> bool {
    t.len() >= 2 && t[0] == '-'
}

/// A long flag or option: `--` followed by a name.
pub open spec fn is_long(t: Seq<char>) -> bool {
    t.len() > 2 && t[0] == '-' && t[1] == '-'
}

/// The name of a long token (`--name` or `--name=value`).
pub open spec fn long_name(t: Seq<char>) -> Seq<char> {
    let body = t.skip(2);
    let e = first_index_of(body, '=');
    if e < 0 { body } else { body.take(e) }
}

/// The inline value of a long token (`--name=value`).
pub open spec fn long_inline(t: Seq<char>) -> Option<Seq<char>> {
    let body = t.skip(2);
    let e = first_index_of(body, '=');
    if e < 0 { None } else { Some(body.skip(e + 1)) }
}

/// The inline value of a short token (`-cVALUE` or `-c=VALUE`).
pub open spec fn short_inline(t: Seq<char>) -> Option<Seq<char>> {
    if t.len() <= 2 {
        None
    } else if t[2] == '=' {
        Some(t.skip(3))
    } else {
        Some(t.skip(2))
    }
}

/// Index of the option with the given long name, or -1.
pub open spec fn find_long(opts: Seq<OptSpec>, name: Seq<char>) -> int
    decreases opts.len(),
{
    if opts.len() == 0 {
        -1
    } else if opts.last().long == name {
        opts.len() - 1
    } else {
        find_long(opts.drop_last(), name)
    }
}

/// Index of the option with the given short name, or -1.
pub open spec fn find_short(opts: Seq<OptSpec>, c: char) -> int
    decreases opts.len(),
{
    if opts.len() == 0 {
        -1
    } else if opts.last().short == Some(c) {
        opts.len() - 1
    } else {
        find_short(opts.drop_last(), c)
    }
}

/// Record option `k` with a value.
pub open spec fn set_opt(st: Scan, k: int, v: Seq<char>) -> Scan {
    Scan { present: st.present.update(k, true), values: st.values.update(k, v), ..st }
}

/// Handle option `k`, whose inline value (if any) is `inline`, then continue.
pub open spec fn take_opt(
    opts: Seq<OptSpec>,
    has_last: bool,
    rest: Seq<Seq<char>>,
    st: Scan,
    k: int,
    inline: Option<Seq<char>>,
) -> Result<Scan, CliError>
    decreases rest.len(), 1int,
{
    if st.present[k] {
        Err(CliError::DuplicateArgument)
    } else if !opts[k].takes_value {
        if inline is Some {
            Err(CliError::UnexpectedArgument)
        } else {
            scan(opts, has_last, rest, set_opt(st, k, Seq::empty()))
        }
    } else {
        match inline {
            Some(v) => scan(opts, has_last, rest, set_opt(st, k, v)),
            None => if rest.len() == 0 || is_flag_like(rest[0]) {
                Err(CliError::MissingValue)
            } else {
                scan(opts, has_last, rest.drop_first(), set_opt(st, k, rest[0]))
            },
        }
    }
}

/// Scan the tokens after a subcommand name.
pub open spec fn scan(
    opts: Seq<OptSpec>,
    has_last: bool,
    toks: Seq<Seq<char>>,
    st: Scan,
) -> Result<Scan, CliError>
    decreases toks.len(), 0int,
{
    if toks.len() == 0 {
        Ok(st)
    } else {
        let t = toks[0];
        let rest = toks.drop_first();
        if st.dd {
            if has_last {
                scan(opts, has_last, rest, Scan { last: st.last.push(t), ..st })
            } else {
                scan(opts, has_last, rest, Scan { pos: st.pos.push(t), ..st })
            }
        } else if t == seq!['-', '-'] {
            scan(opts, has_last, rest, Scan { dd: true, ..st })
        } else if is_long(t) {
            let k = find_long(opts, long_name(t));
            if k < 0 {
                Err(CliError::UnexpectedArgument)
            } else {
                take_opt(opts, has_last, rest, st, k, long_inline(t))
            }
        } else if is_flag_like(t) {
            let k = find_short(opts, t[1]);
            if k < 0 {
                Err(CliError::UnexpectedArgument)
            } else if !opts[k].takes_value && t.len() > 2 {
                Err(CliError::UnexpectedArgument)
            } else {
                take_opt(opts, has_last, rest, st, k, short_inline(t))
            }
        } else {
            scan(opts, has_last, rest, Scan { pos: st.pos.push(t), ..st })
        }
    }
}

/// The state scanning starts from, for `n` flags and options.
pub open spec fn initial_scan(n: nat) -> Scan {
    Scan {
        present: Seq::new(n, |i: int| false),
        values: Seq::new(n, |i: int| Seq::empty()),
        pos: Seq::empty(),
        last: Seq::empty(),
        dd: false,
    }
}

/// Scan `toks` with the given flags and options.
pub open spec fn scan_all(opts: Seq<OptSpec>, has_last: bool, toks: Seq<Seq<char>>) -> Result<Scan, CliError> {
    scan(opts, has_last, toks, initial_scan(opts.len()))
}

/// A flag with a long name only.
pub open spec fn flag(long: Seq<char>) -> OptSpec {
    OptSpec { long, short: None, takes_value: false }
}

/// The flags and options of `build`.
pub open spec fn build_opts() -> Seq<OptSpec> {
    seq![
        OptSpec { long: "release"@, short: Some('r'), takes_value: false },
        OptSpec { long: "compiler"@, short: Some('c'), takes_value: true },
    ]
}

/// The flags of `run`.
pub open spec fn run_opts() -> Seq<OptSpec> {
    seq![OptSpec { long: "release"@, short: Some('r'), takes_value: false }, flag("jit"@)]
}

/// The flags of `add`.
pub open spec fn add_opts() -> Seq<OptSpec> {
    seq![flag("dev"@), flag("build"@)]
}

/// The flags of `fmt`.
pub open spec fn fmt_opts() -> Seq<OptSpec> {
    seq![flag("check"@)]
}

/// An optional value.
pub open spec fn value_of(st: Scan, k: int) -> Option<Seq<char>> {
    if st.present[k] { Some(st.values[k]) } else { None }
}

/// At most one positional argument.
pub open spec fn at_most_one(pos: Seq<Seq<char>>) -> Result<Option<Seq<char>>, CliError> {
    if pos.len() == 0 {
        Ok(None)
    } else if pos.len() == 1 {
        Ok(Some(pos[0]))
    } else {
        Err(CliError::UnexpectedArgument)
    }
}

/// Exactly one positional argument.
pub open spec fn exactly_one(pos: Seq<Seq<char>>) -> Result<Seq<char>, CliError> {
    if pos.len() == 0 {
        Err(CliError::MissingArgument)
    } else if pos.len() == 1 {
        Ok(pos[0])
    } else {
        Err(CliError::UnexpectedArgument)
    }
}

/// A subcommand without arguments.
pub open spec fn no_args(toks: Seq<Seq<char>>, c: CommandView) -> Result<CommandView, CliError> {
    match scan_all(Seq::empty(), false, toks) {
        Err(e) => Err(e),
        Ok(st) => if st.pos.len() == 0 { Ok(c) } else { Err(CliError::UnexpectedArgument) },
    }
}

/// A subcommand taking only positional arguments.
pub open spec fn positionals(toks: Seq<Seq<char>>) -> Result<Seq<Seq<char>>, CliError> {
    match scan_all(Seq::empty(), false, toks) {
        Err(e) => Err(e),
        Ok(st) => Ok(st.pos),
    }
}

/// A subcommand taking exactly one positional argument.
pub open spec fn one_arg(toks: Seq<Seq<char>>) -> Result<Seq<char>, CliError> {
    match positionals(toks) {
        Err(e) => Err(e),
        Ok(p) => exactly_one(p),
    }
}

/// A subcommand taking an optional positional argument.
pub open spec fn opt_arg(toks: Seq<Seq<char>>) -> Result<Option<Seq<char>>, CliError> {
    match positionals(toks) {
        Err(e) => Err(e),
        Ok(p) => at_most_one(p),
    }
}

/// The meaning of `hut pm <toks>`.
pub open spec fn pm_meaning(toks: Seq<Seq<char>>) -> Result<CommandView, CliError> {
    if toks.len() == 0 {
        Err(CliError::MissingSubcommand)
    } else if is_flag_like(toks[0]) {
        Err(CliError::UnexpectedArgument)
    } else if toks[0] == "cache"@ {
        no_args(toks.drop_first(), CommandView::PmCache)
    } else if toks[0] == "ls"@ {
        no_args(toks.drop_first(), CommandView::PmLs)
    } else if toks[0] == "bin"@ {
        no_args(toks.drop_first(), CommandView::PmBin)
    } else {
        Err(CliError::UnknownSubcommand)
    }
}

/// The meaning of `hut workspace <toks>`.
pub open spec fn workspace_meaning(toks: Seq<Seq<char>>) -> Result<CommandView, CliError> {
    if toks.len() == 0 {
        Err(CliError::MissingSubcommand)
    } else if is_flag_like(toks[0]) {
        Err(CliError::UnexpectedArgument)
    } else if toks[0] == "add"@ {
        match one_arg(toks.drop_first()) {
            Err(e) => Err(e),
            Ok(p) => Ok(CommandView::WorkspaceAdd { path: p }),
        }
    } else if toks[0] == "ls"@ {
        no_args(toks.drop_first(), CommandView::WorkspaceLs)
    } else if toks[0] == "run"@ {
        match scan_all(Seq::empty(), true, toks.drop_first()) {
            Err(e) => Err(e),
            Ok(st) => match exactly_one(st.pos) {
                Err(e) => Err(e),
                Ok(c) => Ok(CommandView::WorkspaceRun { command: c, args: st.last }),
            },
        }
    } else {
        Err(CliError::UnknownSubcommand)
    }
}

/// The meaning of subcommand `name` followed by `toks`.
pub open spec fn command_meaning(name: Seq<char>, toks: Seq<Seq<char>>) -> Result<CommandView, CliError> {
    if name == "init"@ {
        match opt_arg(toks) {
            Err(e) => Err(e),
            Ok(n) => Ok(CommandView::Init { name: n }),
        }
    } else if name == "create"@ {
        match one_arg(toks) {
            Err(e) => Err(e),
            Ok(t) => Ok(CommandView::Create { template: t }),
        }
    } else if name == "install"@ || name == "i"@ {
        no_args(toks, CommandView::Install)
    } else if name == "add"@ || name == "a"@ {
        match scan_all(add_opts(), false, toks) {
            Err(e) => Err(e),
            Ok(st) => if st.pos.len() == 0 {
                Err(CliError::MissingArgument)
            } else {
                Ok(CommandView::Add { pkgs: st.pos, dev: st.present[0], build: st.present[1] })
            },
        }
    } else if name == "remove"@ || name == "rm"@ {
        match one_arg(toks) {
            Err(e) => Err(e),
            Ok(p) => Ok(CommandView::Remove { pkg: p }),
        }
    } else if name == "update"@ || name == "up"@ {
        match opt_arg(toks) {
            Err(e) => Err(e),
            Ok(p) => Ok(CommandView::Update { pkg: p }),
        }
    } else if name == "outdated"@ {
        no_args(toks, CommandView::Outdated)
    } else if name == "build"@ || name == "b"@ {
        match scan_all(build_opts(), false, toks) {
            Err(e) => Err(e),
            Ok(st) => if st.pos.len() == 0 {
                Ok(CommandView::Build { release: st.present[0], compiler: value_of(st, 1) })
            } else {
                Err(CliError::UnexpectedArgument)
            },
        }
    } else if name == "run"@ {
        match scan_all(run_opts(), true, toks) {
            Err(e) => Err(e),
            Ok(st) => match at_most_one(st.pos) {
                Err(e) => Err(e),
                Ok(t) => Ok(CommandView::Run {
                    target: t,
                    args: st.last,
                    release: st.present[0],
                    jit: st.present[1],
                }),
            },
        }
    } else if name == "test"@ || name == "t"@ {
        no_args(toks, CommandView::Test)
    } else if name == "link"@ {
        match opt_arg(toks) {
            Err(e) => Err(e),
            Ok(p) => Ok(CommandView::Link { path: p }),
        }
    } else if name == "unlink"@ {
        match one_arg(toks) {
            Err(e) => Err(e),
            Ok(p) => Ok(CommandView::Unlink { pkg: p }),
        }
    } else if name == "publish"@ {
        no_args(toks, CommandView::Publish)
    } else if name == "pm"@ {
        pm_meaning(toks)
    } else if name == "upgrade"@ {
        no_args(toks, CommandView::Upgrade)
    } else if name == "patch"@ {
        match one_arg(toks) {
            Err(e) => Err(e),
            Ok(p) => Ok(CommandView::Patch { pkg: p }),
        }
    } else if name == "info"@ {
        no_args(toks, CommandView::Info)
    } else if name == "dev"@ {
        no_args(toks, CommandView::Dev)
    } else if name == "workspace"@ {
        workspace_meaning(toks)
    } else if name == "completions"@ {
        match one_arg(toks) {
            Err(e) => Err(e),
            Ok(s) => Ok(CommandView::Completions { shell: s }),
        }
    } else if name == "search"@ {
        match one_arg(toks) {
            Err(e) => Err(e),
            Ok(q) => Ok(CommandView::Search { query: q }),
        }
    } else if name == "fmt"@ {
        match scan_all(fmt_opts(), false, toks) {
            Err(e) => Err(e),
            Ok(st) => if st.pos.len() == 0 {
                Ok(CommandView::Fmt { check: st.present[0] })
            } else {
                Err(CliError::UnexpectedArgument)
            },
        }
    } else if name == "lint"@ {
        no_args(toks, CommandView::Lint)
    } else if name == "clean"@ {
        no_args(toks, CommandView::Clean)
    } else {
        Err(CliError::UnknownSubcommand)
    }
}

/// The meaning of a full argument list (`args[0]` is the program name).
pub open spec fn cli_meaning(args: Seq<Seq<char>>) -> Result<CommandView, CliError> {
    if args.len() < 2 {
        Err(CliError::MissingSubcommand)
    } else if is_flag_like(args[1]) {
        Err(CliError::UnexpectedArgument)
    } else {
        command_meaning(args[1], args.skip(2))
    }
}


// ───────────────────────────── scanning (execution) ─────────────────────────────

/// A flag or option definition.
pub struct OptDef {
    pub long: String,
    pub short: Option<char>,
    pub takes_value: bool,
}

impl View for OptDef {
    type V = OptSpec;

    open spec fn view(&self) -> OptSpec {
        OptSpec { long: self.long@, short: self.short, takes_value: self.takes_value }
    }
}

/// Views of a list of definitions.
pub open spec fn opt_views(v: Seq<OptDef>) -> Seq<OptSpec> {
    v.map_values(|o: OptDef| o@)
}

/// The scanning state.
pub struct ScanState {
    pub present: Vec<bool>,
    pub values: Vec<String>,
    pub pos: Vec<String>,
    pub last: Vec<String>,
    pub dd: bool,
}

impl View for ScanState {
    type V = Scan;

    open spec fn view(&self) -> Scan {
        Scan {
            present: self.present@,
            values: views(self.values@),
            pos: views(self.pos@),
            last: views(self.last@),
            dd: self.dd,
        }
    }
}

/// A definition.
fn def(long: &str, short: Option<char>, takes_value: bool) -> (r: OptDef)
    ensures
        r@ == (OptSpec { long: long@, short, takes_value }),
{
    OptDef { long: String::from_str(long), short, takes_value }
}

/// The flags and options of `build`.
fn build_defs() -> (r: Vec<OptDef>)
    ensures
        opt_views(r@) == build_opts(),
{
    let mut r = Vec::new();
    r.push(def("release", Some('r'), false));
    r.push(def("compiler", Some('c'), true));
    assert(opt_views(r@) =~= build_opts());
    r
}

/// The flags of `run`.
fn run_defs() -> (r: Vec<OptDef>)
    ensures
        opt_views(r@) == run_opts(),
{
    let mut r = Vec::new();
    r.push(def("release", Some('r'), false));
    r.push(def("jit", None, false));
    assert(opt_views(r@) =~= run_opts());
    r
}

/// The flags of `add`.
fn add_defs() -> (r: Vec<OptDef>)
    ensures
        opt_views(r@) == add_opts(),
{
    let mut r = Vec::new();
    r.push(def("dev", None, false));
    r.push(def("build", None, false));
    assert(opt_views(r@) =~= add_opts());
    r
}

/// The flags of `fmt`.
fn fmt_defs() -> (r: Vec<OptDef>)
    ensures
        opt_views(r@) == fmt_opts(),
{
    let mut r = Vec::new();
    r.push(def("check", None, false));
    assert(opt_views(r@) =~= fmt_opts());
    r
}

/// No flags or options.
fn no_defs() -> (r: Vec<OptDef>)
    ensures
        opt_views(r@) == Seq::<OptSpec>::empty(),
{
    let r: Vec<OptDef> = Vec::new();
    assert(opt_views(r@) =~= Seq::<OptSpec>::empty());
    r
}

/// Find an option by long name (the last definition with that name).
fn find_long_def(opts: &Vec<OptDef>, name: &[char]) -> (r: Option<usize>)
    ensures
        r is None ==> find_long(opt_views(opts@), name@) == -1,
        r matches Some(k) ==> find_long(opt_views(opts@), name@) == k as int && k < opts@.len(),
{
    let mut i: usize = opts.len();
    assert(opt_views(opts@).take(opts@.len() as int) == opt_views(opts@));
    while i > 0
        invariant
            i <= opts@.len(),
            find_long(opt_views(opts@), name@) == find_long(opt_views(opts@).take(i as int), name@),
        decreases i,
    {
        assert(opt_views(opts@).take(i as int).drop_last() == opt_views(opts@).take(i - 1));
        let l = chars_of(opts[i - 1].long.as_str());
        if crate::text::seq_eq(&l, name) {
            return Some(i - 1);
        }
        i = i - 1;
    }
    None
}

/// Find an option by short name (the last definition with that name).
fn find_short_def(opts: &Vec<OptDef>, c: char) -> (r: Option<usize>)
    ensures
        r is None ==> find_short(opt_views(opts@), c) == -1,
        r matches Some(k) ==> find_short(opt_views(opts@), c) == k as int && k < opts@.len(),
{
    let mut i: usize = opts.len();
    assert(opt_views(opts@).take(opts@.len() as int) == opt_views(opts@));
    while i > 0
        invariant
            i <= opts@.len(),
            find_short(opt_views(opts@), c) == find_short(opt_views(opts@).take(i as int), c),
        decreases i,
    {
        assert(opt_views(opts@).take(i as int).drop_last() == opt_views(opts@).take(i - 1));
        let matches = match opts[i - 1].short {
            Some(s) => s == c,
            None => false,
        };
        if matches {
            return Some(i - 1);
        }
        i = i - 1;
    }
    None
}

/// Whether a token reads as a flag.
fn flag_like(t: &[char]) -> (r: bool)
    ensures
        r == is_flag_like(t@),
{
    t.len() >= 2 && t[0] == '-'
}

/// One step of `scan` unfolds as the specification says.
proof fn lemma_scan_step(opts: Seq<OptSpec>, has_last: bool, toks: Seq<Seq<char>>, i: int, st: Scan)
    requires
        0 <= i < toks.len(),
    ensures
        scan(opts, has_last, toks.skip(i), st) == ({
            let t = toks[i];
            let rest = toks.skip(i + 1);
            if st.dd {
                if has_last {
                    scan(opts, has_last, rest, Scan { last: st.last.push(t), ..st })
                } else {
                    scan(opts, has_last, rest, Scan { pos: st.pos.push(t), ..st })
                }
            } else if t == seq!['-', '-'] {
                scan(opts, has_last, rest, Scan { dd: true, ..st })
            } else if is_long(t) {
                let k = find_long(opts, long_name(t));
                if k < 0 {
                    Err(CliError::UnexpectedArgument)
                } else {
                    take_opt(opts, has_last, rest, st, k, long_inline(t))
                }
            } else if is_flag_like(t) {
                let k = find_short(opts, t[1]);
                if k < 0 {
                    Err(CliError::UnexpectedArgument)
                } else if !opts[k].takes_value && t.len() > 2 {
                    Err(CliError::UnexpectedArgument)
                } else {
                    take_opt(opts, has_last, rest, st, k, short_inline(t))
                }
            } else {
                scan(opts, has_last, rest, Scan { pos: st.pos.push(t), ..st })
            }
        }),
{
    assert(toks.skip(i)[0] == toks[i]);
    assert(toks.skip(i).drop_first() == toks.skip(i + 1));
}

/// Record option `k` with a value.
fn set_value(st: &mut ScanState, k: usize, v: String)
    requires
        k < old(st).present@.len(),
        old(st).values@.len() == old(st).present@.len(),
    ensures
        final(st)@ == set_opt(old(st)@, k as int, v@),
        final(st).values@.len() == final(st).present@.len(),
        final(st).present@.len() == old(st).present@.len(),
{
    st.present.set(k, true);
    st.values.set(k, v);
    assert(views(st.values@) =~= views(old(st).values@).update(k as int, v@));
}

/// The inline value of a long token, and its name.
fn split_long(t: &[char]) -> (r: (Vec<char>, Option<Vec<char>>))
    requires
        is_long(t@),
    ensures
        r.0@ == long_name(t@),
        match r.1 {
            Some(v) => long_inline(t@) == Some(v@),
            None => long_inline(t@) is None,
        },
{
    let body = skip_chars(t, 2);
    match find_char(&body, '=') {
        Some(e) => {
            let bn = body.len();
            assert(e < bn);
            (take_chars(&body, e), Some(skip_chars(&body, e + 1)))
        },
        None => (body, None),
    }
}

/// The inline value of a short token.
fn split_short(t: &[char]) -> (r: Option<Vec<char>>)
    ensures
        match r {
            Some(v) => short_inline(t@) == Some(v@),
            None => short_inline(t@) is None,
        },
{
    if t.len() <= 2 {
        None
    } else if t[2] == '=' {
        Some(skip_chars(t, 3))
    } else {
        Some(skip_chars(t, 2))
    }
}

/// View of an optional character vector.
pub open spec fn chars_opt(o: Option<Vec<char>>) -> Option<Seq<char>> {
    match o {
        Some(v) => Some(v@),
        None => None,
    }
}

/// Handle option `k` whose token ended at `next` (see `take_opt`); returns
/// where scanning resumes.
fn take_option(
    opts: &Vec<OptDef>,
    has_last: bool,
    toks: &Vec<String>,
    next: usize,
    st: &mut ScanState,
    k: usize,
    inline: Option<Vec<char>>,
) -> (r: Result<usize, CliError>)
    requires
        next <= toks@.len(),
        k < opts@.len(),
        old(st).present@.len() == opts@.len(),
        old(st).values@.len() == opts@.len(),
    ensures
        final(st).present@.len() == opts@.len(),
        final(st).values@.len() == opts@.len(),
        match r {
            Ok(j) => next <= j <= toks@.len() && take_opt(
                opt_views(opts@),
                has_last,
                views(toks@).skip(next as int),
                old(st)@,
                k as int,
                chars_opt(inline),
            ) == scan(opt_views(opts@), has_last, views(toks@).skip(j as int), final(st)@),
            Err(e) => take_opt(
                opt_views(opts@),
                has_last,
                views(toks@).skip(next as int),
                old(st)@,
                k as int,
                chars_opt(inline),
            ) == Err::<Scan, CliError>(e),
        },
{
    let ghost tv = views(toks@);
    let ghost rest = tv.skip(next as int);
    assert(opt_views(opts@)[k as int] == opts@[k as int]@);
    if st.present[k] {
        return Err(CliError::DuplicateArgument);
    }
    if !opts[k].takes_value {
        if inline.is_some() {
            return Err(CliError::UnexpectedArgument);
        }
        set_value(st, k, String::new());
        return Ok(next);
    }
    match inline {
        Some(v) => {
            set_value(st, k, string_of(&v));
            Ok(next)
        },
        None => {
            if next >= toks.len() {
                return Err(CliError::MissingValue);
            }
            let nt = chars_of(toks[next].as_str());
            assert(rest[0] == tv[next as int]);
            if flag_like(&nt) {
                return Err(CliError::MissingValue);
            }
            assert(rest.drop_first() == tv.skip(next + 1));
            set_value(st, k, toks[next].clone());
            Ok(next + 1)
        },
    }
}

/// Scan the tokens `toks[start..]` (see `scan_all`).
pub fn scan_tokens(opts: &Vec<OptDef>, has_last: bool, toks: &Vec<String>, start: usize) -> (r: Result<ScanState, CliError>)
    requires
        start <= toks@.len(),
    ensures
        match r {
            Ok(st) => scan_all(opt_views(opts@), has_last, views(toks@).skip(start as int)) == Ok::<Scan, CliError>(st@)
                && st.present@.len() == opts@.len() && st.values@.len() == opts@.len(),
            Err(e) => scan_all(opt_views(opts@), has_last, views(toks@).skip(start as int)) == Err::<Scan, CliError>(e),
        },
{
    let ghost ov = opt_views(opts@);
    let ghost tv = views(toks@);
    let n = opts.len();
    let mut present: Vec<bool> = Vec::new();
    let mut values: Vec<String> = Vec::new();
    let mut j: usize = 0;
    while j < n
        invariant
            n == opts@.len(),
            j <= n,
            present@ == Seq::new(j as nat, |x: int| false),
            values@.len() == j,
            views(values@) == Seq::new(j as nat, |x: int| Seq::<char>::empty()),
        decreases n - j,
    {
        present.push(false);
        let e = String::new();
        let ghost before = values@;
        values.push(e);
        assert forall|x: int| 0 <= x < j + 1 implies #[trigger] views(values@)[x] == Seq::<char>::empty() by {
            if x < j {
                assert(values@[x] == before[x]);
                assert(views(before)[x] == Seq::<char>::empty());
            }
        }
        assert(present@ =~= Seq::new((j + 1) as nat, |x: int| false));
        assert(views(values@) =~= Seq::new((j + 1) as nat, |x: int| Seq::<char>::empty()));
        j = j + 1;
    }
    let mut st = ScanState { present, values, pos: Vec::new(), last: Vec::new(), dd: false };
    assert(views(st.pos@) =~= Seq::<Seq<char>>::empty());
    assert(views(st.last@) =~= Seq::<Seq<char>>::empty());
    assert(st@ == initial_scan(ov.len()));
    let mut i: usize = start;
    while i < toks.len()
        invariant
            start <= i <= toks@.len(),
            ov == opt_views(opts@),
            tv == views(toks@),
            ov.len() == opts@.len(),
            st.present@.len() == opts@.len(),
            st.values@.len() == opts@.len(),
            scan(ov, has_last, tv.skip(i as int), st@) == scan_all(ov, has_last, tv.skip(start as int)),
        decreases toks@.len() - i,
    {
        proof {
            lemma_scan_step(ov, has_last, tv, i as int, st@);
        }
        let t = chars_of(toks[i].as_str());
        assert(t@ == tv[i as int]);
        let ghost s0 = st@;
        if st.dd {
            if has_last {
                st.last.push(toks[i].clone());
                assert(views(st.last@) =~= s0.last.push(tv[i as int]));
                assert(st@ == Scan { last: s0.last.push(tv[i as int]), ..s0 });
            } else {
                st.pos.push(toks[i].clone());
                assert(views(st.pos@) =~= s0.pos.push(tv[i as int]));
                assert(st@ == Scan { pos: s0.pos.push(tv[i as int]), ..s0 });
            }
            i = i + 1;
        } else if t.len() == 2 && t[0] == '-' && t[1] == '-' {
            assert(t@ =~= seq!['-', '-']);
            st.dd = true;
            i = i + 1;
        } else if t.len() > 2 && t[0] == '-' && t[1] == '-' {
            assert(t@ != seq!['-', '-']);
            let (name, inline) = split_long(&t);
            match find_long_def(opts, &name) {
                None => {
                    return Err(CliError::UnexpectedArgument);
                },
                Some(k) => {
                    match take_option(opts, has_last, toks, i + 1, &mut st, k, inline) {
                        Err(e) => {
                            return Err(e);
                        },
                        Ok(j) => {
                            i = j;
                        },
                    }
                },
            }
        } else if flag_like(&t) {
            assert(t@ != seq!['-', '-']);
            assert(!is_long(t@));
            match find_short_def(opts, t[1]) {
                None => {
                    return Err(CliError::UnexpectedArgument);
                },
                Some(k) => {
                    assert(ov[k as int] == opts@[k as int]@);
                    if !opts[k].takes_value && t.len() > 2 {
                        return Err(CliError::UnexpectedArgument);
                    }
                    let inline = split_short(&t);
                    match take_option(opts, has_last, toks, i + 1, &mut st, k, inline) {
                        Err(e) => {
                            return Err(e);
                        },
                        Ok(j) => {
                            i = j;
                        },
                    }
                },
            }
        } else {
            assert(t@ != seq!['-', '-']);
            st.pos.push(toks[i].clone());
            assert(views(st.pos@) =~= s0.pos.push(tv[i as int]));
            assert(st@ == Scan { pos: s0.pos.push(tv[i as int]), ..s0 });
            i = i + 1;
        }
    }
    assert(tv.skip(i as int).len() == 0);
    Ok(st)
}


// ───────────────────────────── parsing ─────────────────────────────

/// The result of a parse, viewed.
pub open spec fn result_view(r: Result<Commands, CliError>) -> Result<CommandView, CliError> {
    match r {
        Ok(c) => Ok(c@),
        Err(e) => Err(e),
    }
}

/// Positional arguments only, from `toks[start..]`.
fn positional_args(toks: &Vec<String>, start: usize) -> (r: Result<Vec<String>, CliError>)
    requires
        start <= toks@.len(),
    ensures
        match r {
            Ok(p) => positionals(views(toks@).skip(start as int)) == Ok::<Seq<Seq<char>>, CliError>(views(p@)),
            Err(e) => positionals(views(toks@).skip(start as int)) == Err::<Seq<Seq<char>>, CliError>(e),
        },
{
    let defs = no_defs();
    match scan_tokens(&defs, false, toks, start) {
        Err(e) => Err(e),
        Ok(st) => Ok(st.pos),
    }
}

/// A subcommand without arguments.
fn no_args_cmd(toks: &Vec<String>, start: usize, c: Commands) -> (r: Result<Commands, CliError>)
    requires
        start <= toks@.len(),
    ensures
        result_view(r) == no_args(views(toks@).skip(start as int), c@),
{
    let defs = no_defs();
    match scan_tokens(&defs, false, toks, start) {
        Err(e) => Err(e),
        Ok(st) => if st.pos.len() == 0 {
            Ok(c)
        } else {
            Err(CliError::UnexpectedArgument)
        },
    }
}

/// Exactly one positional argument.
fn one_positional(toks: &Vec<String>, start: usize) -> (r: Result<String, CliError>)
    requires
        start <= toks@.len(),
    ensures
        match r {
            Ok(p) => one_arg(views(toks@).skip(start as int)) == Ok::<Seq<char>, CliError>(p@),
            Err(e) => one_arg(views(toks@).skip(start as int)) == Err::<Seq<char>, CliError>(e),
        },
{
    match positional_args(toks, start) {
        Err(e) => Err(e),
        Ok(p) => if p.len() == 0 {
            Err(CliError::MissingArgument)
        } else if p.len() == 1 {
            Ok(p[0].clone())
        } else {
            Err(CliError::UnexpectedArgument)
        },
    }
}

/// At most one positional argument.
fn opt_positional(toks: &Vec<String>, start: usize) -> (r: Result<Option<String>, CliError>)
    requires
        start <= toks@.len(),
    ensures
        match r {
            Ok(p) => opt_arg(views(toks@).skip(start as int)) == Ok::<Option<Seq<char>>, CliError>(opt_view(p)),
            Err(e) => opt_arg(views(toks@).skip(start as int)) == Err::<Option<Seq<char>>, CliError>(e),
        },
{
    match positional_args(toks, start) {
        Err(e) => Err(e),
        Ok(p) => if p.len() == 0 {
            Ok(None)
        } else if p.len() == 1 {
            Ok(Some(p[0].clone()))
        } else {
            Err(CliError::UnexpectedArgument)
        },
    }
}

/// `hut pm ...`, with the nested subcommand at `toks[start]`.
fn pm_command(toks: &Vec<String>, start: usize) -> (r: Result<Commands, CliError>)
    requires
        start <= toks@.len(),
    ensures
        result_view(r) == pm_meaning(views(toks@).skip(start as int)),
{
    let ghost tv = views(toks@).skip(start as int);
    if start >= toks.len() {
        return Err(CliError::MissingSubcommand);
    }
    let sub = chars_of(toks[start].as_str());
    assert(sub@ == tv[0]);
    assert(tv.drop_first() == views(toks@).skip(start + 1));
    if flag_like(&sub) {
        Err(CliError::UnexpectedArgument)
    } else if eq_lit(&sub, "cache") {
        no_args_cmd(toks, start + 1, Commands::Pm(PmCommand::Cache))
    } else if eq_lit(&sub, "ls") {
        no_args_cmd(toks, start + 1, Commands::Pm(PmCommand::Ls))
    } else if eq_lit(&sub, "bin") {
        no_args_cmd(toks, start + 1, Commands::Pm(PmCommand::Bin))
    } else {
        Err(CliError::UnknownSubcommand)
    }
}

/// `hut workspace ...`, with the nested subcommand at `toks[start]`.
fn workspace_command(toks: &Vec<String>, start: usize) -> (r: Result<Commands, CliError>)
    requires
        start <= toks@.len(),
    ensures
        result_view(r) == workspace_meaning(views(toks@).skip(start as int)),
{
    let ghost tv = views(toks@).skip(start as int);
    if start >= toks.len() {
        return Err(CliError::MissingSubcommand);
    }
    let sub = chars_of(toks[start].as_str());
    assert(sub@ == tv[0]);
    assert(tv.drop_first() == views(toks@).skip(start + 1));
    if flag_like(&sub) {
        Err(CliError::UnexpectedArgument)
    } else if eq_lit(&sub, "add") {
        match one_positional(toks, start + 1) {
            Err(e) => Err(e),
            Ok(p) => Ok(Commands::Workspace(WorkspaceCommand::Add { path: p })),
        }
    } else if eq_lit(&sub, "ls") {
        no_args_cmd(toks, start + 1, Commands::Workspace(WorkspaceCommand::Ls))
    } else if eq_lit(&sub, "run") {
        let defs = no_defs();
        match scan_tokens(&defs, true, toks, start + 1) {
            Err(e) => Err(e),
            Ok(st) => if st.pos.len() == 0 {
                Err(CliError::MissingArgument)
            } else if st.pos.len() == 1 {
                Ok(Commands::Workspace(WorkspaceCommand::Run { command: st.pos[0].clone(), args: st.last }))
            } else {
                Err(CliError::UnexpectedArgument)
            },
        }
    } else {
        Err(CliError::UnknownSubcommand)
    }
}

/// `hut add ...`.
fn add_command(toks: &Vec<String>, start: usize) -> (r: Result<Commands, CliError>)
    requires
        start <= toks@.len(),
    ensures
        match scan_all(add_opts(), false, views(toks@).skip(start as int)) {
            Err(e) => r == Err::<Commands, CliError>(e),
            Ok(st) => if st.pos.len() == 0 {
                r == Err::<Commands, CliError>(CliError::MissingArgument)
            } else {
                result_view(r) == Ok::<CommandView, CliError>(
                    CommandView::Add { pkgs: st.pos, dev: st.present[0], build: st.present[1] },
                )
            },
        },
{
    let defs = add_defs();
    match scan_tokens(&defs, false, toks, start) {
        Err(e) => Err(e),
        Ok(st) => if st.pos.len() == 0 {
            Err(CliError::MissingArgument)
        } else {
            let dev = st.present[0];
            let build = st.present[1];
            Ok(Commands::Add { pkgs: st.pos, dev, build })
        },
    }
}

/// `hut build ...`.
fn build_command(toks: &Vec<String>, start: usize) -> (r: Result<Commands, CliError>)
    requires
        start <= toks@.len(),
    ensures
        match scan_all(build_opts(), false, views(toks@).skip(start as int)) {
            Err(e) => r == Err::<Commands, CliError>(e),
            Ok(st) => if st.pos.len() == 0 {
                result_view(r) == Ok::<CommandView, CliError>(
                    CommandView::Build { release: st.present[0], compiler: value_of(st, 1) },
                )
            } else {
                r == Err::<Commands, CliError>(CliError::UnexpectedArgument)
            },
        },
{
    let defs = build_defs();
    match scan_tokens(&defs, false, toks, start) {
        Err(e) => Err(e),
        Ok(st) => if st.pos.len() == 0 {
            let release = st.present[0];
            let compiler = if st.present[1] { Some(st.values[1].clone()) } else { None };
            Ok(Commands::Build { release, compiler })
        } else {
            Err(CliError::UnexpectedArgument)
        },
    }
}

/// `hut run ...`.
fn run_command(toks: &Vec<String>, start: usize) -> (r: Result<Commands, CliError>)
    requires
        start <= toks@.len(),
    ensures
        match scan_all(run_opts(), true, views(toks@).skip(start as int)) {
            Err(e) => r == Err::<Commands, CliError>(e),
            Ok(st) => match at_most_one(st.pos) {
                Err(e) => r == Err::<Commands, CliError>(e),
                Ok(t) => result_view(r) == Ok::<CommandView, CliError>(
                    CommandView::Run { target: t, args: st.last, release: st.present[0], jit: st.present[1] },
                ),
            },
        },
{
    let defs = run_defs();
    match scan_tokens(&defs, true, toks, start) {
        Err(e) => Err(e),
        Ok(st) => {
            let release = st.present[0];
            let jit = st.present[1];
            if st.pos.len() == 0 {
                Ok(Commands::Run { target: None, args: st.last, release, jit })
            } else if st.pos.len() == 1 {
                let t = st.pos[0].clone();
                Ok(Commands::Run { target: Some(t), args: st.last, release, jit })
            } else {
                Err(CliError::UnexpectedArgument)
            }
        },
    }
}

/// `hut fmt ...`.
fn fmt_command(toks: &Vec<String>, start: usize) -> (r: Result<Commands, CliError>)
    requires
        start <= toks@.len(),
    ensures
        match scan_all(fmt_opts(), false, views(toks@).skip(start as int)) {
            Err(e) => r == Err::<Commands, CliError>(e),
            Ok(st) => if st.pos.len() == 0 {
                result_view(r) == Ok::<CommandView, CliError>(CommandView::Fmt { check: st.present[0] })
            } else {
                r == Err::<Commands, CliError>(CliError::UnexpectedArgument)
            },
        },
{
    let defs = fmt_defs();
    match scan_tokens(&defs, false, toks, start) {
        Err(e) => Err(e),
        Ok(st) => if st.pos.len() == 0 {
            Ok(Commands::Fmt { check: st.present[0] })
        } else {
            Err(CliError::UnexpectedArgument)
        },
    }
}

/// The subcommands from `publish` on (in the order `command_meaning` tests them).
fn later_command(name: &[char], toks: &Vec<String>, start: usize) -> (r: Result<Commands, CliError>)
    requires
        start <= toks@.len(),
        name@ != "init"@, name@ != "create"@, name@ != "install"@, name@ != "i"@,
        name@ != "add"@, name@ != "a"@, name@ != "remove"@, name@ != "rm"@,
        name@ != "update"@, name@ != "up"@, name@ != "outdated"@, name@ != "build"@,
        name@ != "b"@, name@ != "run"@, name@ != "test"@, name@ != "t"@,
        name@ != "link"@, name@ != "unlink"@,
    ensures
        result_view(r) == command_meaning(name@, views(toks@).skip(start as int)),
{
    if eq_lit(name, "publish") {
        no_args_cmd(toks, start, Commands::Publish)
    } else if eq_lit(name, "pm") {
        pm_command(toks, start)
    } else if eq_lit(name, "upgrade") {
        no_args_cmd(toks, start, Commands::Upgrade)
    } else if eq_lit(name, "patch") {
        match one_positional(toks, start) {
            Err(e) => Err(e),
            Ok(p) => Ok(Commands::Patch { pkg: p }),
        }
    } else if eq_lit(name, "info") {
        no_args_cmd(toks, start, Commands::Info)
    } else if eq_lit(name, "dev") {
        no_args_cmd(toks, start, Commands::Dev)
    } else if eq_lit(name, "workspace") {
        workspace_command(toks, start)
    } else if eq_lit(name, "completions") {
        match one_positional(toks, start) {
            Err(e) => Err(e),
            Ok(s) => Ok(Commands::Completions { shell: s }),
        }
    } else if eq_lit(name, "search") {
        match one_positional(toks, start) {
            Err(e) => Err(e),
            Ok(q) => Ok(Commands::Search { query: q }),
        }
    } else if eq_lit(name, "fmt") {
        fmt_command(toks, start)
    } else if eq_lit(name, "lint") {
        no_args_cmd(toks, start, Commands::Lint)
    } else if eq_lit(name, "clean") {
        no_args_cmd(toks, start, Commands::Clean)
    } else {
        Err(CliError::UnknownSubcommand)
    }
}

/// Subcommand `name` with its arguments at `toks[start..]`.
fn command_from(name: &[char], toks: &Vec<String>, start: usize) -> (r: Result<Commands, CliError>)
    requires
        start <= toks@.len(),
    ensures
        result_view(r) == command_meaning(name@, views(toks@).skip(start as int)),
{
    if eq_lit(name, "init") {
        match opt_positional(toks, start) {
            Err(e) => Err(e),
            Ok(n) => Ok(Commands::Init { name: n }),
        }
    } else if eq_lit(name, "create") {
        match one_positional(toks, start) {
            Err(e) => Err(e),
            Ok(t) => Ok(Commands::Create { template: t }),
        }
    } else if eq_lit(name, "install") || eq_lit(name, "i") {
        no_args_cmd(toks, start, Commands::Install)
    } else if eq_lit(name, "add") || eq_lit(name, "a") {
        add_command(toks, start)
    } else if eq_lit(name, "remove") || eq_lit(name, "rm") {
        match one_positional(toks, start) {
            Err(e) => Err(e),
            Ok(p) => Ok(Commands::Remove { pkg: p }),
        }
    } else if eq_lit(name, "update") || eq_lit(name, "up") {
        match opt_positional(toks, start) {
            Err(e) => Err(e),
            Ok(p) => Ok(Commands::Update { pkg: p }),
        }
    } else if eq_lit(name, "outdated") {
        no_args_cmd(toks, start, Commands::Outdated)
    } else if eq_lit(name, "build") || eq_lit(name, "b") {
        build_command(toks, start)
    } else if eq_lit(name, "run") {
        run_command(toks, start)
    } else if eq_lit(name, "test") || eq_lit(name, "t") {
        no_args_cmd(toks, start, Commands::Test)
    } else if eq_lit(name, "link") {
        match opt_positional(toks, start) {
            Err(e) => Err(e),
            Ok(p) => Ok(Commands::Link { path: p }),
        }
    } else if eq_lit(name, "unlink") {
        match one_positional(toks, start) {
            Err(e) => Err(e),
            Ok(p) => Ok(Commands::Unlink { pkg: p }),
        }
    } else {
        later_command(name, toks, start)
    }
}

impl Cli {
    /// Parse a full argument list; `args[0]` is the program name.
    pub fn try_parse_from(args: Vec<String>) -> (r: Result<Cli, CliError>)
        ensures
            match r {
                Ok(cli) => cli_meaning(views(args@)) == Ok::<CommandView, CliError>(cli.command@),
                Err(e) => cli_meaning(views(args@)) == Err::<CommandView, CliError>(e),
            },
    {
        let ghost av = views(args@);
        if args.len() < 2 {
            return Err(CliError::MissingSubcommand);
        }
        let name = chars_of(args[1].as_str());
        assert(name@ == av[1]);
        if flag_like(&name) {
            return Err(CliError::UnexpectedArgument);
        }
        assert(views(args@).skip(2) == av.skip(2));
        match command_from(&name, &args, 2) {
            Ok(command) => Ok(Cli { command }),
            Err(e) => Err(e),
        }
    }
}

// ───────────────────────────── laws ─────────────────────────────

/// Each short alias means exactly what its subcommand means, whatever
/// follows it: `i` is `install`, `a` is `add`, `rm` is `remove`, `up` is
/// `update`, `b` is `build`, `t` is `test`.
pub proof fn law_aliases(toks: Seq<Seq<char>>)
    ensures
        command_meaning("i"@, toks) == command_meaning("install"@, toks),
        command_meaning("a"@, toks) == command_meaning("add"@, toks),
        command_meaning("rm"@, toks) == command_meaning("remove"@, toks),
        command_meaning("up"@, toks) == command_meaning("update"@, toks),
        command_meaning("b"@, toks) == command_meaning("build"@, toks),
        command_meaning("t"@, toks) == command_meaning("test"@, toks),
{
    reveal_strlit("init");
    reveal_strlit("create");
    reveal_strlit("install");
    reveal_strlit("i");
    reveal_strlit("add");
    reveal_strlit("a");
    reveal_strlit("remove");
    reveal_strlit("rm");
    reveal_strlit("update");
    reveal_strlit("up");
    reveal_strlit("outdated");
    reveal_strlit("build");
    reveal_strlit("b");
    reveal_strlit("run");
    reveal_strlit("test");
    reveal_strlit("t");
    assert("init"@.len() == 4 && "create"@.len() == 6 && "install"@.len() == 7 && "i"@.len() == 1);
    assert("add"@.len() == 3 && "a"@.len() == 1 && "remove"@.len() == 6 && "rm"@.len() == 2);
    assert("update"@.len() == 6 && "up"@.len() == 2 && "outdated"@.len() == 8 && "build"@.len() == 5);
    assert("b"@.len() == 1 && "run"@.len() == 3 && "test"@.len() == 4 && "t"@.len() == 1);
    assert("i"@[0] == 'i' && "a"@[0] == 'a' && "b"@[0] == 'b' && "t"@[0] == 't');
    assert("add"@[0] == 'a' && "rm"@[0] == 'r' && "up"@[0] == 'u' && "run"@[0] == 'r');
    assert("create"@[0] == 'c' && "remove"@[0] == 'r' && "update"@[0] == 'u' && "init"@[0] == 'i');
    assert("test"@[0] == 't' && "build"@[0] == 'b' && "install"@[0] == 'i' && "outdated"@[0] == 'o');
    assert("rm"@[1] == 'm' && "up"@[1] == 'p');
    assert("create"@[1] == 'r' && "remove"@[1] == 'e' && "update"@[1] == 'p');
}

/// A token list that does not start with a known subcommand is refused as
/// an unknown subcommand.
pub proof fn law_unknown_subcommand(args: Seq<Seq<char>>)
    requires
        args.len() >= 2,
        !is_flag_like(args[1]),
        command_meaning(args[1], args.skip(2)) == Err::<CommandView, CliError>(CliError::UnknownSubcommand),
    ensures
        cli_meaning(args) == Err::<CommandView, CliError>(CliError::UnknownSubcommand),
{
}

/// The first `=` of `name=value` follows the name when the name holds none.
proof fn lemma_first_equals(name: Seq<char>, value: Seq<char>)
    requires
        forall|i: int| 0 <= i < name.len() ==> name[i] != '=',
    ensures
        first_index_of(name + seq!['='] + value, '=') == name.len(),
    decreases name.len(),
{
    let t = name + seq!['='] + value;
    if name.len() == 0 {
        assert(t[0] == '=');
    } else {
        lemma_first_equals(name.drop_first(), value);
        assert(t.drop_first() =~= name.drop_first() + seq!['='] + value);
        assert(t[0] == name[0]);
    }
}

/// A long option written `--name=value` (a name without `=`) names `name`
/// and carries exactly `value`, all the text after the first `=`.
pub proof fn law_long_inline_value(name: Seq<char>, value: Seq<char>)
    requires
        forall|i: int| 0 <= i < name.len() ==> name[i] != '=',
    ensures
        long_name(seq!['-', '-'] + name + seq!['='] + value) == name,
        long_inline(seq!['-', '-'] + name + seq!['='] + value) == Some(value),
{
    let t = seq!['-', '-'] + name + seq!['='] + value;
    let body = name + seq!['='] + value;
    assert(t.skip(2) =~= body);
    lemma_first_equals(name, value);
    assert(body.take(name.len() as int) =~= name);
    assert(body.skip(name.len() as int + 1) =~= value);
}

/// `build --compiler=X` builds in debug mode with compiler `X`, whatever
/// `X` is.
pub proof fn law_build_compiler_value(program: Seq<char>, x: Seq<char>)
    ensures
        cli_meaning(seq![program, "build"@, "--compiler="@ + x]) == Ok::<CommandView, CliError>(
            CommandView::Build { release: false, compiler: Some(x) },
        ),
{
    reveal_strlit("init");
    reveal_strlit("create");
    reveal_strlit("install");
    reveal_strlit("i");
    reveal_strlit("add");
    reveal_strlit("a");
    reveal_strlit("remove");
    reveal_strlit("rm");
    reveal_strlit("update");
    reveal_strlit("up");
    reveal_strlit("outdated");
    reveal_strlit("build");
    reveal_strlit("compiler");
    reveal_strlit("--compiler=");
    assert("init"@.len() == 4 && "create"@.len() == 6 && "install"@.len() == 7 && "i"@.len() == 1);
    assert("add"@.len() == 3 && "a"@.len() == 1 && "remove"@.len() == 6 && "rm"@.len() == 2);
    assert("update"@.len() == 6 && "up"@.len() == 2 && "outdated"@.len() == 8 && "build"@.len() == 5);
    assert("build"@[0] == 'b' && "create"@[0] == 'c' && "remove"@[0] == 'r' && "update"@[0] == 'u');
    assert("init"@[0] == 'i' && "install"@[0] == 'i' && "outdated"@[0] == 'o');
    let args = seq![program, "build"@, "--compiler="@ + x];
    let tok = "--compiler="@ + x;
    let name = "compiler"@;
    assert(forall|i: int| 0 <= i < name.len() ==> name[i] != '=');
    assert(tok =~= seq!['-', '-'] + name + seq!['='] + x);
    law_long_inline_value(name, x);
    assert(!is_flag_like(args[1]));
    let toks = args.skip(2);
    assert(toks =~= seq![tok]);
    assert(toks.drop_first() =~= Seq::<Seq<char>>::empty());
    assert(tok != seq!['-', '-']) by {
        assert(tok.len() != 2);
    }
    assert(is_long(tok));
    let opts = build_opts();
    assert(find_long(opts, name) == 1);
    let st0 = initial_scan(2);
    assert(!st0.present[1]);
    let st1 = set_opt(st0, 1, x);
    assert(scan(opts, false, toks, st0) == take_opt(opts, false, Seq::empty(), st0, 1, Some(x)));
    assert(scan_all(opts, false, toks) == Ok::<Scan, CliError>(st1));
    assert(st1.present[1] && st1.values[1] == x && !st1.present[0] && st1.pos.len() == 0);
}

/// A short option carries the text after its letter, without a leading
/// `=`: `-cVALUE` and `-c=VALUE` both carry `VALUE`.
pub proof fn law_short_inline_value(c: char, value: Seq<char>)
    requires
        value.len() > 0,
        value[0] != '=',
    ensures
        short_inline(seq!['-', c] + value) == Some(value),
        short_inline(seq!['-', c, '='] + value) == Some(value),
{
    assert((seq!['-', c] + value).skip(2) =~= value);
    assert((seq!['-', c, '='] + value).skip(3) =~= value);
    assert((seq!['-', c] + value)[2] == value[0]);
    assert((seq!['-', c, '='] + value)[2] == '=');
}

} // verus!
