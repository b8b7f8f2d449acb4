//! Dependency resolution. Semver constraints from hut.toml (e.g. `^1.0`) are
//! matched against the git tags of a package's repository; the lockfile pins
//! exact versions. Fetching sources and reading manifests is the caller's
//! part: the resolver decides what to fetch, and records what was fetched.
//!
//! A run goes: `initial_queue`, then repeatedly `next_request`,
//! `plan_package`, (fetch), `package_for`, `include_candidates`, (check the
//! candidates on disk), `finish`; at the end `into_result`.

use vstd::prelude::*;

use crate::config::HutConfig;
use crate::error::HutError;
use crate::index::{github_url, PackageEntry, PackagesIndex};
use crate::lockfile::{LockedPackage, Lockfile};
use crate::package::{copy_strings, extend_strings, BuildConfig, Package, ResolvedDependency};
use crate::table::{sorted_keys, table_find, table_insert, table_view, lemma_view_at};
use crate::tags::{opt_req, strip_tag_prefix, stripped_tag};
use crate::text::{chars_of, concat3, eq_lit, join_path, path_join, str_eq, string_of, trim, trim_chars, views};
use crate::versions::{spec_req_error, spec_req_matches, spec_version_parse, Requirement, SemVer};

verus! {

// ───────────────────────────── constraints and pins ─────────────────────────────

/// Constraints that accept any version.
pub open spec fn is_wildcard(t: Seq<char>) -> bool {
    t.len() == 0 || t == "*"@ || t == "latest"@ || t == "x"@
}

/// The requirement a constraint text stands for: none for a wildcard or a
/// text that does not parse (any version is then accepted).
pub open spec fn constraint_of(s: Seq<char>) -> Option<Seq<char>> {
    let t = trim(s);
    if is_wildcard(t) || spec_req_error(t) is Some { None } else { Some(t) }
}

/// Parse a semver constraint from hut.toml; `None` for wildcard constraints
/// (`*`, `latest`, `x`, empty) and for texts that do not parse.
pub fn parse_constraint(s: &str) -> (r: Option<Requirement>)
    ensures
        opt_req(r) == constraint_of(s@),
{
    let t = string_of(&trim_chars(&chars_of(s)));
    let tc = chars_of(t.as_str());
    if tc.len() == 0 || eq_lit(&tc, "*") || eq_lit(&tc, "latest") || eq_lit(&tc, "x") {
        return None;
    }
    match Requirement::parse(t.as_str()) {
        Ok(q) => Some(q),
        Err(_) => None,
    }
}

/// The entry under a key of a map, if any.
pub open spec fn lookup<V>(m: Map<Seq<char>, V>, k: Seq<char>) -> Option<V> {
    if m.contains_key(k) { Some(m[k]) } else { None }
}

/// The locked version to use: the lockfile's tag when it parses as a version
/// that the constraint (if any) matches, or when it is no version (such as
/// `main`) and there is no constraint.
pub open spec fn pinned_version(locked: Option<LockedPackage>, c: Option<Seq<char>>) -> Option<Seq<char>> {
    match locked {
        None => None,
        Some(l) => match spec_version_parse(stripped_tag(l.version@)) {
            Some(v) => if (match c {
                None => true,
                Some(q) => spec_req_matches(q, v),
            }) {
                Some(l.version@)
            } else {
                None
            },
            None => if c is None { Some(l.version@) } else { None },
        },
    }
}

/// View of an optional string.
pub open spec fn opt_str(o: Option<String>) -> Option<Seq<char>> {
    match o {
        Some(s) => Some(s@),
        None => None,
    }
}

/// What to fetch for one package.
pub struct Target {
    /// The repository's clone URL.
    pub repo_url: String,
    /// The parsed constraint, if it restricts the version.
    pub constraint: Option<Requirement>,
    /// The lockfile's version, when it is to be used; otherwise the version
    /// is the best tag of the repository (`crate::tags::resolve_best_version`).
    pub pinned: Option<String>,
}

/// Decide where package `name` comes from and which version the lockfile
/// pins for it.
pub fn plan_package(index: &PackagesIndex, lockfile: &Lockfile, name: &str, constraint: &str) -> (r: Result<
    Target,
    HutError,
>)
    requires
        index.wf(),
        lockfile.wf(),
    ensures
        match r {
            Err(e) => !index.entries().contains_key(name@) && (e matches HutError::PackageNotFound(m) && m@
                == name@),
            Ok(t) => index.entries().contains_key(name@) && t.repo_url@ == github_url(
                index.entries()[name@].repo@,
            ) && opt_req(t.constraint) == constraint_of(constraint@) && opt_str(t.pinned) == pinned_version(
                lookup(lockfile.entries(), name@),
                constraint_of(constraint@),
            ),
        },
{
    let entry = match index.find(name) {
        Some(e) => e,
        None => {
            return Err(HutError::PackageNotFound(String::from_str(name)));
        },
    };
    let repo_url = concat3("https://github.com/", entry.repo.as_str(), ".git");
    let c = parse_constraint(constraint);
    let pinned = match lockfile.get(name) {
        None => None,
        Some(locked) => {
            let stripped = strip_tag_prefix(locked.version.as_str());
            match SemVer::parse(stripped.as_str()) {
                Some(v) => {
                    let ok = match &c {
                        None => true,
                        Some(q) => q.matches(&v),
                    };
                    if ok {
                        Some(locked.version.clone())
                    } else {
                        None
                    }
                },
                None => if c.is_none() {
                    Some(locked.version.clone())
                } else {
                    None
                },
            }
        },
    };
    Ok(Target { repo_url, constraint: c, pinned })
}

// ───────────────────────────── the work queue ─────────────────────────────

/// Views of a queue of (name, constraint) pairs.
pub open spec fn pair_views(q: Seq<(String, String)>) -> Seq<(Seq<char>, Seq<char>)> {
    q.map_values(|p: (String, String)| (p.0@, p.1@))
}

/// Copy a list of pairs of strings.
fn copy_pairs(v: &Vec<(String, String)>, out: &mut Vec<(String, String)>)
    ensures
        pair_views(final(out)@) == pair_views(old(out)@) + pair_views(v@),
{
    let mut i: usize = 0;
    while i < v.len()
        invariant
            i <= v@.len(),
            pair_views(out@) == pair_views(old(out)@) + pair_views(v@.take(i as int)),
        decreases v@.len() - i,
    {
        let ghost before = out@;
        out.push((v[i].0.clone(), v[i].1.clone()));
        assert(pair_views(v@.take(i + 1)) =~= pair_views(v@.take(i as int)).push((v@[i as int].0@, v@[i as int].1@)));
        assert(pair_views(out@) =~= pair_views(before).push((v@[i as int].0@, v@[i as int].1@)));
        i = i + 1;
    }
    assert(v@.take(v@.len() as int) == v@);
}

/// The first work queue: regular, build and test dependencies, each table in
/// name order. Work is taken from the end.
pub fn initial_queue(config: &HutConfig) -> (r: Vec<(String, String)>)
    ensures
        pair_views(r@) == pair_views(config.all_dependencies()),
{
    let mut r: Vec<(String, String)> = Vec::new();
    copy_pairs(&config.dependencies, &mut r);
    copy_pairs(&config.build_dependencies, &mut r);
    copy_pairs(&config.test_dependencies, &mut r);
    assert(pair_views(config.all_dependencies()) =~= pair_views(config.dependencies@) + pair_views(
        config.build_dependencies@,
    ) + pair_views(config.test_dependencies@));
    assert(pair_views(r@) =~= pair_views(Seq::<(String, String)>::empty()) + pair_views(config.dependencies@)
        + pair_views(config.build_dependencies@) + pair_views(config.test_dependencies@));
    r
}

/// Resolution state: what has been resolved, by name.
pub struct ResolveContext {
    /// Resolved packages by name, in name order.
    pub packages: Vec<(String, ResolvedDependency)>,
    /// Names whose resolution has started.
    pub resolved_names: Vec<String>,
}

/// Whether a name is among the resolved ones.
pub open spec fn resolved_in(names: Seq<String>, n: Seq<char>) -> bool {
    views(names).contains(n)
}

impl ResolveContext {
    /// Packages are in name order, one per name.
    pub open spec fn wf(&self) -> bool {
        sorted_keys(self.packages@)
    }

    /// The resolved packages by name.
    pub open spec fn resolved(&self) -> Map<Seq<char>, ResolvedDependency> {
        table_view(self.packages@)
    }

    /// An empty context.
    pub fn new() -> (r: ResolveContext)
        ensures
            r.wf(),
            r.packages@.len() == 0,
            r.resolved_names@.len() == 0,
    {
        ResolveContext { packages: Vec::new(), resolved_names: Vec::new() }
    }

    /// Whether `name` has been resolved.
    pub fn is_resolved(&self, name: &str) -> (r: bool)
        ensures
            r == resolved_in(self.resolved_names@, name@),
    {
        let mut i: usize = 0;
        while i < self.resolved_names.len()
            invariant
                i <= self.resolved_names@.len(),
                forall|j: int| 0 <= j < i ==> self.resolved_names@[j]@ != name@,
            decreases self.resolved_names@.len() - i,
        {
            if str_eq(self.resolved_names[i].as_str(), name) {
                assert(views(self.resolved_names@)[i as int] == name@);
                return true;
            }
            i = i + 1;
        }
        assert(!views(self.resolved_names@).contains(name@)) by {
            if views(self.resolved_names@).contains(name@) {
                let j = choose|j: int| 0 <= j < views(self.resolved_names@).len() && views(self.resolved_names@)[j]
                    == name@;
                assert(self.resolved_names@[j]@ == name@);
            }
        }
        false
    }

    /// Take work from the end of the queue, skipping names already resolved.
    pub fn next_request(&self, queue: &mut Vec<(String, String)>) -> (r: Option<(String, String)>)
        ensures
            match r {
                None => final(queue)@.len() == 0 && forall|j: int| 0 <= j < old(queue)@.len()
                    ==> resolved_in(self.resolved_names@, #[trigger] old(queue)@[j].0@),
                Some(p) => final(queue)@.len() < old(queue)@.len() && final(queue)@ == old(queue)@.take(
                    final(queue)@.len() as int,
                ) && p == old(queue)@[final(queue)@.len() as int] && !resolved_in(self.resolved_names@, p.0@)
                    && forall|j: int| final(queue)@.len() < j < old(queue)@.len() ==> resolved_in(
                    self.resolved_names@,
                    #[trigger] old(queue)@[j].0@,
                ),
            },
    {
        let ghost q0 = queue@;
        while queue.len() > 0
            invariant
                q0 == old(queue)@,
                queue@ == q0.take(queue@.len() as int),
                queue@.len() <= q0.len(),
                forall|j: int| queue@.len() <= j < q0.len() ==> resolved_in(self.resolved_names@, #[trigger] q0[j].0@),
            decreases queue@.len(),
        {
            let ghost n = queue@.len();
            let p = queue.pop().unwrap();
            assert(p == q0[n - 1]);
            assert(queue@ == q0.take(n - 1));
            if !self.is_resolved(p.0.as_str()) {
                return Some(p);
            }
        }
        None
    }
}

// ───────────────────────────── recording a fetched package ─────────────────────────────

/// The package description of a fetched dependency: from its own hut.toml
/// when it has one, else from its index entry.
pub open spec fn described_package(
    name: Seq<char>,
    version: Seq<char>,
    repo_url: Seq<char>,
    entry: PackageEntry,
    manifest: Option<HutConfig>,
    p: Package,
) -> bool {
    &&& p.repository matches Some(u) && u@ == repo_url
    &&& p.libraries@.len() == 0
    &&& p.executables@.len() == 0
    &&& p.tests@.len() == 0
    &&& match manifest {
        Some(cfg) => {
            &&& p.name == cfg.package.name
            &&& p.version == cfg.package.version
            &&& p.description == cfg.package.description
            &&& p.authors == cfg.package.authors
            &&& p.license == cfg.package.license
            &&& p.homepage == cfg.package.homepage
            &&& p.sources == cfg.package.sources
            &&& p.includes == cfg.package.includes
            &&& p.dependencies == cfg.dependencies
            &&& p.build_dependencies == cfg.build_dependencies
            &&& p.test_dependencies == cfg.test_dependencies
            &&& p.build == cfg.build
            &&& p.scripts == cfg.scripts
            &&& p.cflags@.len() == 0
            &&& p.ldflags@.len() == 0
        },
        None => {
            &&& p.name@ == name
            &&& p.version@ == version
            &&& p.description matches Some(d) && d@ == entry.description@
            &&& p.authors@.len() == 0
            &&& p.license is None
            &&& p.homepage is None
            &&& p.sources@.len() == 0
            &&& p.includes@ == entry.includes@
            &&& p.dependencies@.len() == 0
            &&& p.build_dependencies@.len() == 0
            &&& p.test_dependencies@.len() == 0
            &&& p.build.is_default()
            &&& p.scripts@.len() == 0
            &&& p.cflags@ == entry.cflags@
            &&& p.ldflags@ == entry.ldflags@
        },
    }
}

/// The package description of a fetched dependency (see `described_package`).
pub fn package_for(name: &str, version: &str, repo_url: &str, entry: &PackageEntry, manifest: Option<HutConfig>) -> (r: Package)
    ensures
        described_package(name@, version@, repo_url@, *entry, manifest, r),
{
    match manifest {
        Some(cfg) => Package {
            name: cfg.package.name,
            version: cfg.package.version,
            description: cfg.package.description,
            authors: cfg.package.authors,
            license: cfg.package.license,
            repository: Some(String::from_str(repo_url)),
            homepage: cfg.package.homepage,
            sources: cfg.package.sources,
            includes: cfg.package.includes,
            dependencies: cfg.dependencies,
            build_dependencies: cfg.build_dependencies,
            test_dependencies: cfg.test_dependencies,
            build: cfg.build,
            scripts: cfg.scripts,
            libraries: Vec::new(),
            executables: Vec::new(),
            tests: Vec::new(),
            cflags: Vec::new(),
            ldflags: Vec::new(),
        },
        None => Package {
            name: String::from_str(name),
            version: String::from_str(version),
            description: Some(entry.description.clone()),
            authors: Vec::new(),
            license: None,
            repository: Some(String::from_str(repo_url)),
            homepage: None,
            sources: Vec::new(),
            includes: copy_strings(&entry.includes),
            dependencies: Vec::new(),
            build_dependencies: Vec::new(),
            test_dependencies: Vec::new(),
            build: BuildConfig::default(),
            scripts: Vec::new(),
            libraries: Vec::new(),
            executables: Vec::new(),
            tests: Vec::new(),
            cflags: copy_strings(&entry.cflags),
            ldflags: copy_strings(&entry.ldflags),
        },
    }
}

/// The include directories to look for on disk: the entry's, then the
/// package's, each joined onto the package path.
pub open spec fn candidate_paths(entry: PackageEntry, pkg: Package, path: Seq<char>) -> Seq<Seq<char>> {
    joined_all(path, views(entry.includes@) + views(pkg.includes@))
}

/// Each of `parts` joined onto `path`.
pub open spec fn joined_all(path: Seq<char>, parts: Seq<Seq<char>>) -> Seq<Seq<char>> {
    parts.map_values(|inc: Seq<char>| path_join(path, inc))
}

/// The candidates that exist.
pub open spec fn kept(cands: Seq<Seq<char>>, exists: Seq<bool>) -> Seq<Seq<char>>
    decreases cands.len(),
{
    if cands.len() == 0 {
        Seq::empty()
    } else {
        let rest = kept(cands.drop_last(), exists);
        if exists[cands.len() - 1] { rest.push(cands.last()) } else { rest }
    }
}

/// A package's own include directories: the existing candidates, or the
/// package path itself when none exists.
pub open spec fn own_includes(cands: Seq<Seq<char>>, exists: Seq<bool>, path: Seq<char>) -> Seq<Seq<char>> {
    let k = kept(cands, exists);
    if k.len() == 0 { seq![path] } else { k }
}

/// The include directories of the direct dependencies resolved so far, in
/// dependency order.
pub open spec fn inherited_includes(deps: Seq<(String, String)>, resolved: Map<Seq<char>, ResolvedDependency>) -> Seq<
    Seq<char>,
>
    decreases deps.len(),
{
    if deps.len() == 0 {
        Seq::empty()
    } else {
        inherited_includes(deps.drop_last(), resolved) + (if resolved.contains_key(deps.last().0@) {
            views(resolved[deps.last().0@].include_paths@)
        } else {
            Seq::empty()
        })
    }
}

/// The dependencies queued after a package is fetched: those of its
/// manifest not yet resolved, in order.
pub open spec fn pushed_deps(deps: Seq<(String, String)>, names: Seq<String>) -> Seq<(Seq<char>, Seq<char>)>
    decreases deps.len(),
{
    if deps.len() == 0 {
        Seq::empty()
    } else {
        let rest = pushed_deps(deps.drop_last(), names);
        if resolved_in(names, deps.last().0@) {
            rest
        } else {
            rest.push((deps.last().0@, deps.last().1@))
        }
    }
}

/// The names of a package's library targets.
pub open spec fn library_names(pkg: Package) -> Seq<Seq<char>> {
    pkg.libraries@.map_values(|l: crate::package::LibraryTarget| l.name@)
}

/// The include directories to look for (see `candidate_paths`).
pub fn include_candidates(entry: &PackageEntry, pkg: &Package, pkg_path: &str) -> (r: Vec<String>)
    ensures
        views(r@) == candidate_paths(*entry, *pkg, pkg_path@),
{
    let ghost all = views(entry.includes@) + views(pkg.includes@);
    let mut r: Vec<String> = Vec::new();
    let mut i: usize = 0;
    while i < entry.includes.len()
        invariant
            i <= entry.includes@.len(),
            all == views(entry.includes@) + views(pkg.includes@),
            views(r@) == joined_all(pkg_path@, all.take(i as int)),
        decreases entry.includes@.len() - i,
    {
        let ghost before = r@;
        r.push(join_path(pkg_path, entry.includes[i].as_str()));
        assert(all[i as int] == entry.includes@[i as int]@);
        assert(views(r@) =~= views(before).push(path_join(pkg_path@, all[i as int])));
        assert(joined_all(pkg_path@, all.take(i + 1)) =~= joined_all(pkg_path@, all.take(i as int)).push(
            path_join(pkg_path@, all[i as int]),
        ));
        i = i + 1;
    }
    let n = entry.includes.len();
    let mut j: usize = 0;
    while j < pkg.includes.len()
        invariant
            j <= pkg.includes@.len(),
            n == entry.includes@.len(),
            all == views(entry.includes@) + views(pkg.includes@),
            views(r@) == joined_all(pkg_path@, all.take(n + j)),
        decreases pkg.includes@.len() - j,
    {
        let ghost before = r@;
        r.push(join_path(pkg_path, pkg.includes[j].as_str()));
        assert(all[n + j] == pkg.includes@[j as int]@);
        assert(views(r@) =~= views(before).push(path_join(pkg_path@, all[n + j])));
        assert(joined_all(pkg_path@, all.take(n + j + 1)) =~= joined_all(pkg_path@, all.take(n + j)).push(
            path_join(pkg_path@, all[n + j]),
        ));
        j = j + 1;
    }
    assert(all.take(n + pkg.includes@.len()) == all);
    r
}

/// The candidates that exist, or the package path itself.
fn own_include_paths(cands: &Vec<String>, exists: &Vec<bool>, pkg_path: &str) -> (r: Vec<String>)
    requires
        cands@.len() == exists@.len(),
    ensures
        views(r@) == own_includes(views(cands@), exists@, pkg_path@),
{
    let mut r: Vec<String> = Vec::new();
    let mut i: usize = 0;
    while i < cands.len()
        invariant
            i <= cands@.len(),
            cands@.len() == exists@.len(),
            views(r@) == kept(views(cands@).take(i as int), exists@),
        decreases cands@.len() - i,
    {
        let ghost t = views(cands@).take(i + 1);
        assert(t.drop_last() == views(cands@).take(i as int));
        assert(t.last() == cands@[i as int]@);
        if exists[i] {
            let ghost before = r@;
            r.push(cands[i].clone());
            assert(views(r@) =~= views(before).push(cands@[i as int]@));
        }
        i = i + 1;
    }
    assert(views(cands@).take(cands@.len() as int) == views(cands@));
    if r.len() == 0 {
        let mut p: Vec<String> = Vec::new();
        p.push(String::from_str(pkg_path));
        assert(views(p@) =~= seq![pkg_path@]);
        p
    } else {
        r
    }
}

impl ResolveContext {
    /// Include directories of the already-resolved direct dependencies.
    fn inherited(&self, deps: &Vec<(String, String)>) -> (r: Vec<String>)
        requires
            self.wf(),
        ensures
            views(r@) == inherited_includes(deps@, self.resolved()),
    {
        let mut r: Vec<String> = Vec::new();
        let mut i: usize = 0;
        while i < deps.len()
            invariant
                self.wf(),
                i <= deps@.len(),
                views(r@) == inherited_includes(deps@.take(i as int), self.resolved()),
            decreases deps@.len() - i,
        {
            let ghost t = deps@.take(i + 1);
            assert(t.drop_last() == deps@.take(i as int));
            assert(t.last() == deps@[i as int]);
            let ghost before = r@;
            match table_find(&self.packages, deps[i].0.as_str()) {
                Some(k) => {
                    proof {
                        lemma_view_at(self.packages@, k as int);
                    }
                    extend_strings(&mut r, &self.packages[k].1.include_paths);
                    assert(views(r@) =~= views(before) + views(self.packages@[k as int].1.include_paths@));
                },
                None => {
                    assert(views(r@) =~= views(before) + Seq::<Seq<char>>::empty());
                },
            }
            i = i + 1;
        }
        assert(deps@.take(deps@.len() as int) == deps@);
        r
    }

    /// Mark `name` resolved (once).
    fn mark_resolved(&mut self, name: &String)
        ensures
            final(self).packages == old(self).packages,
            views(final(self).resolved_names@) == (if resolved_in(old(self).resolved_names@, name@) {
                views(old(self).resolved_names@)
            } else {
                views(old(self).resolved_names@).push(name@)
            }),
    {
        if !self.is_resolved(name.as_str()) {
            let ghost before = self.resolved_names@;
            self.resolved_names.push(name.clone());
            assert(views(self.resolved_names@) =~= views(before).push(name@));
        }
    }

    /// Queue the dependencies of `deps` not yet resolved.
    fn queue_unresolved(&self, deps: &Vec<(String, String)>, queue: &mut Vec<(String, String)>)
        ensures
            pair_views(final(queue)@) == pair_views(old(queue)@) + pushed_deps(deps@, self.resolved_names@),
    {
        let mut i: usize = 0;
        assert(pair_views(queue@) =~= pair_views(old(queue)@) + pushed_deps(deps@.take(0), self.resolved_names@));
        while i < deps.len()
            invariant
                i <= deps@.len(),
                pair_views(queue@) == pair_views(old(queue)@) + pushed_deps(deps@.take(i as int), self.resolved_names@),
            decreases deps@.len() - i,
        {
            let ghost t = deps@.take(i + 1);
            assert(t.drop_last() == deps@.take(i as int));
            assert(t.last() == deps@[i as int]);
            if !self.is_resolved(deps[i].0.as_str()) {
                let ghost before = queue@;
                queue.push((deps[i].0.clone(), deps[i].1.clone()));
                assert(pair_views(queue@) =~= pair_views(before).push((deps@[i as int].0@, deps@[i as int].1@)));
            }
            i = i + 1;
        }
        assert(deps@.take(deps@.len() as int) == deps@);
    }

    /// Record a fetched package: mark it resolved, queue its unresolved
    /// dependencies, and store it with its include directories (the existing
    /// candidates, else the package path, then those of its direct
    /// dependencies resolved so far), its library directory (`build/` when
    /// it exists, else the package path) and its link libraries.
    pub fn finish(
        &mut self,
        name: String,
        version: String,
        pkg_path: String,
        pkg: Package,
        entry: &PackageEntry,
        candidates: &Vec<String>,
        exists: &Vec<bool>,
        build_dir_exists: bool,
        queue: &mut Vec<(String, String)>,
    )
        requires
            old(self).wf(),
            candidates@.len() == exists@.len(),
        ensures
            final(self).wf(),
            views(final(self).resolved_names@) == (if resolved_in(old(self).resolved_names@, name@) {
                views(old(self).resolved_names@)
            } else {
                views(old(self).resolved_names@).push(name@)
            }),
            pair_views(final(queue)@) == pair_views(old(queue)@) + pushed_deps(
                pkg.dependencies@ + pkg.build_dependencies@ + pkg.test_dependencies@,
                final(self).resolved_names@,
            ),
            final(self).resolved().contains_key(name@),
            final(self).resolved().remove(name@) == old(self).resolved().remove(name@),
            ({
                let d = final(self).resolved()[name@];
                &&& d.name@ == name@
                &&& d.version@ == version@
                &&& d.path@ == pkg_path@
                &&& d.package == pkg
                &&& views(d.include_paths@) == own_includes(views(candidates@), exists@, pkg_path@)
                    + inherited_includes(pkg.dependencies@, old(self).resolved())
                &&& views(d.library_paths@) == (if build_dir_exists {
                    seq![path_join(pkg_path@, "build"@)]
                } else {
                    seq![pkg_path@]
                })
                &&& views(d.link_libraries@) == views(entry.libs@) + library_names(pkg)
                &&& d.cflags@ == entry.cflags@
                &&& d.ldflags@ == entry.ldflags@
            }),
    {
        self.mark_resolved(&name);
        let mut all_deps: Vec<(String, String)> = Vec::new();
        copy_all(&pkg.dependencies, &mut all_deps);
        copy_all(&pkg.build_dependencies, &mut all_deps);
        copy_all(&pkg.test_dependencies, &mut all_deps);
        assert(all_deps@ =~= pkg.dependencies@ + pkg.build_dependencies@ + pkg.test_dependencies@);
        self.queue_unresolved(&all_deps, queue);
        let mut include_paths = own_include_paths(candidates, exists, pkg_path.as_str());
        let inherited = self.inherited(&pkg.dependencies);
        extend_strings(&mut include_paths, &inherited);
        let mut library_paths: Vec<String> = Vec::new();
        if build_dir_exists {
            library_paths.push(join_path(pkg_path.as_str(), "build"));
        } else {
            library_paths.push(pkg_path.clone());
        }
        let mut link_libraries = copy_strings(&entry.libs);
        let mut k: usize = 0;
        while k < pkg.libraries.len()
            invariant
                k <= pkg.libraries@.len(),
                views(link_libraries@) == views(entry.libs@) + library_names(pkg).take(k as int),
            decreases pkg.libraries@.len() - k,
        {
            let ghost before = link_libraries@;
            link_libraries.push(pkg.libraries[k].name.clone());
            assert(views(link_libraries@) =~= views(before).push(pkg.libraries@[k as int].name@));
            assert(library_names(pkg).take(k + 1) =~= library_names(pkg).take(k as int).push(
                pkg.libraries@[k as int].name@,
            ));
            k = k + 1;
        }
        assert(library_names(pkg).take(pkg.libraries@.len() as int) == library_names(pkg));
        let ghost d_include = views(include_paths@);
        let ghost d_lib = views(library_paths@);
        let ghost d_link = views(link_libraries@);
        let ghost old_map = self.resolved();
        let dep = ResolvedDependency {
            name: name.clone(),
            version,
            path: pkg_path,
            package: pkg,
            include_paths,
            library_paths,
            link_libraries,
            cflags: copy_strings(&entry.cflags),
            ldflags: copy_strings(&entry.ldflags),
        };
        let ghost d = dep;
        table_insert(&mut self.packages, name, dep);
        assert(self.resolved() == old_map.insert(d.name@, d));
        assert(self.resolved().remove(d.name@) =~= old_map.remove(d.name@));
    }

    /// The resolved packages, sorted by name.
    pub fn into_result(self) -> (r: Vec<ResolvedDependency>)
        requires
            self.wf(),
        ensures
            r@ == self.packages@.map_values(|p: (String, ResolvedDependency)| p.1),
    {
        let mut r: Vec<ResolvedDependency> = Vec::new();
        let ghost all = self.packages@;
        let mut rest = self.packages;
        let n = rest.len();
        let mut i: usize = 0;
        assert(all.skip(0) == all);
        while i < n
            invariant
                n == all.len(),
                i <= n,
                rest@ == all.skip(i as int),
                r@ == all.take(i as int).map_values(|p: (String, ResolvedDependency)| p.1),
            decreases n - i,
        {
            let (_, d) = rest.remove(0);
            assert(all.take(i + 1).map_values(|p: (String, ResolvedDependency)| p.1) =~= all.take(i as int).map_values(
                |p: (String, ResolvedDependency)| p.1,
            ).push(all[i as int].1));
            assert(rest@ =~= all.skip(i + 1));
            r.push(d);
            i = i + 1;
        }
        assert(all.take(n as int) == all);
        r
    }
}

/// Append copies of `v` to `out`.
fn copy_all(v: &Vec<(String, String)>, out: &mut Vec<(String, String)>)
    ensures
        final(out)@ == old(out)@ + v@,
{
    let mut i: usize = 0;
    while i < v.len()
        invariant
            i <= v@.len(),
            out@ == old(out)@ + v@.take(i as int),
        decreases v@.len() - i,
    {
        out.push((v[i].0.clone(), v[i].1.clone()));
        assert(v@.take(i + 1) == v@.take(i as int).push(v@[i as int]));
        i = i + 1;
    }
    assert(v@.take(v@.len() as int) == v@);
}

/// The result of a resolution is in strictly increasing name order, so each
/// name occurs once.
pub proof fn law_result_sorted(ctx: ResolveContext, i: int, j: int)
    requires
        ctx.wf(),
        0 <= i < j < ctx.packages@.len(),
    ensures
        crate::table::seq_lt(ctx.packages@[i].0@, ctx.packages@[j].0@),
        ctx.packages@[i].0@ != ctx.packages@[j].0@,
{
    crate::table::lemma_lt_irreflexive(ctx.packages@[i].0@);
}

/// The lockfile decides versions: a pinned version is always the
/// lockfile's; a package the lockfile lacks is never pinned; without a
/// constraint the locked version is always used; and a locked version that
/// the constraint matches is used.
pub proof fn law_lock_pins(lockfile: Lockfile, name: Seq<char>, c: Option<Seq<char>>)
    ensures
        ({
            let pinned = pinned_version(lookup(lockfile.entries(), name), c);
            &&& pinned matches Some(v) ==> lockfile.entries().contains_key(name) && v
                == lockfile.entries()[name].version@
            &&& !lockfile.entries().contains_key(name) ==> pinned is None
            &&& lockfile.entries().contains_key(name) && c is None ==> pinned == Some(
                lockfile.entries()[name].version@,
            )
            &&& lockfile.entries().contains_key(name) && (c matches Some(q) && spec_version_parse(
                stripped_tag(lockfile.entries()[name].version@),
            ) matches Some(v) && spec_req_matches(q, v)) ==> pinned == Some(lockfile.entries()[name].version@)
        }),
{
}

// ───────────────────────────── resolution covers what is reached ─────────────────────────────

/// The names of a list of (name, constraint) pairs.
pub open spec fn names_of(q: Seq<(String, String)>) -> Set<Seq<char>> {
    Set::new(|n: Seq<char>| exists|j: int| 0 <= j < q.len() && #[trigger] q[j].0@ == n)
}

/// Every name of `wanted` is resolved or waiting in the queue.
pub open spec fn covers(names: Seq<String>, queue: Seq<(String, String)>, wanted: Set<Seq<char>>) -> bool {
    forall|n: Seq<char>| #[trigger] wanted.contains(n) ==> resolved_in(names, n) || names_of(queue).contains(n)
}

/// Every name whose resolution started has a resolved package.
pub open spec fn records_all(ctx: ResolveContext) -> bool {
    forall|n: Seq<char>| #[trigger] resolved_in(ctx.resolved_names@, n) ==> ctx.resolved().contains_key(n)
}

/// At the start nothing is resolved and the first queue holds every direct
/// dependency (regular, build and test), so every one of them is covered.
pub proof fn law_resolution_starts_covered(config: HutConfig, queue: Seq<(String, String)>)
    requires
        pair_views(queue) == pair_views(config.all_dependencies()),
    ensures
        covers(Seq::empty(), queue, names_of(config.all_dependencies())),
{
    let all = config.all_dependencies();
    assert forall|n: Seq<char>| #[trigger] names_of(all).contains(n) implies resolved_in(
        Seq::<String>::empty(),
        n,
    ) || names_of(queue).contains(n) by {
        let j = choose|j: int| 0 <= j < all.len() && #[trigger] all[j].0@ == n;
        assert(pair_views(queue).len() == queue.len());
        assert(pair_views(all).len() == all.len());
        assert(pair_views(queue)[j] == pair_views(all)[j]);
        assert(pair_views(all)[j] == (all[j].0@, all[j].1@));
        assert(pair_views(queue)[j] == (queue[j].0@, queue[j].1@));
        assert(queue[j].0@ == n);
    }
}

/// One step of resolution keeps everything covered: when `next_request`
/// takes `p` from queue `q0` (leaving `q1`), and `finish` then marks `p`
/// resolved (giving `names2`) and queues the unresolved dependencies `deps`
/// of its package (giving `q2`), every name covered before, and every
/// dependency of `p`, is covered after.
pub proof fn law_resolution_step(
    names: Seq<String>,
    q0: Seq<(String, String)>,
    q1: Seq<(String, String)>,
    p: (String, String),
    names2: Seq<String>,
    deps: Seq<(String, String)>,
    q2: Seq<(String, String)>,
    wanted: Set<Seq<char>>,
)
    requires
        covers(names, q0, wanted),
        q1.len() < q0.len(),
        q1 == q0.take(q1.len() as int),
        p == q0[q1.len() as int],
        forall|j: int| q1.len() < j < q0.len() ==> resolved_in(names, #[trigger] q0[j].0@),
        views(names2) == (if resolved_in(names, p.0@) {
            views(names)
        } else {
            views(names).push(p.0@)
        }),
        pair_views(q2) == pair_views(q1) + pushed_deps(deps, names2),
    ensures
        covers(names2, q2, wanted.union(names_of(deps))),
{
    assert forall|n: Seq<char>| resolved_in(names, n) implies resolved_in(names2, n) by {
        let k = choose|k: int| 0 <= k < views(names).len() && views(names)[k] == n;
        if !resolved_in(names, p.0@) {
            assert(views(names2)[k] == n);
        }
    }
    assert(resolved_in(names2, p.0@)) by {
        if !resolved_in(names, p.0@) {
            assert(views(names2)[views(names).len() as int] == p.0@);
        }
    }
    assert(pair_views(q2).len() == q2.len());
    assert(pair_views(q1).len() == q1.len());
    assert forall|n: Seq<char>| #[trigger] wanted.union(names_of(deps)).contains(n) implies resolved_in(names2, n)
        || names_of(q2).contains(n) by {
        if wanted.contains(n) {
            if !resolved_in(names, n) {
                let j = choose|j: int| 0 <= j < q0.len() && #[trigger] q0[j].0@ == n;
                if j < q1.len() {
                    assert(q1[j] == q0[j]);
                    assert(pair_views(q2)[j] == pair_views(q1)[j]);
                    assert(pair_views(q1)[j] == (q1[j].0@, q1[j].1@));
                    assert(pair_views(q2)[j] == (q2[j].0@, q2[j].1@));
                    assert(q2[j].0@ == n);
                } else if j > q1.len() {
                    assert(resolved_in(names, q0[j].0@));
                }
            }
        } else {
            let i = choose|i: int| 0 <= i < deps.len() && #[trigger] deps[i].0@ == n;
            lemma_pushed_has(deps, names2, i);
            if !resolved_in(names2, n) {
                let k = choose|k: int| 0 <= k < pushed_deps(deps, names2).len() && #[trigger] pushed_deps(
                    deps,
                    names2,
                )[k].0 == n;
                let at = q1.len() + k;
                assert(pair_views(q2)[at] == pushed_deps(deps, names2)[k]);
                assert(pair_views(q2)[at] == (q2[at].0@, q2[at].1@));
                assert(q2[at].0@ == n);
            }
        }
    }
}

/// Each dependency is resolved already or among those queued.
proof fn lemma_pushed_has(deps: Seq<(String, String)>, names: Seq<String>, i: int)
    requires
        0 <= i < deps.len(),
    ensures
        resolved_in(names, deps[i].0@) || exists|k: int|
            0 <= k < pushed_deps(deps, names).len() && #[trigger] pushed_deps(deps, names)[k].0 == deps[i].0@,
    decreases deps.len(),
{
    let rest = pushed_deps(deps.drop_last(), names);
    if i < deps.len() - 1 {
        assert(deps.drop_last()[i] == deps[i]);
        lemma_pushed_has(deps.drop_last(), names, i);
        if !resolved_in(names, deps[i].0@) {
            let k = choose|k: int| 0 <= k < rest.len() && #[trigger] rest[k].0 == deps[i].0@;
            if !resolved_in(names, deps.last().0@) {
                assert(pushed_deps(deps, names)[k] == rest[k]);
            } else {
                assert(pushed_deps(deps, names) == rest);
            }
            assert(pushed_deps(deps, names)[k].0 == deps[i].0@);
        }
    } else if !resolved_in(names, deps[i].0@) {
        assert(pushed_deps(deps, names)[rest.len() as int].0 == deps[i].0@);
    }
}

/// When `next_request` finds nothing left, every covered name is resolved.
pub proof fn law_resolution_done(names: Seq<String>, queue: Seq<(String, String)>, wanted: Set<Seq<char>>)
    requires
        covers(names, queue, wanted),
        forall|j: int| 0 <= j < queue.len() ==> resolved_in(names, #[trigger] queue[j].0@),
    ensures
        forall|n: Seq<char>| #[trigger] wanted.contains(n) ==> resolved_in(names, n),
{
    assert forall|n: Seq<char>| #[trigger] wanted.contains(n) implies resolved_in(names, n) by {
        if names_of(queue).contains(n) {
            let j = choose|j: int| 0 <= j < queue.len() && #[trigger] queue[j].0@ == n;
            assert(resolved_in(names, queue[j].0@));
        }
    }
}

/// `finish` keeps a package for every name whose resolution started: it
/// marks the name and stores its package, and keeps every other package.
pub proof fn law_finish_records(before: ResolveContext, after: ResolveContext, name: Seq<char>)
    requires
        records_all(before),
        views(after.resolved_names@) == (if resolved_in(before.resolved_names@, name) {
            views(before.resolved_names@)
        } else {
            views(before.resolved_names@).push(name)
        }),
        after.resolved().contains_key(name),
        after.resolved().remove(name) == before.resolved().remove(name),
    ensures
        records_all(after),
{
    assert forall|n: Seq<char>| #[trigger] resolved_in(after.resolved_names@, n) implies after.resolved().contains_key(
        n,
    ) by {
        if n != name {
            let k = choose|k: int| 0 <= k < views(after.resolved_names@).len() && views(after.resolved_names@)[k] == n;
            if !resolved_in(before.resolved_names@, name) {
                assert(k < views(before.resolved_names@).len());
                assert(views(before.resolved_names@)[k] == n);
            }
            assert(resolved_in(before.resolved_names@, n));
            assert(before.resolved().remove(name).contains_key(n));
            assert(after.resolved().remove(name).contains_key(n));
        }
    }
}

} // verus!
