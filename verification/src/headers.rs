//! Include path resolution for dependencies: pre-computed include paths,
//! the standard include directories, header directories found by scanning,
//! and single-header libraries. What lies on disk is observed by the caller
//! and handed in as a `DepLayout`.

use vstd::prelude::*;

use crate::package::ResolvedDependency;
use crate::text::{
    chars_of, distinct_paths, eq_lit, extension, extension_chars, has_path, join_path, path_join, path_key, path_listed,
    views,
};

verus! {

/// The standard include locations of a package, in order of preference.
pub open spec fn standard_dirs() -> Seq<Seq<char>> {
    seq!["include"@, "src"@, "includes"@, "inc"@, "."@]
}

/// What the disk holds for one dependency.
#[derive(Debug)]
pub struct DepLayout {
    /// Per standard location: whether it exists as a directory.
    pub dir_exists: Vec<bool>,
    /// Per standard location: whether it contains headers (itself or one
    /// level down).
    pub has_headers: Vec<bool>,
    /// The directories with headers found by scanning the package, in the
    /// order found.
    pub scanned: Vec<String>,
    /// Whether the package root follows the single-header pattern.
    pub single_header: bool,
}

/// `paths` with each of `new` appended unless the same path (see
/// `same_path`) is already present.
pub open spec fn add_all(paths: Seq<Seq<char>>, new: Seq<Seq<char>>) -> Seq<Seq<char>>
    decreases new.len(),
{
    if new.len() == 0 {
        paths
    } else {
        let p = add_all(paths, new.drop_last());
        if has_path(p, new.last()) { p } else { p.push(new.last()) }
    }
}

/// The standard locations that qualify: existing directories with headers,
/// and the package root itself when it exists (`.`).
pub open spec fn std_candidates(root: Seq<char>, dir_exists: Seq<bool>, has_headers: Seq<bool>, k: int) -> Seq<
    Seq<char>,
>
    decreases k,
{
    if k <= 0 {
        Seq::empty()
    } else {
        let rest = std_candidates(root, dir_exists, has_headers, k - 1);
        let i = k - 1;
        if dir_exists[i] && (i == 4 || has_headers[i]) {
            rest.push(if i == 4 { root } else { path_join(root, standard_dirs()[i]) })
        } else {
            rest
        }
    }
}

/// Some candidate is not yet among the paths.
pub open spec fn any_new(paths: Seq<Seq<char>>, cands: Seq<Seq<char>>) -> bool {
    exists|i: int| 0 <= i < cands.len() && !has_path(paths, #[trigger] cands[i])
}

/// The include paths after adding those of one dependency.
pub open spec fn dep_includes(paths: Seq<Seq<char>>, dep: ResolvedDependency, l: DepLayout) -> Seq<Seq<char>> {
    if dep.include_paths@.len() > 0 {
        add_all(paths, views(dep.include_paths@))
    } else {
        let c = std_candidates(dep.path@, l.dir_exists@, l.has_headers@, 5);
        if any_new(paths, c) {
            add_all(paths, c)
        } else {
            let p = add_all(paths, views(l.scanned@));
            if l.single_header { add_all(p, seq![dep.path@]) } else { p }
        }
    }
}

/// The include paths of a list of dependencies, in order, each once.
pub open spec fn all_includes(deps: Seq<ResolvedDependency>, layouts: Seq<DepLayout>) -> Seq<Seq<char>>
    decreases deps.len(),
{
    if deps.len() == 0 {
        Seq::empty()
    } else {
        dep_includes(all_includes(deps.drop_last(), layouts), deps.last(), layouts[deps.len() - 1])
    }
}

/// A layout describes the five standard locations.
pub open spec fn layout_ok(l: DepLayout) -> bool {
    l.dir_exists@.len() == 5 && l.has_headers@.len() == 5
}

/// Append `p` unless the same path is present; tells whether it was appended.
fn add_unique(paths: &mut Vec<String>, p: String) -> (r: bool)
    ensures
        r == !has_path(views(old(paths)@), p@),
        views(final(paths)@) == (if has_path(views(old(paths)@), p@) {
            views(old(paths)@)
        } else {
            views(old(paths)@).push(p@)
        }),
{
    if path_listed(paths, p.as_str()) {
        false
    } else {
        let ghost before = paths@;
        let ghost pv = p@;
        paths.push(p);
        assert(views(paths@) =~= views(before).push(pv));
        true
    }
}

/// Append each of `new` unless present.
fn add_each(paths: &mut Vec<String>, new: &Vec<String>)
    ensures
        views(final(paths)@) == add_all(views(old(paths)@), views(new@)),
{
    let mut i: usize = 0;
    while i < new.len()
        invariant
            i <= new@.len(),
            views(paths@) == add_all(views(old(paths)@), views(new@).take(i as int)),
        decreases new@.len() - i,
    {
        let ghost t = views(new@).take(i + 1);
        assert(t.drop_last() == views(new@).take(i as int));
        assert(t.last() == new@[i as int]@);
        add_unique(paths, new[i].clone());
        i = i + 1;
    }
    assert(views(new@).take(new@.len() as int) == views(new@));
}

/// The standard locations, in order.
fn standard_list() -> (r: Vec<String>)
    ensures
        views(r@) == standard_dirs(),
{
    let mut r: Vec<String> = Vec::new();
    r.push(String::from_str("include"));
    r.push(String::from_str("src"));
    r.push(String::from_str("includes"));
    r.push(String::from_str("inc"));
    r.push(String::from_str("."));
    assert(views(r@) =~= standard_dirs());
    r
}

/// The qualifying standard locations of a dependency.
fn qualifying(root: &String, l: &DepLayout) -> (r: Vec<String>)
    requires
        layout_ok(*l),
    ensures
        views(r@) == std_candidates(root@, l.dir_exists@, l.has_headers@, 5),
{
    let names = standard_list();
    assert(names@.len() == views(names@).len());
    let mut r: Vec<String> = Vec::new();
    let mut i: usize = 0;
    while i < 5
        invariant
            i <= 5,
            layout_ok(*l),
            names@.len() == 5,
            views(names@) == standard_dirs(),
            views(r@) == std_candidates(root@, l.dir_exists@, l.has_headers@, i as int),
        decreases 5 - i,
    {
        if l.dir_exists[i] && (i == 4 || l.has_headers[i]) {
            let p = if i == 4 { root.clone() } else { join_path(root.as_str(), names[i].as_str()) };
            assert(views(names@)[i as int] == names@[i as int]@);
            let ghost before = r@;
            r.push(p);
            assert(views(r@) =~= views(before).push(p@));
        }
        i = i + 1;
    }
    r
}

/// Collect the include directories of one dependency into `paths` (see
/// `dep_includes`): its pre-computed include paths when it has any; else
/// the qualifying standard locations; when none of those is new, the
/// scanned header directories, and the root for a single-header library.
pub fn collect_dep_includes(dep: &ResolvedDependency, layout: &DepLayout, paths: &mut Vec<String>)
    requires
        layout_ok(*layout),
    ensures
        views(final(paths)@) == dep_includes(views(old(paths)@), *dep, *layout),
{
    if dep.include_paths.len() > 0 {
        add_each(paths, &dep.include_paths);
        return;
    }
    let cands = qualifying(&dep.path, layout);
    let ghost start = views(paths@);
    let mut found = false;
    let mut i: usize = 0;
    while i < cands.len()
        invariant
            i <= cands@.len(),
            views(paths@) == add_all(start, views(cands@).take(i as int)),
            found == any_new(start, views(cands@).take(i as int)),
        decreases cands@.len() - i,
    {
        let ghost t = views(cands@).take(i + 1);
        assert(t.drop_last() == views(cands@).take(i as int));
        assert(t.last() == cands@[i as int]@);
        let ghost before = views(paths@);
        let added = add_unique(paths, cands[i].clone());
        proof {
            let c = cands@[i as int]@;
            let pre = views(cands@).take(i as int);
            assert(t[i as int] == c);
            lemma_add_all_superset(start, pre, c);
            if !found {
                lemma_add_all_noop(start, pre);
            }
            if any_new(start, pre) {
                let k = choose|k: int| 0 <= k < pre.len() && !has_path(start, #[trigger] pre[k]);
                assert(t[k] == pre[k]);
            }
            if any_new(start, t) && !any_new(start, pre) {
                let k = choose|k: int| 0 <= k < t.len() && !has_path(start, #[trigger] t[k]);
                if k < i {
                    assert(pre[k] == t[k]);
                }
            }
        }
        found = found || added;
        i = i + 1;
    }
    assert(views(cands@).take(cands@.len() as int) == views(cands@));
    proof {
        if !found {
            lemma_add_all_noop(start, views(cands@));
        }
    }
    if !found {
        add_each(paths, &layout.scanned);
        if layout.single_header {
            let mut root: Vec<String> = Vec::new();
            root.push(dep.path.clone());
            assert(views(root@) =~= seq![dep.path@]);
            add_each(paths, &root);
        }
    }
}

/// Adding never removes a path.
proof fn lemma_add_all_superset(paths: Seq<Seq<char>>, new: Seq<Seq<char>>, c: Seq<char>)
    ensures
        has_path(paths, c) ==> has_path(add_all(paths, new), c),
    decreases new.len(),
{
    if new.len() > 0 {
        lemma_add_all_superset(paths, new.drop_last(), c);
        let p = add_all(paths, new.drop_last());
        if has_path(p, c) && !has_path(p, new.last()) {
            let k = choose|k: int| 0 <= k < p.len() && #[trigger] path_key(p[k]) == path_key(c);
            assert(path_key(p.push(new.last())[k]) == path_key(c));
        }
    }
}

/// Adding paths that are all present changes nothing.
proof fn lemma_add_all_noop(paths: Seq<Seq<char>>, new: Seq<Seq<char>>)
    requires
        !any_new(paths, new),
    ensures
        add_all(paths, new) == paths,
    decreases new.len(),
{
    if new.len() > 0 {
        assert(!any_new(paths, new.drop_last())) by {
            if any_new(paths, new.drop_last()) {
                let k = choose|k: int| 0 <= k < new.drop_last().len() && !has_path(paths, #[trigger] new.drop_last()[k]);
                assert(new[k] == new.drop_last()[k]);
            }
        }
        lemma_add_all_noop(paths, new.drop_last());
        assert(has_path(paths, new[new.len() - 1]));
    }
}

/// Resolve the include directories of all dependencies, in order, each
/// once (see `all_includes`); `layouts[i]` describes `deps[i]` on disk.
pub fn resolve_includes(deps: &[ResolvedDependency], layouts: &Vec<DepLayout>) -> (r: Vec<String>)
    requires
        layouts@.len() == deps@.len(),
        forall|i: int| 0 <= i < layouts@.len() ==> layout_ok(#[trigger] layouts@[i]),
    ensures
        views(r@) == all_includes(deps@, layouts@),
{
    let mut paths: Vec<String> = Vec::new();
    let mut i: usize = 0;
    while i < deps.len()
        invariant
            i <= deps@.len(),
            layouts@.len() == deps@.len(),
            forall|k: int| 0 <= k < layouts@.len() ==> layout_ok(#[trigger] layouts@[k]),
            views(paths@) == all_includes(deps@.take(i as int), layouts@),
        decreases deps@.len() - i,
    {
        let ghost t = deps@.take(i + 1);
        assert(t.drop_last() == deps@.take(i as int));
        assert(t.last() == deps@[i as int]);
        collect_dep_includes(&deps[i], &layouts[i], &mut paths);
        i = i + 1;
    }
    assert(deps@.take(deps@.len() as int) == deps@);
    paths
}

/// A C/C++ header extension.
pub open spec fn is_header_path(p: Seq<char>) -> bool {
    match extension(p) {
        Some(e) => e == "h"@ || e == "hpp"@ || e == "hxx"@ || e == "hh"@ || e == "h++"@ || e == "H"@ || e == "inl"@
            || e == "inc"@,
        None => false,
    }
}

/// Whether a path names a C/C++ header.
pub fn is_header_file(path: &str) -> (r: bool)
    ensures
        r == is_header_path(path@),
{
    match extension_chars(&chars_of(path)) {
        Some(e) => eq_lit(&e, "h") || eq_lit(&e, "hpp") || eq_lit(&e, "hxx") || eq_lit(&e, "hh") || eq_lit(&e, "h++")
            || eq_lit(&e, "H") || eq_lit(&e, "inl") || eq_lit(&e, "inc"),
        None => false,
    }
}

/// The single-header pattern: exactly one header file at the root, or some
/// headers at the root and neither `include/` nor `src/`.
pub fn has_single_header_at_root(root_headers: usize, include_exists: bool, src_exists: bool) -> (r: bool)
    ensures
        r == (root_headers == 1 || (root_headers >= 1 && !include_exists && !src_exists)),
{
    root_headers == 1 || (root_headers >= 1 && !include_exists && !src_exists)
}

/// Directories a header scan does not enter: hidden ones and build, target,
/// test, tests, examples, third_party and vendor.
pub open spec fn skipped_dir_name(n: Seq<char>) -> bool {
    (n.len() > 0 && n[0] == '.') || n == "build"@ || n == "target"@ || n == "test"@ || n == "tests"@ || n
        == "examples"@ || n == "third_party"@ || n == "vendor"@
}

/// Whether a header scan skips a directory of this name.
pub fn skipped_dir(name: &str) -> (r: bool)
    ensures
        r == skipped_dir_name(name@),
{
    let n = chars_of(name);
    (n.len() > 0 && n[0] == '.') || eq_lit(&n, "build") || eq_lit(&n, "target") || eq_lit(&n, "test") || eq_lit(
        &n,
        "tests",
    ) || eq_lit(&n, "examples") || eq_lit(&n, "third_party") || eq_lit(&n, "vendor")
}

/// The locations exposed under `.hut/include/<name>`, in order of preference.
pub open spec fn exposed_dirs() -> Seq<Seq<char>> {
    seq!["include"@, "includes"@, "inc"@, "src"@]
}

/// The directory to expose for a dependency: the first of `include`,
/// `includes`, `inc`, `src` that is a directory with headers (`usable[i]`),
/// else the root when it holds headers.
pub open spec fn best_include(root: Seq<char>, usable: Seq<bool>, root_has_headers: bool) -> Option<Seq<char>> {
    if usable[0] {
        Some(path_join(root, exposed_dirs()[0]))
    } else if usable[1] {
        Some(path_join(root, exposed_dirs()[1]))
    } else if usable[2] {
        Some(path_join(root, exposed_dirs()[2]))
    } else if usable[3] {
        Some(path_join(root, exposed_dirs()[3]))
    } else if root_has_headers {
        Some(root)
    } else {
        None
    }
}

/// The directory to expose for a dependency (see `best_include`).
pub fn find_best_include_for_dep(dep: &ResolvedDependency, usable: &Vec<bool>, root_has_headers: bool) -> (r: Option<
    String,
>)
    requires
        usable@.len() == 4,
    ensures
        match r {
            Some(p) => best_include(dep.path@, usable@, root_has_headers) == Some(p@),
            None => best_include(dep.path@, usable@, root_has_headers) is None,
        },
{
    let root = dep.path.as_str();
    if usable[0] {
        Some(join_path(root, "include"))
    } else if usable[1] {
        Some(join_path(root, "includes"))
    } else if usable[2] {
        Some(join_path(root, "inc"))
    } else if usable[3] {
        Some(join_path(root, "src"))
    } else if root_has_headers {
        Some(dep.path.clone())
    } else {
        None
    }
}

/// Adding keeps a list free of repeated paths.
proof fn lemma_add_all_unique(paths: Seq<Seq<char>>, new: Seq<Seq<char>>)
    requires
        distinct_paths(paths),
    ensures
        distinct_paths(add_all(paths, new)),
    decreases new.len(),
{
    if new.len() > 0 {
        lemma_add_all_unique(paths, new.drop_last());
        let p = add_all(paths, new.drop_last());
        if !has_path(p, new.last()) {
            let q = p.push(new.last());
            assert forall|i: int, j: int| 0 <= i < j < q.len() implies path_key(#[trigger] q[i]) != path_key(
                #[trigger] q[j],
            ) by {
                if j == p.len() {
                    assert(q[i] == p[i]);
                    assert(q[j] == new.last());
                } else {
                    assert(q[i] == p[i] && q[j] == p[j]);
                }
            }
        }
    }
}

/// The include directories of any list of dependencies name each directory
/// once: no two of them are the same path.
pub proof fn law_includes_unique(deps: Seq<ResolvedDependency>, layouts: Seq<DepLayout>)
    ensures
        distinct_paths(all_includes(deps, layouts)),
    decreases deps.len(),
{
    if deps.len() > 0 {
        law_includes_unique(deps.drop_last(), layouts);
        let p = all_includes(deps.drop_last(), layouts);
        let d = deps.last();
        let l = layouts[deps.len() - 1];
        lemma_add_all_unique(p, views(d.include_paths@));
        lemma_add_all_unique(p, std_candidates(d.path@, l.dir_exists@, l.has_headers@, 5));
        lemma_add_all_unique(p, views(l.scanned@));
        lemma_add_all_unique(add_all(p, views(l.scanned@)), seq![d.path@]);
    }
}

/// All precomputed include directories of a list of dependencies, in order.
pub open spec fn precomputed_paths(deps: Seq<ResolvedDependency>) -> Seq<Seq<char>>
    decreases deps.len(),
{
    if deps.len() == 0 {
        Seq::empty()
    } else {
        precomputed_paths(deps.drop_last()) + views(deps.last().include_paths@)
    }
}

/// A list with every entry dropped that names the same path as an earlier
/// one.
pub open spec fn dedup_paths(s: Seq<Seq<char>>) -> Seq<Seq<char>>
    decreases s.len(),
{
    if s.len() == 0 {
        s
    } else {
        let d = dedup_paths(s.drop_last());
        if has_path(s.drop_last(), s.last()) {
            d
        } else {
            d.push(s.last())
        }
    }
}

/// When every dependency carries its include directories, the include paths
/// are those directories in dependency order, each dropped when an earlier
/// one names the same path, whatever the dependency directories hold.
pub proof fn law_includes_precomputed(deps: Seq<ResolvedDependency>, layouts: Seq<DepLayout>)
    requires
        forall|i: int| 0 <= i < deps.len() ==> (#[trigger] deps[i]).include_paths@.len() > 0,
    ensures
        all_includes(deps, layouts) == dedup_paths(precomputed_paths(deps)),
    decreases deps.len(),
{
    if deps.len() > 0 {
        let p = deps.drop_last();
        assert forall|i: int| 0 <= i < p.len() implies (#[trigger] p[i]).include_paths@.len() > 0 by {
            assert(p[i] == deps[i]);
        }
        law_includes_precomputed(p, layouts);
        assert(deps[deps.len() - 1] == deps.last());
        lemma_add_all_concat(Seq::empty(), precomputed_paths(p), views(deps.last().include_paths@));
        lemma_add_all_is_dedup(precomputed_paths(p));
        lemma_add_all_is_dedup(precomputed_paths(deps));
    } else {
        assert(dedup_paths(precomputed_paths(deps)) =~= Seq::<Seq<char>>::empty());
    }
}

/// Adding two lists one after the other is adding their concatenation.
proof fn lemma_add_all_concat(p: Seq<Seq<char>>, a: Seq<Seq<char>>, b: Seq<Seq<char>>)
    ensures
        add_all(p, a + b) == add_all(add_all(p, a), b),
    decreases b.len(),
{
    if b.len() == 0 {
        assert(a + b =~= a);
    } else {
        lemma_add_all_concat(p, a, b.drop_last());
        assert((a + b).drop_last() =~= a + b.drop_last());
        assert((a + b).last() == b.last());
    }
}

/// After adding, a path is present exactly when it was present before or
/// was among those added.
proof fn lemma_add_all_paths(paths: Seq<Seq<char>>, new: Seq<Seq<char>>, x: Seq<char>)
    ensures
        has_path(add_all(paths, new), x) <==> has_path(paths, x) || has_path(new, x),
    decreases new.len(),
{
    if new.len() > 0 {
        let n = new.drop_last();
        lemma_add_all_paths(paths, n, x);
        lemma_add_all_paths(paths, n, new.last());
        let p = add_all(paths, n);
        let q = p.push(new.last());
        if has_path(new, x) {
            let k = choose|k: int| 0 <= k < new.len() && #[trigger] path_key(new[k]) == path_key(x);
            if k < n.len() {
                assert(path_key(n[k]) == path_key(x));
            } else {
                assert(path_key(new.last()) == path_key(x));
                if has_path(p, new.last()) {
                    let m = choose|m: int| 0 <= m < p.len() && #[trigger] path_key(p[m]) == path_key(new.last());
                    assert(path_key(p[m]) == path_key(x));
                } else {
                    assert(path_key(q[p.len() as int]) == path_key(x));
                }
            }
        }
        if has_path(p, x) && !has_path(p, new.last()) {
            let m = choose|m: int| 0 <= m < p.len() && #[trigger] path_key(p[m]) == path_key(x);
            assert(path_key(q[m]) == path_key(x));
        }
        if !has_path(p, new.last()) && has_path(q, x) {
            let m = choose|m: int| 0 <= m < q.len() && #[trigger] path_key(q[m]) == path_key(x);
            if m < p.len() {
                assert(path_key(p[m]) == path_key(x));
            } else {
                assert(path_key(new[new.len() - 1]) == path_key(x));
            }
        }
        if has_path(n, x) {
            let m = choose|m: int| 0 <= m < n.len() && #[trigger] path_key(n[m]) == path_key(x);
            assert(path_key(new[m]) == path_key(x));
        }
    }
}

/// Adding to nothing is dropping repeated paths.
proof fn lemma_add_all_is_dedup(s: Seq<Seq<char>>)
    ensures
        add_all(Seq::empty(), s) == dedup_paths(s),
    decreases s.len(),
{
    if s.len() > 0 {
        lemma_add_all_is_dedup(s.drop_last());
        lemma_add_all_paths(Seq::empty(), s.drop_last(), s.last());
        assert(!has_path(Seq::<Seq<char>>::empty(), s.last()));
    }
}

/// For a dependency without precomputed include directories, the include
/// paths hold (as paths compare) its `include/` and `src/` directories when
/// they exist and hold headers, its root when it exists, and its root when
/// it is a single-header package without any standard location.
pub proof fn law_includes_from_layout(d: ResolvedDependency, l: DepLayout)
    requires
        d.include_paths@.len() == 0,
        layout_ok(l),
    ensures
        ({
            let r = all_includes(seq![d], seq![l]);
            &&& l.dir_exists@[0] && l.has_headers@[0] ==> has_path(r, path_join(d.path@, "include"@))
            &&& l.dir_exists@[1] && l.has_headers@[1] ==> has_path(r, path_join(d.path@, "src"@))
            &&& l.dir_exists@[4] ==> has_path(r, d.path@)
            &&& l.single_header && std_candidates(d.path@, l.dir_exists@, l.has_headers@, 5).len() == 0
                ==> has_path(r, d.path@)
        }),
{
    let deps = seq![d];
    let ls = seq![l];
    assert(deps.drop_last() =~= Seq::<ResolvedDependency>::empty());
    assert(all_includes(deps.drop_last(), ls) == Seq::<Seq<char>>::empty());
    assert(deps.last() == d);
    assert(ls[0] == l);
    let c = std_candidates(d.path@, l.dir_exists@, l.has_headers@, 5);
    let e = Seq::<Seq<char>>::empty();
    assert(standard_dirs()[0] == "include"@);
    assert(standard_dirs()[1] == "src"@);
    assert(all_includes(deps, ls) == dep_includes(e, d, l));
    if l.dir_exists@[0] && l.has_headers@[0] {
        lemma_std_candidate_in(d.path@, l.dir_exists@, l.has_headers@, 5, 0);
    }
    if l.dir_exists@[1] && l.has_headers@[1] {
        lemma_std_candidate_in(d.path@, l.dir_exists@, l.has_headers@, 5, 1);
    }
    if l.dir_exists@[4] {
        lemma_std_candidate_in(d.path@, l.dir_exists@, l.has_headers@, 5, 4);
    }
    if any_new(e, c) {
        let r = add_all(e, c);
        if l.dir_exists@[0] && l.has_headers@[0] {
            let x = path_join(d.path@, standard_dirs()[0]);
            lemma_std_candidate_in(d.path@, l.dir_exists@, l.has_headers@, 5, 0);
            lemma_in_has_path(c, x);
            lemma_add_all_paths(e, c, x);
        }
        if l.dir_exists@[1] && l.has_headers@[1] {
            let x = path_join(d.path@, standard_dirs()[1]);
            lemma_std_candidate_in(d.path@, l.dir_exists@, l.has_headers@, 5, 1);
            lemma_in_has_path(c, x);
            lemma_add_all_paths(e, c, x);
        }
        if l.dir_exists@[4] {
            lemma_std_candidate_in(d.path@, l.dir_exists@, l.has_headers@, 5, 4);
            lemma_in_has_path(c, d.path@);
            lemma_add_all_paths(e, c, d.path@);
        }
    } else {
        if c.len() > 0 {
            assert(!has_path(e, c[0]));
        }
        let p = add_all(e, views(l.scanned@));
        assert(seq![d.path@][0] == d.path@);
        lemma_in_has_path(seq![d.path@], d.path@);
        lemma_add_all_paths(p, seq![d.path@], d.path@);
    }
}

/// An entry of a list is present as a path.
proof fn lemma_in_has_path(s: Seq<Seq<char>>, x: Seq<char>)
    requires
        s.contains(x),
    ensures
        has_path(s, x),
{
    let k = choose|k: int| 0 <= k < s.len() && s[k] == x;
    assert(path_key(s[k]) == path_key(x));
}

/// The qualifying standard locations hold each location that qualifies.
proof fn lemma_std_candidate_in(root: Seq<char>, dir_exists: Seq<bool>, has_headers: Seq<bool>, k: int, i: int)
    requires
        0 <= i < k,
        dir_exists[i],
        i == 4 || has_headers[i],
    ensures
        std_candidates(root, dir_exists, has_headers, k).contains(
            if i == 4 { root } else { path_join(root, standard_dirs()[i]) },
        ),
    decreases k,
{
    let rest = std_candidates(root, dir_exists, has_headers, k - 1);
    let j = k - 1;
    let x = if i == 4 { root } else { path_join(root, standard_dirs()[i]) };
    if i == j {
        assert(rest.push(x)[rest.len() as int] == x);
    } else {
        lemma_std_candidate_in(root, dir_exists, has_headers, k - 1, i);
        let m = choose|m: int| 0 <= m < rest.len() && rest[m] == x;
        if dir_exists[j] && (j == 4 || has_headers[j]) {
            let y = if j == 4 { root } else { path_join(root, standard_dirs()[j]) };
            assert(rest.push(y)[m] == x);
        }
    }
}

/// The exposed directory is the first of `include`, `includes`, `inc` and
/// `src` (in that order) that holds headers; when none does, the root if it
/// holds headers, else nothing.
pub proof fn law_best_include_order(root: Seq<char>, usable: Seq<bool>, root_has_headers: bool)
    requires
        usable.len() == 4,
    ensures
        usable[0] ==> best_include(root, usable, root_has_headers) == Some(path_join(root, "include"@)),
        !usable[0] && usable[1] ==> best_include(root, usable, root_has_headers) == Some(
            path_join(root, "includes"@),
        ),
        !usable[0] && !usable[1] && usable[2] ==> best_include(root, usable, root_has_headers) == Some(
            path_join(root, "inc"@),
        ),
        !usable[0] && !usable[1] && !usable[2] && usable[3] ==> best_include(root, usable, root_has_headers)
            == Some(path_join(root, "src"@)),
        !usable[0] && !usable[1] && !usable[2] && !usable[3] ==> best_include(root, usable, root_has_headers) == (
        if root_has_headers {
            Some(root)
        } else {
            None
        }),
{
}

} // verus!
