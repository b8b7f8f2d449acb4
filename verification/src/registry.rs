//! The package registry: entries with their published versions, search,
//! and the choice of the highest version that meets a constraint.

use vstd::prelude::*;

use crate::error::HutError;
use crate::text::{
    chars_of, concat, concat3, contains, has_substring, is_ascii_alnum, spec_lowercase, string_of,
    to_lowercase, views,
};
use crate::versions::{
    spec_req_error, spec_req_matches, spec_version_order, spec_version_parse, triple_order,
    version_string, Requirement, SemVer, VersionView,
};

verus! {

/// One published version of a package.
#[derive(Debug)]
pub struct VersionInfo {
    /// Git tag or commit.
    pub git_ref: String,
    /// SHA-256 of the package at this version.
    pub integrity: Option<String>,
    /// Dependencies at this version: name and constraint, in name order.
    pub dependencies: Vec<(String, String)>,
}

/// Package registry entry.
#[derive(Debug)]
pub struct RegistryEntry {
    pub name: String,
    pub description: String,
    pub repository: String,
    /// Published versions by version text, in text order.
    pub versions: Vec<(String, VersionInfo)>,
    /// Tags for discovery.
    pub tags: Vec<String>,
    /// Download count.
    pub downloads: u64,
}

/// The full registry index.
#[derive(Debug)]
pub struct RegistryIndex {
    pub packages: Vec<RegistryEntry>,
}

impl Default for RegistryIndex {
    fn default() -> (r: Self)
        ensures
            r.packages@.len() == 0,
    {
        RegistryIndex { packages: Vec::new() }
    }
}

/// Index of the first entry named `name`, or -1.
pub open spec fn first_named(ps: Seq<RegistryEntry>, name: Seq<char>) -> int
    decreases ps.len(),
{
    if ps.len() == 0 {
        -1
    } else if ps[0].name@ == name {
        0
    } else {
        let r = first_named(ps.drop_first(), name);
        if r < 0 { -1 } else { r + 1 }
    }
}

/// Some lowercased tag contains the lowercased query.
pub open spec fn tag_matches(tags: Seq<Seq<char>>, q: Seq<char>) -> bool {
    exists|i: int| 0 <= i < tags.len() && has_substring(spec_lowercase(#[trigger] tags[i]), spec_lowercase(q))
}

/// Whether an entry matches a search query (case-insensitive substring of
/// its name, description or one of its tags).
pub open spec fn registry_matches(e: RegistryEntry, q: Seq<char>) -> bool {
    has_substring(spec_lowercase(e.name@), spec_lowercase(q)) || has_substring(
        spec_lowercase(e.description@),
        spec_lowercase(q),
    ) || tag_matches(views(e.tags@), q)
}

/// The entries matching a query, in index order.
pub open spec fn registry_hits(ps: Seq<RegistryEntry>, q: Seq<char>) -> Seq<RegistryEntry>
    decreases ps.len(),
{
    if ps.len() == 0 {
        Seq::empty()
    } else {
        let rest = registry_hits(ps.drop_last(), q);
        if registry_matches(ps.last(), q) {
            rest.push(ps.last())
        } else {
            rest
        }
    }
}

/// The entries a search returns, as values.
pub open spec fn deref_entries(v: Seq<&RegistryEntry>) -> Seq<RegistryEntry> {
    v.map_values(|p: &RegistryEntry| *p)
}

/// A constraint as the registry reads it: `*` and constraints that start with
/// an operator stand as written; a bare version means exactly that version.
pub open spec fn normalized_constraint(c: Seq<char>) -> Seq<char> {
    if c == seq!['*'] {
        c
    } else if c.len() > 0 && (c[0] == '^' || c[0] == '~' || c[0] == '>' || c[0] == '<' || c[0] == '=') {
        c
    } else {
        seq!['='] + c
    }
}

/// The parsed versions among `keys` that the requirement `req` matches, in
/// order.
pub open spec fn matching_versions(req: Seq<char>, keys: Seq<Seq<char>>) -> Seq<VersionView>
    decreases keys.len(),
{
    if keys.len() == 0 {
        Seq::empty()
    } else {
        let rest = matching_versions(req, keys.drop_last());
        match spec_version_parse(keys.last()) {
            Some(v) => if spec_req_matches(req, v) { rest.push(v) } else { rest },
            None => rest,
        }
    }
}

/// The greatest version of a non-empty list; of equal ones, the last
/// (the choice of `Iterator::max`).
pub open spec fn last_max(vs: Seq<VersionView>) -> VersionView
    decreases vs.len(),
{
    if vs.len() <= 1 {
        vs[0]
    } else {
        let b = last_max(vs.drop_last());
        if spec_version_order(b, vs.last()) > 0 { b } else { vs.last() }
    }
}

/// The version keys of an entry.
pub open spec fn version_keys(e: RegistryEntry) -> Seq<Seq<char>> {
    e.versions@.map_values(|p: (String, VersionInfo)| p.0@)
}

/// The message of a constraint the registry cannot parse.
pub open spec fn invalid_constraint_text(c: Seq<char>, err: Seq<char>) -> Seq<char> {
    "Invalid version constraint '"@ + c + "': "@ + err
}

impl RegistryIndex {
    /// The first entry named `name`.
    pub fn find(&self, name: &str) -> (r: Option<&RegistryEntry>)
        ensures
            match r {
                Some(e) => 0 <= first_named(self.packages@, name@) < self.packages@.len()
                    && *e == self.packages@[first_named(self.packages@, name@)],
                None => first_named(self.packages@, name@) == -1,
            },
    {
        let mut i: usize = 0;
        assert(self.packages@.skip(0) == self.packages@);
        while i < self.packages.len()
            invariant
                i <= self.packages@.len(),
                forall|j: int| 0 <= j < i ==> self.packages@[j].name@ != name@,
                first_named(self.packages@, name@) == (if first_named(self.packages@.skip(i as int), name@)
                    < 0 {
                    -1
                } else {
                    first_named(self.packages@.skip(i as int), name@) + i
                }),
            decreases self.packages@.len() - i,
        {
            let ghost s = self.packages@.skip(i as int);
            assert(s[0] == self.packages@[i as int]);
            assert(s.drop_first() == self.packages@.skip(i + 1));
            if crate::text::str_eq(self.packages[i].name.as_str(), name) {
                return Some(&self.packages[i]);
            }
            i = i + 1;
        }
        None
    }

    /// Entries whose name, description or a tag contains the query,
    /// ignoring case, in index order.
    pub fn search(&self, query: &str) -> (r: Vec<&RegistryEntry>)
        ensures
            deref_entries(r@) == registry_hits(self.packages@, query@),
    {
        let q = to_lowercase(query);
        let qc = chars_of(q.as_str());
        let mut r: Vec<&RegistryEntry> = Vec::new();
        let mut i: usize = 0;
        while i < self.packages.len()
            invariant
                i <= self.packages@.len(),
                qc@ == spec_lowercase(query@),
                deref_entries(r@) == registry_hits(self.packages@.take(i as int), query@),
            decreases self.packages@.len() - i,
        {
            let ghost t = self.packages@.take(i + 1);
            assert(t.drop_last() == self.packages@.take(i as int));
            assert(t.last() == self.packages@[i as int]);
            let e = &self.packages[i];
            if entry_hit(e, &qc, Ghost(query@)) {
                let ghost before = r@;
                r.push(e);
                assert(deref_entries(r@) =~= deref_entries(before).push(self.packages@[i as int]));
            }
            i = i + 1;
        }
        assert(self.packages@.take(self.packages@.len() as int) == self.packages@);
        r
    }
}

/// Whether one entry matches the lowercased query `qc`.
fn entry_hit(e: &RegistryEntry, qc: &Vec<char>, Ghost(query): Ghost<Seq<char>>) -> (r: bool)
    requires
        qc@ == spec_lowercase(query),
    ensures
        r == registry_matches(*e, query),
{
    let ln = to_lowercase(e.name.as_str());
    if contains(&chars_of(ln.as_str()), qc) {
        return true;
    }
    let ld = to_lowercase(e.description.as_str());
    if contains(&chars_of(ld.as_str()), qc) {
        return true;
    }
    let mut j: usize = 0;
    while j < e.tags.len()
        invariant
            j <= e.tags@.len(),
            qc@ == spec_lowercase(query),
            forall|k: int| 0 <= k < j ==> !has_substring(spec_lowercase(#[trigger] views(e.tags@)[k]), spec_lowercase(query)),
        decreases e.tags@.len() - j,
    {
        let lt = to_lowercase(e.tags[j].as_str());
        assert(views(e.tags@)[j as int] == e.tags@[j as int]@);
        if contains(&chars_of(lt.as_str()), qc) {
            return true;
        }
        j = j + 1;
    }
    false
}

/// A directory name for a git URL: the last path component with a trailing
/// `.git` removed, every character
/// other than ASCII letters, digits, `-` and `_` replaced by `_`.
pub open spec fn sanitised_name(url: Seq<char>) -> Seq<char> {
    let trimmed = trim_trailing(url, '/');
    let last = trimmed.skip(crate::text::last_index_of(trimmed, '/') + 1);
    let stem = if crate::text::has_suffix(last, ".git"@) { last.take(last.len() - 4) } else { last };
    stem.map_values(|c: char| safe_char(c))
}

/// A character kept in directory names, or `_`.
pub open spec fn safe_char(c: char) -> char {
    if is_ascii_alnum(c) || c == '-' || c == '_' { c } else { '_' }
}

/// Drop every trailing occurrence of `c`.
pub open spec fn trim_trailing(s: Seq<char>, c: char) -> Seq<char>
    decreases s.len(),
{
    if s.len() > 0 && s.last() == c {
        trim_trailing(s.drop_last(), c)
    } else {
        s
    }
}

/// Turn a git URL into a safe directory name.
pub fn sanitise_repo_name(url: &str) -> (r: String)
    ensures
        r@ == sanitised_name(url@),
{
    let u = chars_of(url);
    let mut end: usize = u.len();
    assert(u@.take(end as int) == u@);
    while end > 0 && u[end - 1] == '/'
        invariant
            end <= u@.len(),
            trim_trailing(u@, '/') == trim_trailing(u@.take(end as int), '/'),
        decreases end,
    {
        assert(u@.take(end as int).drop_last() == u@.take(end - 1));
        end = end - 1;
    }
    let trimmed = crate::text::take_chars(&u, end);
    assert(trimmed@ == trim_trailing(u@, '/'));
    let start = match crate::text::rfind_char(&trimmed, '/') {
        Some(k) => k + 1,
        None => 0,
    };
    let last = crate::text::skip_chars(&trimmed, start);
    let git = chars_of(".git");
    proof {
        reveal_strlit(".git");
    }
    let stem = if crate::text::ends_with(&last, &git) {
        crate::text::take_chars(&last, last.len() - 4)
    } else {
        last
    };
    let mut out: Vec<char> = Vec::new();
    let mut i: usize = 0;
    while i < stem.len()
        invariant
            i <= stem@.len(),
            out@ == stem@.take(i as int).map_values(|c: char| safe_char(c)),
        decreases stem@.len() - i,
    {
        let c = stem[i];
        let keep = ('0' <= c && c <= '9') || ('a' <= c && c <= 'z') || ('A' <= c && c <= 'Z') || c == '-'
            || c == '_';
        out.push(if keep { c } else { '_' });
        assert(stem@.take(i + 1).map_values(|c: char| safe_char(c)) =~= stem@.take(i as int).map_values(
            |c: char| safe_char(c),
        ).push(safe_char(c)));
        i = i + 1;
    }
    assert(stem@.take(stem@.len() as int) == stem@);
    string_of(&out)
}

/// Given a registry entry and a semver constraint (`^1.0`, `>=1.2`, `*`, or a
/// bare version meaning exactly that version), the highest matching version.
pub fn resolve_version(entry: &RegistryEntry, constraint: &str) -> (r: Result<String, HutError>)
    ensures
        ({
            let c = normalized_constraint(constraint@);
            match spec_req_error(c) {
                Some(m) => r matches Err(HutError::Resolution(msg)) && msg@ == invalid_constraint_text(c, m),
                None => {
                    let ms = matching_versions(c, version_keys(*entry));
                    if ms.len() == 0 {
                        r matches Err(HutError::VersionNotFound(n, k)) && n@ == entry.name@ && k@ == c
                    } else {
                        &&& r matches Ok(s) && s@ == version_string(last_max(ms))
                        &&& forall|i: int| 0 <= i < ms.len() ==> triple_order(#[trigger] ms[i], last_max(ms)) <= 0
                        &&& forall|i: int|
                            0 <= i < ms.len() && ms[i] != last_max(ms) ==> spec_version_order(#[trigger] ms[i], last_max(ms))
                                <= 0
                    }
                },
            }
        }),
{
    let cc = chars_of(constraint);
    let normalized = if cc.len() == 1 && cc[0] == '*' {
        String::from_str(constraint)
    } else if cc.len() > 0 && (cc[0] == '^' || cc[0] == '~' || cc[0] == '>' || cc[0] == '<' || cc[0] == '=') {
        String::from_str(constraint)
    } else {
        concat("=", constraint)
    };
    proof {
        reveal_strlit("=");
        if cc@.len() == 1 && cc@[0] == '*' {
            assert(cc@ =~= seq!['*']);
        }
    }
    assert(normalized@ == normalized_constraint(constraint@));
    let req = match Requirement::parse(normalized.as_str()) {
        Ok(q) => q,
        Err(m) => {
            let a = concat3("Invalid version constraint '", normalized.as_str(), "': ");
            return Err(HutError::Resolution(concat(a.as_str(), m.as_str())));
        },
    };
    highest_match(entry, &req, normalized)
}

/// The highest version of `entry` that `req` matches (see `resolve_version`).
fn highest_match(entry: &RegistryEntry, req: &Requirement, normalized: String) -> (r: Result<String, HutError>)
    ensures
        ({
            let ms = matching_versions(req@, version_keys(*entry));
            if ms.len() == 0 {
                r matches Err(HutError::VersionNotFound(n, k)) && n@ == entry.name@ && k@ == normalized@
            } else {
                &&& r matches Ok(s) && s@ == version_string(last_max(ms))
                &&& forall|i: int| 0 <= i < ms.len() ==> triple_order(#[trigger] ms[i], last_max(ms)) <= 0
                &&& forall|i: int|
                    0 <= i < ms.len() && ms[i] != last_max(ms) ==> spec_version_order(#[trigger] ms[i], last_max(ms))
                        <= 0
            }
        }),
{
    let ghost keys = version_keys(*entry);
    let mut best: Option<SemVer> = None;
    let mut i: usize = 0;
    while i < entry.versions.len()
        invariant
            i <= entry.versions@.len(),
            keys == version_keys(*entry),
            keys.len() == entry.versions@.len(),
            ({
                let ms = matching_versions(req@, keys.take(i as int));
                match best {
                    None => ms.len() == 0,
                    Some(b) => ms.len() > 0 && b@ == last_max(ms) && (forall|j: int|
                        0 <= j < ms.len() ==> triple_order(#[trigger] ms[j], b@) <= 0) && (forall|j: int|
                        0 <= j < ms.len() && ms[j] != b@ ==> spec_version_order(#[trigger] ms[j], b@) <= 0),
                }
            }),
        decreases entry.versions@.len() - i,
    {
        let ghost before = matching_versions(req@, keys.take(i as int));
        let ghost t = keys.take(i + 1);
        assert(t.drop_last() == keys.take(i as int));
        assert(t.last() == entry.versions@[i as int].0@);
        if let Some(v) = SemVer::parse(entry.versions[i].0.as_str()) {
            if req.matches(&v) {
                let ghost ms = before.push(v@);
                assert(ms.drop_last() == before);
                match best {
                    None => {
                        best = Some(v);
                    },
                    Some(b) => {
                        let o = b.order(&v);
                        proof {
                            lemma_matching_parsed(req@, keys.take(i as int));
                        }
                        if o > 0 {
                            best = Some(b);
                        } else {
                            proof {
                                assert forall|j: int| 0 <= j < ms.len() && ms[j] != v@ implies spec_version_order(
                                    #[trigger] ms[j],
                                    v@,
                                ) <= 0 by {
                                    if j < before.len() {
                                        let z = before[j];
                                        let tz = choose|tz: Seq<char>| spec_version_parse(tz) == Some(z);
                                        assert(spec_version_parse(tz) == Some(z));
                                        if z == b@ {
                                            assert(spec_version_order(z, v@) == o);
                                        } else {
                                            assert(spec_version_order(z, b@) <= 0);
                                        }
                                    }
                                }
                            }
                            assert forall|j: int| 0 <= j < ms.len() implies triple_order(#[trigger] ms[j], v@)
                                <= 0 by {
                                if j < before.len() {
                                    assert(triple_order(before[j], b@) <= 0);
                                }
                            }
                            best = Some(v);
                        }
                    },
                }
            }
        }
        i = i + 1;
    }
    assert(keys.take(i as int) == keys);
    match best {
        None => Err(HutError::VersionNotFound(entry.name.clone(), normalized)),
        Some(b) => Ok(b.to_text()),
    }
}

/// The version `resolve_version` picks is one of the matching versions.
pub proof fn law_last_max_member(vs: Seq<VersionView>)
    requires
        vs.len() > 0,
    ensures
        vs.contains(last_max(vs)),
    decreases vs.len(),
{
    if vs.len() == 1 {
        assert(vs[0] == last_max(vs));
    } else {
        law_last_max_member(vs.drop_last());
        let b = last_max(vs.drop_last());
        if spec_version_order(b, vs.last()) > 0 {
            let k = choose|k: int| 0 <= k < vs.drop_last().len() && vs.drop_last()[k] == b;
            assert(vs[k] == b);
        } else {
            assert(vs[vs.len() - 1] == vs.last());
        }
    }
}

/// Registry search ignores case: two queries that lowercase alike find the
/// same entries, in the same order.
pub proof fn law_registry_search_ignores_case(index: RegistryIndex, q1: Seq<char>, q2: Seq<char>)
    requires
        spec_lowercase(q1) == spec_lowercase(q2),
    ensures
        registry_hits(index.packages@, q1) == registry_hits(index.packages@, q2),
{
    lemma_registry_hits_same_case(index.packages@, q1, q2);
}

proof fn lemma_registry_hits_same_case(ps: Seq<RegistryEntry>, q1: Seq<char>, q2: Seq<char>)
    requires
        spec_lowercase(q1) == spec_lowercase(q2),
    ensures
        registry_hits(ps, q1) == registry_hits(ps, q2),
    decreases ps.len(),
{
    if ps.len() > 0 {
        lemma_registry_hits_same_case(ps.drop_last(), q1, q2);
        assert(tag_matches(views(ps.last().tags@), q1) == tag_matches(views(ps.last().tags@), q2));
    }
}

/// The positions of the entries a registry search finds, in index order.
pub open spec fn registry_hit_positions(ps: Seq<RegistryEntry>, q: Seq<char>) -> Seq<int>
    decreases ps.len(),
{
    if ps.len() == 0 {
        Seq::empty()
    } else {
        let rest = registry_hit_positions(ps.drop_last(), q);
        if registry_matches(ps.last(), q) {
            rest.push(ps.len() - 1)
        } else {
            rest
        }
    }
}

/// Registry search returns a subsequence of the index: the entries at
/// strictly increasing positions, exactly the positions of the entries that
/// match the query, each once.
pub proof fn law_registry_search_subsequence(index: RegistryIndex, q: Seq<char>)
    ensures
        ({
            let ps = index.packages@;
            let h = registry_hits(ps, q);
            let pos = registry_hit_positions(ps, q);
            &&& h.len() == pos.len()
            &&& forall|k: int| 0 <= k < pos.len() ==> 0 <= #[trigger] pos[k] < ps.len() && h[k] == ps[pos[k]]
            &&& forall|k: int, l: int| 0 <= k < l < pos.len() ==> #[trigger] pos[k] < #[trigger] pos[l]
            &&& forall|j: int| 0 <= j < ps.len() ==> (registry_matches(#[trigger] ps[j], q) <==> pos.contains(j))
        }),
{
    lemma_registry_hit_positions(index.packages@, q);
}

proof fn lemma_registry_hit_positions(ps: Seq<RegistryEntry>, q: Seq<char>)
    ensures
        registry_hits(ps, q).len() == registry_hit_positions(ps, q).len(),
        forall|k: int|
            0 <= k < registry_hit_positions(ps, q).len() ==> 0 <= #[trigger] registry_hit_positions(ps, q)[k]
                < ps.len() && registry_hits(ps, q)[k] == ps[registry_hit_positions(ps, q)[k]],
        forall|k: int, l: int|
            0 <= k < l < registry_hit_positions(ps, q).len() ==> #[trigger] registry_hit_positions(ps, q)[k]
                < #[trigger] registry_hit_positions(ps, q)[l],
        forall|j: int|
            0 <= j < ps.len() ==> (registry_matches(#[trigger] ps[j], q) <==> registry_hit_positions(ps, q).contains(j)),
    decreases ps.len(),
{
    if ps.len() > 0 {
        let p = ps.drop_last();
        lemma_registry_hit_positions(p, q);
        let rp = registry_hit_positions(p, q);
        let n = ps.len() - 1;
        assert forall|j: int| 0 <= j < ps.len() implies (registry_matches(#[trigger] ps[j], q)
            <==> registry_hit_positions(ps, q).contains(j)) by {
            if j < n {
                assert(p[j] == ps[j]);
                if registry_matches(ps.last(), q) {
                    if rp.contains(j) {
                        let k = choose|k: int| 0 <= k < rp.len() && rp[k] == j;
                        assert(registry_hit_positions(ps, q)[k] == j);
                    }
                    if registry_hit_positions(ps, q).contains(j) {
                        let k = choose|k: int| 0 <= k < registry_hit_positions(ps, q).len()
                            && registry_hit_positions(ps, q)[k] == j;
                        assert(k < rp.len());
                        assert(rp[k] == j);
                    }
                }
            } else {
                if registry_matches(ps.last(), q) {
                    assert(registry_hit_positions(ps, q)[rp.len() as int] == n);
                } else {
                    if rp.contains(n) {
                        let k = choose|k: int| 0 <= k < rp.len() && rp[k] == n;
                        assert(rp[k] < p.len());
                    }
                }
            }
        }
    }
}

/// Every matching version is a parsed version.
proof fn lemma_matching_parsed(req: Seq<char>, keys: Seq<Seq<char>>)
    ensures
        forall|j: int|
            0 <= j < matching_versions(req, keys).len() ==> exists|t: Seq<char>|
                spec_version_parse(t) == Some(#[trigger] matching_versions(req, keys)[j]),
    decreases keys.len(),
{
    if keys.len() > 0 {
        lemma_matching_parsed(req, keys.drop_last());
        let rest = matching_versions(req, keys.drop_last());
        assert forall|j: int| 0 <= j < matching_versions(req, keys).len() implies exists|t: Seq<char>|
            spec_version_parse(t) == Some(#[trigger] matching_versions(req, keys)[j]) by {
            if j < rest.len() {
                assert(matching_versions(req, keys)[j] == rest[j]);
            } else {
                assert(spec_version_parse(keys.last()) == Some(matching_versions(req, keys)[j]));
            }
        }
    }
}

} // verus!
