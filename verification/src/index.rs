//! The local package index: package names mapped to GitHub repositories and
//! build recipes. The built-in index ships with hut; a user index extends it.

use vstd::prelude::*;

use crate::error::HutError;
use crate::table::{has_key, lemma_view_at, seq_lt, sorted_keys, table_find, table_insert, table_view};
use crate::text::{concat3, contains, chars_of, has_substring, join_with, spec_lowercase, to_lowercase, views};

verus! {

/// Entry for a single package in the index.
#[derive(Clone, Debug)]
pub struct PackageEntry {
    /// GitHub repo: "owner/repo".
    pub repo: String,
    /// Human-readable description.
    pub description: String,
    /// Include directories relative to repo root.
    pub includes: Vec<String>,
    /// Libraries to link against.
    pub libs: Vec<String>,
    /// Source files/globs to compile.
    pub sources: Vec<String>,
    /// Preprocessor defines.
    pub defines: Vec<String>,
    /// Extra compiler flags.
    pub cflags: Vec<String>,
    /// Extra linker flags.
    pub ldflags: Vec<String>,
    /// Shell command to build the library (run in the fetched source dir).
    pub build: String,
}

/// The full packages index, by package name in name order.
#[derive(Clone, Debug)]
pub struct PackagesIndex {
    pub packages: Vec<(String, PackageEntry)>,
}

/// Whether a package matches a search query: the lowercased query occurs in
/// the lowercased name or description.
pub open spec fn entry_matches(name: Seq<char>, e: PackageEntry, q: Seq<char>) -> bool {
    has_substring(spec_lowercase(name), spec_lowercase(q)) || has_substring(
        spec_lowercase(e.description@),
        spec_lowercase(q),
    )
}

/// The entries of a table that match a query, in table order.
pub open spec fn search_hits(t: Seq<(String, PackageEntry)>, q: Seq<char>) -> Seq<(String, PackageEntry)>
    decreases t.len(),
{
    if t.len() == 0 {
        Seq::empty()
    } else {
        let rest = search_hits(t.drop_last(), q);
        if entry_matches(t.last().0@, t.last().1, q) {
            rest.push(t.last())
        } else {
            rest
        }
    }
}

/// The map that inserting `entries` one after another into `m` gives.
pub open spec fn insert_all(m: Map<Seq<char>, PackageEntry>, entries: Seq<(String, PackageEntry)>) -> Map<
    Seq<char>,
    PackageEntry,
>
    decreases entries.len(),
{
    if entries.len() == 0 {
        m
    } else {
        insert_all(m, entries.drop_last()).insert(entries.last().0@, entries.last().1)
    }
}

/// The GitHub clone URL of a repository `owner/name`.
pub open spec fn github_url(repo: Seq<char>) -> Seq<char> {
    "https://github.com/"@ + repo + ".git"@
}

/// A string in double quotes.
pub open spec fn quote(x: Seq<char>) -> Seq<char> {
    seq!['"'] + x + seq!['"']
}

/// Each item in double quotes.
pub open spec fn quoted_items(items: Seq<Seq<char>>) -> Seq<Seq<char>> {
    items.map_values(|x: Seq<char>| quote(x))
}

/// A list value in the index's TOML: `"a", "b"`.
pub open spec fn quoted_list(items: Seq<Seq<char>>) -> Seq<char> {
    join_with(quoted_items(items), ", "@)
}

/// One `key = [...]` line, or nothing for an empty list.
pub open spec fn list_line(key: Seq<char>, items: Seq<Seq<char>>) -> Seq<char> {
    if items.len() == 0 {
        Seq::empty()
    } else {
        key + " = ["@ + quoted_list(items) + "]\n"@
    }
}

/// The TOML block appended to the user index for one package.
pub open spec fn entry_block(name: Seq<char>, e: PackageEntry) -> Seq<char> {
    "\n[packages."@ + name + "]\n"@ + "repo = \""@ + e.repo@ + "\"\n"@ + (if e.description@.len() == 0 {
        Seq::empty()
    } else {
        "description = \""@ + e.description@ + "\"\n"@
    }) + list_line("includes"@, views(e.includes@)) + list_line("libs"@, views(e.libs@)) + list_line(
        "sources"@,
        views(e.sources@),
    ) + list_line("defines"@, views(e.defines@)) + list_line("cflags"@, views(e.cflags@)) + list_line(
        "ldflags"@,
        views(e.ldflags@),
    )
}

/// The text appended to the user index: a block for every built-in package
/// the user index lacks, in built-in order.
pub open spec fn reseed_text(builtin: Seq<(String, PackageEntry)>, user: Map<Seq<char>, PackageEntry>) -> Seq<
    char,
>
    decreases builtin.len(),
{
    if builtin.len() == 0 {
        Seq::empty()
    } else {
        let rest = reseed_text(builtin.drop_last(), user);
        let (name, e) = builtin.last();
        if user.contains_key(name@) {
            rest
        } else {
            rest + entry_block(name@, e)
        }
    }
}

/// How many built-in packages the user index lacks.
pub open spec fn reseed_count(builtin: Seq<(String, PackageEntry)>, user: Map<Seq<char>, PackageEntry>) -> nat
    decreases builtin.len(),
{
    if builtin.len() == 0 {
        0
    } else {
        let rest = reseed_count(builtin.drop_last(), user);
        if user.contains_key(builtin.last().0@) {
            rest
        } else {
            rest + 1
        }
    }
}

/// The pairs a search returns, as values.
pub open spec fn deref_pairs(v: Seq<(&String, &PackageEntry)>) -> Seq<(String, PackageEntry)> {
    v.map_values(|p: (&String, &PackageEntry)| (*p.0, *p.1))
}

impl PackagesIndex {
    /// Names are in order and occur once.
    pub open spec fn wf(&self) -> bool {
        sorted_keys(self.packages@)
    }

    /// The packages by name.
    pub open spec fn entries(&self) -> Map<Seq<char>, PackageEntry> {
        table_view(self.packages@)
    }

    /// Collect `(name, entry)` pairs into an index; a later pair replaces an
    /// earlier one with the same name.
    pub fn from_entries(entries: Vec<(String, PackageEntry)>) -> (r: PackagesIndex)
        ensures
            r.wf(),
            r.entries() == insert_all(Map::empty(), entries@),
    {
        let mut packages: Vec<(String, PackageEntry)> = Vec::new();
        let n = entries.len();
        let ghost all = entries@;
        let mut rest = entries;
        let mut i: usize = 0;
        assert(table_view(packages@) =~= Map::<Seq<char>, PackageEntry>::empty());
        assert(all.skip(0) == all);
        while i < n
            invariant
                n == all.len(),
                i <= n,
                rest@ == all.skip(i as int),
                sorted_keys(packages@),
                table_view(packages@) == insert_all(Map::empty(), all.take(i as int)),
            decreases n - i,
        {
            let (k, e) = rest.remove(0);
            assert(all.take(i + 1).drop_last() == all.take(i as int));
            assert(all.take(i + 1).last() == all[i as int]);
            assert(rest@ == all.skip(i + 1));
            table_insert(&mut packages, k, e);
            i = i + 1;
        }
        assert(all.take(n as int) == all);
        PackagesIndex { packages }
    }

    /// Look up a package by name (case-sensitive).
    pub fn find(&self, name: &str) -> (r: Option<&PackageEntry>)
        requires
            self.wf(),
        ensures
            match r {
                Some(e) => self.entries().contains_key(name@) && self.entries()[name@] == *e,
                None => !self.entries().contains_key(name@),
            },
    {
        match table_find(&self.packages, name) {
            Some(i) => {
                proof {
                    lemma_view_at(self.packages@, i as int);
                }
                Some(&self.packages[i].1)
            },
            None => None,
        }
    }

    /// Search packages by name or description substring, ignoring case.
    pub fn search(&self, query: &str) -> (r: Vec<(&String, &PackageEntry)>)
        requires
            self.wf(),
        ensures
            deref_pairs(r@) == search_hits(self.packages@, query@),
            sorted_keys(deref_pairs(r@)),
            forall|i: int|
                0 <= i < r@.len() ==> {
                    let h = #[trigger] deref_pairs(r@)[i];
                    &&& self.entries().contains_key(h.0@)
                    &&& self.entries()[h.0@] == h.1
                    &&& entry_matches(h.0@, h.1, query@)
                },
            forall|k: Seq<char>|
                #[trigger] self.entries().contains_key(k) && entry_matches(k, self.entries()[k], query@) ==> exists|
                    i: int,
                | 0 <= i < r@.len() && #[trigger] deref_pairs(r@)[i].0@ == k,
    {
        let q = to_lowercase(query);
        let qc = chars_of(q.as_str());
        let mut r: Vec<(&String, &PackageEntry)> = Vec::new();
        let mut i: usize = 0;
        while i < self.packages.len()
            invariant
                i <= self.packages@.len(),
                qc@ == spec_lowercase(query@),
                deref_pairs(r@) == search_hits(self.packages@.take(i as int), query@),
            decreases self.packages@.len() - i,
        {
            let ghost t = self.packages@.take(i + 1);
            assert(t.drop_last() == self.packages@.take(i as int));
            assert(t.last() == self.packages@[i as int]);
            let name = &self.packages[i].0;
            let entry = &self.packages[i].1;
            let ln = to_lowercase(name.as_str());
            let ld = to_lowercase(entry.description.as_str());
            let hit = contains(&chars_of(ln.as_str()), &qc) || contains(&chars_of(ld.as_str()), &qc);
            if hit {
                let ghost before = r@;
                r.push((name, entry));
                assert(deref_pairs(r@) =~= deref_pairs(before).push(self.packages@[i as int]));
            }
            i = i + 1;
        }
        assert(self.packages@.take(self.packages@.len() as int) == self.packages@);
        proof {
            law_search_hits(*self, query@);
        }
        r
    }

    /// The GitHub clone URL of a package.
    pub fn repo_url(&self, name: &str) -> (r: Result<String, HutError>)
        requires
            self.wf(),
        ensures
            match r {
                Ok(u) => self.entries().contains_key(name@) && u@ == github_url(self.entries()[name@].repo@),
                Err(e) => !self.entries().contains_key(name@) && (e matches HutError::PackageNotFound(m)
                    && m@ == name@),
            },
    {
        match self.find(name) {
            Some(e) => Ok(concat3("https://github.com/", e.repo.as_str(), ".git")),
            None => Err(HutError::PackageNotFound(String::from_str(name))),
        }
    }
}

/// `"a", "b"` for a list of strings.
fn render_quoted(items: &Vec<String>) -> (r: String)
    ensures
        r@ == quoted_list(views(items@)),
{
    let ghost all = quoted_items(views(items@));
    let mut r = String::new();
    let mut i: usize = 0;
    assert(all.take(0) =~= Seq::<Seq<char>>::empty());
    while i < items.len()
        invariant
            i <= items@.len(),
            all == quoted_items(views(items@)),
            r@ == join_with(all.take(i as int), ", "@),
        decreases items@.len() - i,
    {
        let ghost before = r@;
        assert(views(items@)[i as int] == items@[i as int]@);
        assert(all[i as int] == quote(views(items@)[i as int]));
        assert(all[i as int] == seq!['"'] + items@[i as int]@ + seq!['"']);
        if i > 0 {
            r.append(", ");
        }
        r.append("\"");
        r.append(items[i].as_str());
        r.append("\"");
        proof {
            reveal_strlit("\"");
            let t = all.take(i + 1);
            assert(t.drop_last() == all.take(i as int));
            assert(t.last() == all[i as int]);
            if i == 0 {
                assert(before.len() == 0);
                assert(r@ =~= all[0]);
            } else {
                assert(r@ =~= before + ", "@ + all[i as int]);
            }
        }
        i = i + 1;
    }
    assert(all.take(items@.len() as int) == all);
    r
}

/// One `key = [...]` line of the index's TOML (nothing for an empty list).
fn render_list_line(key: &str, items: &Vec<String>) -> (r: String)
    ensures
        r@ == list_line(key@, views(items@)),
{
    if items.len() == 0 {
        String::new()
    } else {
        let q = render_quoted(items);
        let mut r = String::from_str(key);
        r.append(" = [");
        r.append(q.as_str());
        r.append("]\n");
        r
    }
}

/// The TOML block for one package, as appended to the user index.
pub fn render_entry(name: &str, e: &PackageEntry) -> (r: String)
    ensures
        r@ == entry_block(name@, *e),
{
    let mut r = String::from_str("\n[packages.");
    r.append(name);
    r.append("]\n");
    r.append("repo = \"");
    r.append(e.repo.as_str());
    r.append("\"\n");
    let ghost head = r@;
    if e.description.as_str().unicode_len() > 0 {
        r.append("description = \"");
        r.append(e.description.as_str());
        r.append("\"\n");
    }
    proof {
        if e.description@.len() == 0 {
            assert(r@ =~= head + Seq::<char>::empty());
        }
    }
    let l1 = render_list_line("includes", &e.includes);
    r.append(l1.as_str());
    let l2 = render_list_line("libs", &e.libs);
    r.append(l2.as_str());
    let l3 = render_list_line("sources", &e.sources);
    r.append(l3.as_str());
    let l4 = render_list_line("defines", &e.defines);
    r.append(l4.as_str());
    let l5 = render_list_line("cflags", &e.cflags);
    r.append(l5.as_str());
    let l6 = render_list_line("ldflags", &e.ldflags);
    r.append(l6.as_str());
    r
}

impl PackagesIndex {
    /// What reseeding a user index from this (built-in) index appends: the
    /// TOML block of every package the user index lacks, in name order, and
    /// how many there are. User entries are never replaced.
    pub fn reseed_additions(&self, user: &PackagesIndex) -> (r: (String, usize))
        requires
            user.wf(),
        ensures
            r.0@ == reseed_text(self.packages@, user.entries()),
            r.1 == reseed_count(self.packages@, user.entries()),
    {
        let mut text = String::new();
        let mut count: usize = 0;
        let mut i: usize = 0;
        while i < self.packages.len()
            invariant
                user.wf(),
                i <= self.packages@.len(),
                count <= i,
                text@ == reseed_text(self.packages@.take(i as int), user.entries()),
                count == reseed_count(self.packages@.take(i as int), user.entries()),
            decreases self.packages@.len() - i,
        {
            let ghost t = self.packages@.take(i + 1);
            assert(t.drop_last() == self.packages@.take(i as int));
            assert(t.last() == self.packages@[i as int]);
            let name = &self.packages[i].0;
            if user.find(name.as_str()).is_none() {
                let block = render_entry(name.as_str(), &self.packages[i].1);
                text.append(block.as_str());
                count = count + 1;
            }
            i = i + 1;
        }
        assert(self.packages@.take(self.packages@.len() as int) == self.packages@);
        (text, count)
    }
}

/// Search ignores case: two queries that lowercase alike find the same
/// packages, in the same order.
pub proof fn law_search_ignores_case(index: PackagesIndex, q1: Seq<char>, q2: Seq<char>)
    requires
        spec_lowercase(q1) == spec_lowercase(q2),
    ensures
        search_hits(index.packages@, q1) == search_hits(index.packages@, q2),
{
    lemma_hits_same_case(index.packages@, q1, q2);
}

proof fn lemma_hits_same_case(t: Seq<(String, PackageEntry)>, q1: Seq<char>, q2: Seq<char>)
    requires
        spec_lowercase(q1) == spec_lowercase(q2),
    ensures
        search_hits(t, q1) == search_hits(t, q2),
    decreases t.len(),
{
    if t.len() > 0 {
        lemma_hits_same_case(t.drop_last(), q1, q2);
    }
}

/// The positions of the packages a search finds, in table order.
pub open spec fn hit_positions(t: Seq<(String, PackageEntry)>, q: Seq<char>) -> Seq<int>
    decreases t.len(),
{
    if t.len() == 0 {
        Seq::empty()
    } else {
        let rest = hit_positions(t.drop_last(), q);
        if entry_matches(t.last().0@, t.last().1, q) {
            rest.push(t.len() - 1)
        } else {
            rest
        }
    }
}

/// The hits are the matching packages of the table, taken at increasing
/// positions: a subsequence holding every match once.
proof fn lemma_hit_positions(t: Seq<(String, PackageEntry)>, q: Seq<char>)
    ensures
        search_hits(t, q).len() == hit_positions(t, q).len(),
        forall|k: int|
            0 <= k < hit_positions(t, q).len() ==> 0 <= #[trigger] hit_positions(t, q)[k] < t.len()
                && search_hits(t, q)[k] == t[hit_positions(t, q)[k]],
        forall|k: int, l: int|
            0 <= k < l < hit_positions(t, q).len() ==> #[trigger] hit_positions(t, q)[k] < #[trigger] hit_positions(
                t,
                q,
            )[l],
        forall|j: int|
            0 <= j < t.len() ==> (entry_matches(#[trigger] t[j].0@, t[j].1, q) <==> hit_positions(t, q).contains(j)),
    decreases t.len(),
{
    if t.len() > 0 {
        let p = t.drop_last();
        lemma_hit_positions(p, q);
        let rp = hit_positions(p, q);
        let n = t.len() - 1;
        assert forall|j: int| 0 <= j < t.len() implies (entry_matches(#[trigger] t[j].0@, t[j].1, q)
            <==> hit_positions(t, q).contains(j)) by {
            if j < n {
                assert(p[j] == t[j]);
                if entry_matches(t.last().0@, t.last().1, q) {
                    if rp.contains(j) {
                        let k = choose|k: int| 0 <= k < rp.len() && rp[k] == j;
                        assert(hit_positions(t, q)[k] == j);
                    }
                    if hit_positions(t, q).contains(j) {
                        let k = choose|k: int| 0 <= k < hit_positions(t, q).len() && hit_positions(t, q)[k] == j;
                        assert(k < rp.len());
                        assert(rp[k] == j);
                    }
                }
            } else {
                if entry_matches(t.last().0@, t.last().1, q) {
                    assert(hit_positions(t, q)[rp.len() as int] == n);
                } else {
                    if rp.contains(n) {
                        let k = choose|k: int| 0 <= k < rp.len() && rp[k] == n;
                        assert(rp[k] < p.len());
                    }
                }
            }
        }
    }
}

/// Search finds, in ascending name order and once each, exactly the
/// packages of the index whose name or description holds the query (both
/// lowercased).
pub proof fn law_search_hits(index: PackagesIndex, q: Seq<char>)
    requires
        index.wf(),
    ensures
        sorted_keys(search_hits(index.packages@, q)),
        forall|i: int|
            0 <= i < search_hits(index.packages@, q).len() ==> {
                let h = #[trigger] search_hits(index.packages@, q)[i];
                &&& index.entries().contains_key(h.0@)
                &&& index.entries()[h.0@] == h.1
                &&& entry_matches(h.0@, h.1, q)
            },
        forall|k: Seq<char>|
            #[trigger] index.entries().contains_key(k) && entry_matches(k, index.entries()[k], q) ==> exists|i: int|
                0 <= i < search_hits(index.packages@, q).len() && #[trigger] search_hits(index.packages@, q)[i].0@
                    == k,
{
    let t = index.packages@;
    let h = search_hits(t, q);
    let ps = hit_positions(t, q);
    lemma_hit_positions(t, q);
    assert forall|i: int, j: int| 0 <= i < j < h.len() implies crate::table::seq_lt(#[trigger] h[i].0@, #[trigger] h[j].0@) by {
        assert(ps[i] < ps[j]);
    }
    assert forall|i: int| 0 <= i < h.len() implies {
        let e = #[trigger] h[i];
        &&& index.entries().contains_key(e.0@)
        &&& index.entries()[e.0@] == e.1
        &&& entry_matches(e.0@, e.1, q)
    } by {
        let j = ps[i];
        assert(h[i] == t[j]);
        lemma_view_at(t, j);
        assert(ps.contains(j));
    }
    assert forall|k: Seq<char>| #[trigger] index.entries().contains_key(k) && entry_matches(k, index.entries()[k], q)
        implies exists|i: int| 0 <= i < h.len() && #[trigger] h[i].0@ == k by {
        assert(has_key(t, k));
        let j = choose|j: int| 0 <= j < t.len() && #[trigger] t[j].0@ == k;
        lemma_view_at(t, j);
        assert(ps.contains(j));
        let i = choose|i: int| 0 <= i < ps.len() && ps[i] == j;
        assert(h[i] == t[j]);
    }
}

/// Reseeding only adds what the user lacks: when the user's index already
/// has every built-in package, nothing is appended.
pub proof fn law_reseed_nothing_new(builtin: Seq<(String, PackageEntry)>, user: Map<Seq<char>, PackageEntry>)
    requires
        forall|i: int| 0 <= i < builtin.len() ==> user.contains_key(#[trigger] builtin[i].0@),
    ensures
        reseed_text(builtin, user).len() == 0,
        reseed_count(builtin, user) == 0,
    decreases builtin.len(),
{
    if builtin.len() > 0 {
        let p = builtin.drop_last();
        assert forall|i: int| 0 <= i < p.len() implies user.contains_key(#[trigger] p[i].0@) by {
            assert(p[i] == builtin[i]);
        }
        law_reseed_nothing_new(p, user);
        assert(user.contains_key(builtin[builtin.len() - 1].0@));
    }
}

/// The built-in entries whose names the user index lacks, in order.
pub open spec fn missing_entries(builtin: Seq<(String, PackageEntry)>, user: Map<Seq<char>, PackageEntry>) -> Seq<
    (String, PackageEntry),
>
    decreases builtin.len(),
{
    if builtin.len() == 0 {
        Seq::empty()
    } else {
        let rest = missing_entries(builtin.drop_last(), user);
        if user.contains_key(builtin.last().0@) {
            rest
        } else {
            rest.push(builtin.last())
        }
    }
}

/// The TOML blocks of a list of entries, one after the other.
pub open spec fn blocks_of(entries: Seq<(String, PackageEntry)>) -> Seq<char>
    decreases entries.len(),
{
    if entries.len() == 0 {
        Seq::empty()
    } else {
        blocks_of(entries.drop_last()) + entry_block(entries.last().0@, entries.last().1)
    }
}

/// Reseeding appends exactly one block per built-in package that the user
/// index lacks, in name order, and counts those packages: each appended
/// entry is a built-in one missing from the user index, every built-in
/// package missing from it is appended, and no name is appended twice.
pub proof fn law_reseed_appends_missing(builtin: PackagesIndex, user: PackagesIndex)
    requires
        builtin.wf(),
        user.wf(),
    ensures
        ({
            let m = missing_entries(builtin.packages@, user.entries());
            &&& reseed_text(builtin.packages@, user.entries()) == blocks_of(m)
            &&& reseed_count(builtin.packages@, user.entries()) == m.len()
            &&& forall|k: int| 0 <= k < m.len() ==> !user.entries().contains_key(#[trigger] m[k].0@)
                && builtin.packages@.contains(m[k])
            &&& forall|i: int| 0 <= i < builtin.packages@.len() && !user.entries().contains_key(
                #[trigger] builtin.packages@[i].0@,
            ) ==> m.contains(builtin.packages@[i])
            &&& sorted_keys(m)
        }),
{
    lemma_missing(builtin.packages@, user.entries());
}

proof fn lemma_missing(b: Seq<(String, PackageEntry)>, u: Map<Seq<char>, PackageEntry>)
    requires
        sorted_keys(b),
    ensures
        reseed_text(b, u) == blocks_of(missing_entries(b, u)),
        reseed_count(b, u) == missing_entries(b, u).len(),
        forall|k: int| 0 <= k < missing_entries(b, u).len() ==> !u.contains_key(
            #[trigger] missing_entries(b, u)[k].0@,
        ) && b.contains(missing_entries(b, u)[k]),
        forall|i: int| 0 <= i < b.len() && !u.contains_key(#[trigger] b[i].0@) ==> missing_entries(b, u).contains(
            b[i],
        ),
        sorted_keys(missing_entries(b, u)),
    decreases b.len(),
{
    if b.len() > 0 {
        let p = b.drop_last();
        assert(sorted_keys(p)) by {
            assert forall|i: int, j: int| 0 <= i < j < p.len() implies seq_lt(#[trigger] p[i].0@, #[trigger] p[j].0@) by {
                assert(p[i] == b[i] && p[j] == b[j]);
            }
        }
        lemma_missing(p, u);
        let mp = missing_entries(p, u);
        if !u.contains_key(b.last().0@) {
            assert(missing_entries(b, u).drop_last() =~= mp);
            assert(missing_entries(b, u).last() == b.last());
        }
        let m = missing_entries(b, u);
        let last = b.last();
        assert(last == b[b.len() - 1]);
        assert forall|k: int| 0 <= k < m.len() implies !u.contains_key(#[trigger] m[k].0@) && b.contains(m[k]) by {
            if k < mp.len() {
                assert(m[k] == mp[k]);
                assert(0 <= k < missing_entries(p, u).len());
                assert(!u.contains_key(missing_entries(p, u)[k].0@));
                assert(p.contains(missing_entries(p, u)[k]));
                let i = choose|i: int| 0 <= i < p.len() && p[i] == mp[k];
                assert(b[i] == mp[k]);
            } else {
                assert(m[k] == last);
            }
        }
        assert forall|i: int| 0 <= i < b.len() && !u.contains_key(#[trigger] b[i].0@) implies m.contains(b[i]) by {
            if i < p.len() {
                assert(p[i] == b[i]);
                assert(mp.contains(b[i]));
                let k = choose|k: int| 0 <= k < mp.len() && mp[k] == b[i];
                assert(m[k] == b[i]);
            } else {
                assert(m[mp.len() as int] == b[i]);
            }
        }
        if !u.contains_key(last.0@) {
            assert forall|i: int, j: int| 0 <= i < j < m.len() implies seq_lt(#[trigger] m[i].0@, #[trigger] m[j].0@) by {
                if j < mp.len() {
                    assert(m[i] == mp[i] && m[j] == mp[j]);
                } else {
                    assert(m[i] == mp[i]);
                    assert(!u.contains_key(mp[i].0@) && p.contains(mp[i]));
                    let q = choose|q: int| 0 <= q < p.len() && p[q] == mp[i];
                    assert(b[q] == mp[i]);
                    assert(m[j] == b[b.len() - 1]);
                }
            }
        }
    }
}

} // verus!
