//! Git tags as versions: reading the tag list that `git ls-remote --tags`
//! prints, turning tag names into semantic versions, and picking the tag of
//! the highest version that meets a constraint.

use vstd::prelude::*;

use crate::flags::{dedup, dedup_ordered};
use crate::table::{lemma_lt_irreflexive, lemma_lt_transitive, seq_lt, str_lt};
use crate::text::{
    all_ascii_digits, all_digits, chars_of, concat, ends_with, find_char, first_index_of, has_prefix,
    has_suffix, is_digit, skip_chars, starts_with, string_of, take_chars, views,
};
use crate::versions::{
    spec_req_matches, spec_version_order, spec_version_parse, triple_order, Requirement, SemVer,
    VersionView,
};

verus! {

// ───────────────────────────── tag names as versions ─────────────────────────────

/// Number of `.` characters.
pub open spec fn dot_count(s: Seq<char>) -> nat
    decreases s.len(),
{
    if s.len() == 0 {
        0
    } else {
        dot_count(s.drop_last()) + if s.last() == '.' { 1nat } else { 0nat }
    }
}

/// Complete a one- or two-part version to three parts.
pub open spec fn pad_version(s: Seq<char>) -> Seq<char> {
    if dot_count(s) == 0 {
        s + ".0.0"@
    } else if dot_count(s) == 1 {
        s + ".0"@
    } else {
        s
    }
}

/// The tag prefixes that are stripped, tried in this order.
pub open spec fn tag_prefixes() -> Seq<Seq<char>> {
    seq!["v"@, "release-"@, "lib-"@, "lib-v"@, "version-"@, "ver-"@]
}

/// The version after the first prefix of `ps` that is followed by a digit.
pub open spec fn prefixed_version(tag: Seq<char>, ps: Seq<Seq<char>>) -> Option<Seq<char>>
    decreases ps.len(),
{
    if ps.len() == 0 {
        None
    } else if has_prefix(tag, ps[0]) && tag.len() > ps[0].len() && is_digit(tag[ps[0].len() as int]) {
        Some(pad_version(tag.skip(ps[0].len() as int)))
    } else {
        prefixed_version(tag, ps.drop_first())
    }
}

/// An unprefixed tag: one or two all-digit parts are completed to three
/// parts, anything else stands.
pub open spec fn plain_version(tag: Seq<char>) -> Seq<char> {
    let d = first_index_of(tag, '.');
    if dot_count(tag) == 0 && all_digits(tag) {
        tag + ".0.0"@
    } else if dot_count(tag) == 1 && all_digits(tag.take(d)) && all_digits(tag.skip(d + 1)) {
        tag + ".0"@
    } else {
        tag
    }
}

/// The semver part of a tag (`v1.2.3` → `1.2.3`, `release-5.0` → `5.0.0`).
pub open spec fn stripped_tag(tag: Seq<char>) -> Seq<char> {
    match prefixed_version(tag, tag_prefixes()) {
        Some(s) => s,
        None => plain_version(tag),
    }
}

/// Count the `.` characters.
fn count_dots(s: &[char]) -> (r: usize)
    ensures
        r == dot_count(s@),
{
    let mut n: usize = 0;
    let mut i: usize = 0;
    while i < s.len()
        invariant
            i <= s@.len(),
            n == dot_count(s@.take(i as int)),
            n <= i,
        decreases s@.len() - i,
    {
        assert(s@.take(i + 1).drop_last() == s@.take(i as int));
        if s[i] == '.' {
            n = n + 1;
        }
        i = i + 1;
    }
    assert(s@.take(s@.len() as int) == s@);
    n
}

/// Complete a version to three parts.
fn pad(s: &[char]) -> (r: String)
    ensures
        r@ == pad_version(s@),
{
    let d = count_dots(s);
    let t = string_of(s);
    if d == 0 {
        concat(t.as_str(), ".0.0")
    } else if d == 1 {
        concat(t.as_str(), ".0")
    } else {
        t
    }
}

/// The prefixes, in the order they are tried.
fn prefix_list() -> (r: Vec<String>)
    ensures
        views(r@) == tag_prefixes(),
{
    let mut r: Vec<String> = Vec::new();
    r.push(String::from_str("v"));
    r.push(String::from_str("release-"));
    r.push(String::from_str("lib-"));
    r.push(String::from_str("lib-v"));
    r.push(String::from_str("version-"));
    r.push(String::from_str("ver-"));
    assert(views(r@) =~= tag_prefixes());
    r
}

/// Strip common prefixes from a git tag to extract the semver portion:
/// `v1.2.3` → `1.2.3`, `release-2.0.0` → `2.0.0`, `lib-v3.0.0` → `3.0.0`;
/// one- and two-part versions such as `5.0` are completed to `5.0.0`.
pub fn strip_tag_prefix(tag: &str) -> (r: String)
    ensures
        r@ == stripped_tag(tag@),
{
    let t = chars_of(tag);
    let ps = prefix_list();
    let ghost pv = views(ps@);
    let mut k: usize = 0;
    assert(pv.skip(0) == pv);
    while k < ps.len()
        invariant
            k <= ps@.len(),
            t@ == tag@,
            pv == views(ps@),
            pv == tag_prefixes(),
            prefixed_version(t@, pv) == prefixed_version(t@, pv.skip(k as int)),
        decreases ps@.len() - k,
    {
        let ghost rest = pv.skip(k as int);
        assert(rest[0] == ps@[k as int]@);
        assert(rest.drop_first() == pv.skip(k + 1));
        let p = chars_of(ps[k].as_str());
        if starts_with(&t, &p) && t.len() > p.len() && is_digit_char(t[p.len()]) {
            let rest_chars = skip_chars(&t, p.len());
            assert(rest.len() > 0);
            assert(p@ == rest[0]);
            assert(prefixed_version(t@, rest) == Some(pad_version(t@.skip(p@.len() as int))));
            return pad(&rest_chars);
        }
        k = k + 1;
    }
    plain(&t)
}

/// ASCII digit test.
fn is_digit_char(c: char) -> (r: bool)
    ensures
        r == is_digit(c),
{
    '0' <= c && c <= '9'
}

/// The unprefixed case of `strip_tag_prefix`.
fn plain(t: &Vec<char>) -> (r: String)
    ensures
        r@ == plain_version(t@),
{
    let d = count_dots(t);
    let s = string_of(t);
    if d == 0 && all_ascii_digits(t) {
        return concat(s.as_str(), ".0.0");
    }
    if d == 1 {
        match find_char(t, '.') {
            Some(i) => {
                let tl = t.len();
                assert(i < tl);
                let a = take_chars(t, i);
                let b = skip_chars(t, i + 1);
                if all_ascii_digits(&a) && all_ascii_digits(&b) {
                    return concat(s.as_str(), ".0");
                }
            },
            None => {
                proof {
                    lemma_no_dot(t@);
                }
            },
        }
    }
    s
}

/// A sequence without `.` has no dots to count.
proof fn lemma_no_dot(s: Seq<char>)
    requires
        first_index_of(s, '.') == -1,
    ensures
        dot_count(s) == 0,
    decreases s.len(),
{
    if s.len() > 0 {
        lemma_first_index_absent(s);
        lemma_no_dot_prefix(s, s.len() as int);
        assert(s.take(s.len() as int) == s);
    }
}

/// Where `first_index_of` finds nothing, the character is absent.
proof fn lemma_first_index_absent(s: Seq<char>)
    requires
        first_index_of(s, '.') == -1,
    ensures
        forall|i: int| 0 <= i < s.len() ==> s[i] != '.',
    decreases s.len(),
{
    if s.len() > 0 {
        lemma_first_index_absent(s.drop_first());
        assert forall|i: int| 0 <= i < s.len() implies s[i] != '.' by {
            if i > 0 {
                assert(s[i] == s.drop_first()[i - 1]);
            }
        }
    }
}

/// No dot among the first `n` characters: none counted there.
proof fn lemma_no_dot_prefix(s: Seq<char>, n: int)
    requires
        0 <= n <= s.len(),
        forall|i: int| 0 <= i < s.len() ==> s[i] != '.',
    ensures
        dot_count(s.take(n)) == 0,
    decreases n,
{
    if n > 0 {
        assert(s.take(n).drop_last() == s.take(n - 1));
        lemma_no_dot_prefix(s, n - 1);
    }
}

// ───────────────────────────── the tag list of a remote ─────────────────────────────

/// `first_index_of` finds a position inside the sequence, or -1.
pub proof fn lemma_first_index_bounds(s: Seq<char>, c: char)
    ensures
        -1 <= first_index_of(s, c) < s.len(),
        first_index_of(s, c) >= 0 ==> s[first_index_of(s, c)] == c,
    decreases s.len(),
{
    if s.len() > 0 && s[0] != c {
        lemma_first_index_bounds(s.drop_first(), c);
    }
}

/// A line without its trailing carriage return.
pub open spec fn strip_cr(l: Seq<char>) -> Seq<char> {
    if l.len() > 0 && l.last() == '\r' { l.drop_last() } else { l }
}

/// The lines of a text, as `str::lines` splits it: at each `\n` (a `\r`
/// just before it dropped), no empty line after a final `\n`.
pub open spec fn lines_of(s: Seq<char>) -> Seq<Seq<char>>
    decreases s.len(),
{
    if s.len() == 0 {
        Seq::empty()
    } else {
        let i = first_index_of(s, '\n');
        proof {
            lemma_first_index_bounds(s, '\n');
        }
        if i < 0 {
            seq![s]
        } else {
            seq![strip_cr(s.take(i))] + lines_of(s.skip(i + 1))
        }
    }
}

/// The second tab-separated field of a line.
pub open spec fn second_field(line: Seq<char>) -> Option<Seq<char>> {
    let i = first_index_of(line, '\t');
    if i < 0 {
        None
    } else {
        let rest = line.skip(i + 1);
        let j = first_index_of(rest, '\t');
        Some(if j < 0 { rest } else { rest.take(j) })
    }
}

/// The tag a line of `git ls-remote --tags` names (`<sha>\trefs/tags/<tag>`),
/// none for peeled entries (`<tag>^{}`).
pub open spec fn line_tag(line: Seq<char>) -> Option<Seq<char>> {
    match second_field(line) {
        None => None,
        Some(f) => {
            let t = if has_prefix(f, "refs/tags/"@) { f.skip("refs/tags/"@.len() as int) } else { f };
            if has_suffix(t, "^{}"@) { None } else { Some(t) }
        },
    }
}

/// The tags named by a list of lines, in order.
pub open spec fn line_tags(lines: Seq<Seq<char>>) -> Seq<Seq<char>>
    decreases lines.len(),
{
    if lines.len() == 0 {
        Seq::empty()
    } else {
        (match line_tag(lines[0]) {
            Some(t) => seq![t],
            None => Seq::empty(),
        }) + line_tags(lines.drop_first())
    }
}

/// The tags listed by `git ls-remote --tags`, each once, in order of first
/// appearance.
pub open spec fn ls_remote_tags(out: Seq<char>) -> Seq<Seq<char>> {
    dedup(line_tags(lines_of(out)))
}

/// The tag of one line (see `line_tag`).
fn tag_of_line(line: &Vec<char>) -> (r: Option<String>)
    ensures
        match r {
            Some(t) => line_tag(line@) == Some(t@),
            None => line_tag(line@) is None,
        },
{
    let i = match find_char(line, '\t') {
        Some(i) => i,
        None => {
            return None;
        },
    };
    let ll = line.len();
    assert(i < ll);
    let rest = skip_chars(line, i + 1);
    let field = match find_char(&rest, '\t') {
        Some(j) => {
            let rl = rest.len();
            assert(j < rl);
            take_chars(&rest, j)
        },
        None => rest,
    };
    assert(second_field(line@) == Some(field@));
    let refs = chars_of("refs/tags/");
    let t = if starts_with(&field, &refs) {
        skip_chars(&field, refs.len())
    } else {
        field
    };
    let peeled = chars_of("^{}");
    if ends_with(&t, &peeled) {
        None
    } else {
        Some(string_of(&t))
    }
}

/// The tags listed in the output of `git ls-remote --tags <repo>`, each
/// once, in order of first appearance.
pub fn parse_ls_remote(out: &str) -> (r: Vec<String>)
    ensures
        views(r@) == ls_remote_tags(out@),
{
    let mut rest = chars_of(out);
    let mut tags: Vec<String> = Vec::new();
    assert(views(tags@) + line_tags(lines_of(rest@)) =~= line_tags(lines_of(out@)));
    while rest.len() > 0
        invariant
            views(tags@) + line_tags(lines_of(rest@)) == line_tags(lines_of(out@)),
        decreases rest@.len(),
    {
        let ghost r0 = rest@;
        proof {
            lemma_first_index_bounds(r0, '\n');
        }
        let (line, next) = match find_char(&rest, '\n') {
            Some(i) => {
                let l = take_chars(&rest, i);
                let l = if l.len() > 0 && l[l.len() - 1] == '\r' {
                    take_chars(&l, l.len() - 1)
                } else {
                    l
                };
                (l, skip_chars(&rest, i + 1))
            },
            None => (rest.clone(), Vec::new()),
        };
        assert(lines_of(r0) == seq![line@] + lines_of(next@)) by {
            if first_index_of(r0, '\n') < 0 {
                assert(next@.len() == 0);
                assert(lines_of(next@) =~= Seq::<Seq<char>>::empty());
                assert(seq![line@] + lines_of(next@) =~= seq![line@]);
            }
        }
        let ghost lines = seq![line@] + lines_of(next@);
        assert(lines.drop_first() =~= lines_of(next@));
        assert(lines[0] == line@);
        let ghost before = tags@;
        match tag_of_line(&line) {
            Some(t) => {
                tags.push(t);
                assert(views(tags@) =~= views(before) + seq![line_tag(line@)->0]);
            },
            None => {},
        }
        proof {
            assert(line_tags(lines) == (match line_tag(line@) {
                Some(t) => seq![t],
                None => Seq::<Seq<char>>::empty(),
            }) + line_tags(lines_of(next@)));
            if line_tag(line@) is None {
                assert(views(tags@) + line_tags(lines_of(next@)) =~= views(before) + line_tags(lines));
            } else {
                assert(views(tags@) + line_tags(lines_of(next@)) =~= views(before) + line_tags(lines));
            }
        }
        rest = next;
    }
    assert(lines_of(rest@) =~= Seq::<Seq<char>>::empty());
    assert(views(tags@) =~= line_tags(lines_of(out@)));
    dedup_ordered(tags)
}

// ───────────────────────────── choosing a tag ─────────────────────────────

/// The view of an optional requirement.
pub open spec fn opt_req(c: Option<Requirement>) -> Option<Seq<char>> {
    match c {
        Some(q) => Some(q@),
        None => None,
    }
}

/// The tags whose stripped name parses as a version that the constraint
/// (if any) matches, with that version, in tag order.
pub open spec fn tag_candidates(tags: Seq<Seq<char>>, c: Option<Seq<char>>) -> Seq<(VersionView, Seq<char>)>
    decreases tags.len(),
{
    if tags.len() == 0 {
        Seq::empty()
    } else {
        let rest = tag_candidates(tags.drop_last(), c);
        let t = tags.last();
        match spec_version_parse(stripped_tag(t)) {
            Some(v) => if (match c {
                None => true,
                Some(q) => spec_req_matches(q, v),
            }) {
                rest.push((v, t))
            } else {
                rest
            },
            None => rest,
        }
    }
}

/// `a` comes before `b` when the candidates are sorted by version, highest
/// first, and then by tag name.
pub open spec fn precedes(a: (VersionView, Seq<char>), b: (VersionView, Seq<char>)) -> bool {
    spec_version_order(a.0, b.0) > 0 || (spec_version_order(a.0, b.0) == 0 && seq_lt(a.1, b.1))
}

/// The first candidate in that order (of a non-empty list).
pub open spec fn first_candidate(cs: Seq<(VersionView, Seq<char>)>) -> (VersionView, Seq<char>)
    decreases cs.len(),
{
    if cs.len() <= 1 {
        cs[0]
    } else {
        let b = first_candidate(cs.drop_last());
        if precedes(cs.last(), b) { cs.last() } else { b }
    }
}

/// The tag to fetch: that of the highest matching version, else `main`.
pub open spec fn chosen_tag(tags: Seq<Seq<char>>, c: Option<Seq<char>>) -> Seq<char> {
    let cs = tag_candidates(tags, c);
    if cs.len() == 0 { "main"@ } else { first_candidate(cs).1 }
}

/// Whether the constraint, if any, matches `v`.
fn allowed(c: &Option<Requirement>, v: &SemVer) -> (r: bool)
    ensures
        r == (match opt_req(*c) {
            None => true,
            Some(q) => spec_req_matches(q, v@),
        }),
{
    match c {
        None => true,
        Some(q) => q.matches(v),
    }
}

/// The tag of the highest version among `tags` that meets the constraint
/// (ties broken by tag name), or `main` when none does.
pub fn resolve_best_version(tags: &Vec<String>, constraint: &Option<Requirement>) -> (r: String)
    ensures
        r@ == chosen_tag(views(tags@), opt_req(*constraint)),
        ({
            let cs = tag_candidates(views(tags@), opt_req(*constraint));
            forall|i: int| 0 <= i < cs.len() ==> triple_order(#[trigger] cs[i].0, first_candidate(cs).0) <= 0
        }),
        ({
            let cs = tag_candidates(views(tags@), opt_req(*constraint));
            forall|i: int|
                0 <= i < cs.len() && cs[i] != first_candidate(cs) ==> !precedes(#[trigger] cs[i], first_candidate(cs))
        }),
{
    let ghost tv = views(tags@);
    let ghost c = opt_req(*constraint);
    let mut best: Option<(SemVer, usize)> = None;
    let mut i: usize = 0;
    while i < tags.len()
        invariant
            i <= tags@.len(),
            tv == views(tags@),
            c == opt_req(*constraint),
            ({
                let cs = tag_candidates(tv.take(i as int), c);
                match best {
                    None => cs.len() == 0,
                    Some((b, k)) => cs.len() > 0 && k < tags@.len() && (b@, tv[k as int]) == first_candidate(cs)
                        && (forall|j: int| 0 <= j < cs.len() ==> triple_order(#[trigger] cs[j].0, b@) <= 0)
                        && (forall|j: int|
                        0 <= j < cs.len() && cs[j] != (b@, tv[k as int]) ==> !precedes(
                            #[trigger] cs[j],
                            (b@, tv[k as int]),
                        )),
                }
            }),
        decreases tags@.len() - i,
    {
        let ghost before = tag_candidates(tv.take(i as int), c);
        let ghost t = tv.take(i + 1);
        assert(t.drop_last() == tv.take(i as int));
        assert(t.last() == tv[i as int]);
        assert(tv[i as int] == tags@[i as int]@);
        let stripped = strip_tag_prefix(tags[i].as_str());
        if let Some(v) = SemVer::parse(stripped.as_str()) {
            if allowed(constraint, &v) {
                let ghost cs = before.push((v@, tv[i as int]));
                assert(cs.drop_last() == before);
                match best {
                    None => {
                        best = Some((v, i));
                    },
                    Some((b, k)) => {
                        let o = v.order(&b);
                        let earlier = o == 0 && str_lt(tags[i].as_str(), tags[k].as_str());
                        if o > 0 || earlier {
                            assert(precedes(cs.last(), first_candidate(before)));
                            assert forall|j: int| 0 <= j < cs.len() implies triple_order(#[trigger] cs[j].0, v@)
                                <= 0 by {
                                if j < before.len() {
                                    assert(triple_order(before[j].0, b@) <= 0);
                                }
                            }
                            proof {
                                lemma_candidates_valid(tv.take(i as int), c);
                                let bk = (b@, tv[k as int]);
                                let vi = (v@, tv[i as int]);
                                assert forall|j: int| 0 <= j < cs.len() && cs[j] != vi implies !precedes(
                                    #[trigger] cs[j],
                                    vi,
                                ) by {
                                    if j < before.len() {
                                        let z = before[j];
                                        assert(spec_version_parse(stripped_tag(z.1)) == Some(z.0));
                                        if z == bk {
                                            if o == 0 {
                                                if seq_lt(z.1, vi.1) {
                                                    lemma_lt_transitive(z.1, vi.1, z.1);
                                                    lemma_lt_irreflexive(z.1);
                                                }
                                            }
                                        } else {
                                            assert(!precedes(z, bk));
                                            if o == 0 {
                                                if spec_version_order(z.0, v@) == 0 && seq_lt(z.1, vi.1) {
                                                    lemma_lt_transitive(z.1, vi.1, bk.1);
                                                }
                                            }
                                        }
                                    }
                                }
                            }
                            best = Some((v, i));
                        } else {
                            assert(!precedes(cs.last(), first_candidate(before)));
                            best = Some((b, k));
                        }
                    },
                }
            }
        }
        i = i + 1;
    }
    assert(tv.take(tags@.len() as int) == tv);
    match best {
        None => String::from_str("main"),
        Some((_, k)) => tags[k].clone(),
    }
}

/// The tag chosen for a constraint is `main` when no tag's version matches;
/// otherwise it is one of the tags, and its version parses and satisfies the
/// constraint.
pub proof fn law_chosen_tag(tags: Seq<Seq<char>>, c: Option<Seq<char>>)
    ensures
        tag_candidates(tags, c).len() == 0 ==> chosen_tag(tags, c) == "main"@,
        tag_candidates(tags, c).len() > 0 ==> {
            let t = chosen_tag(tags, c);
            &&& tags.contains(t)
            &&& spec_version_parse(stripped_tag(t)) matches Some(v) && match c {
                None => true,
                Some(q) => spec_req_matches(q, v),
            }
        },
{
    let cs = tag_candidates(tags, c);
    if cs.len() > 0 {
        lemma_candidates_valid(tags, c);
        let k = lemma_first_candidate_member(cs);
        assert(cs[k] == first_candidate(cs));
    }
}

/// Every candidate is a tag, with its parsed version, which the constraint
/// matches.
proof fn lemma_candidates_valid(tags: Seq<Seq<char>>, c: Option<Seq<char>>)
    ensures
        forall|i: int|
            0 <= i < tag_candidates(tags, c).len() ==> {
                let p = #[trigger] tag_candidates(tags, c)[i];
                &&& tags.contains(p.1)
                &&& spec_version_parse(stripped_tag(p.1)) == Some(p.0)
                &&& match c {
                    None => true,
                    Some(q) => spec_req_matches(q, p.0),
                }
            },
    decreases tags.len(),
{
    if tags.len() > 0 {
        let prev = tags.drop_last();
        lemma_candidates_valid(prev, c);
        assert forall|i: int| 0 <= i < tag_candidates(tags, c).len() implies {
            let p = #[trigger] tag_candidates(tags, c)[i];
            &&& tags.contains(p.1)
            &&& spec_version_parse(stripped_tag(p.1)) == Some(p.0)
            &&& match c {
                None => true,
                Some(q) => spec_req_matches(q, p.0),
            }
        } by {
            let rest = tag_candidates(prev, c);
            if i < rest.len() {
                assert(tag_candidates(tags, c)[i] == rest[i]);
                let j = choose|j: int| 0 <= j < prev.len() && prev[j] == rest[i].1;
                assert(tags[j] == prev[j]);
            } else {
                assert(tags[tags.len() - 1] == tags.last());
            }
        }
    }
}

/// The first candidate is one of the candidates.
proof fn lemma_first_candidate_member(cs: Seq<(VersionView, Seq<char>)>) -> (k: int)
    requires
        cs.len() > 0,
    ensures
        0 <= k < cs.len(),
        cs[k] == first_candidate(cs),
    decreases cs.len(),
{
    if cs.len() <= 1 {
        0
    } else {
        let j = lemma_first_candidate_member(cs.drop_last());
        if precedes(cs.last(), first_candidate(cs.drop_last())) {
            cs.len() - 1
        } else {
            j
        }
    }
}

} // verus!
