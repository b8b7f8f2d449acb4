//! Character-sequence vocabulary shared by the whole library: prefixes,
//! suffixes, substrings, replacement, whitespace trimming, decimal rendering
//! and the `/`-separated path model.

use vstd::prelude::*;

verus! {

// ───────────────────────────── specifications ─────────────────────────────

/// `p` is a prefix of `s`.
pub open spec fn has_prefix(s: Seq<char>, p: Seq<char>) -> bool {
    p.len() <= s.len() && s.subrange(0, p.len() as int) == p
}

/// `p` is a suffix of `s`.
pub open spec fn has_suffix(s: Seq<char>, p: Seq<char>) -> bool {
    p.len() <= s.len() && s.subrange(s.len() - p.len(), s.len() as int) == p
}

/// `p` occurs in `s` at position `i`.
pub open spec fn occurs_at(s: Seq<char>, p: Seq<char>, i: int) -> bool {
    0 <= i && i + p.len() <= s.len() && s.subrange(i, i + p.len()) == p
}

/// `p` occurs somewhere in `s` (the empty sequence occurs everywhere).
pub open spec fn has_substring(s: Seq<char>, p: Seq<char>) -> bool {
    exists|i: int| occurs_at(s, p, i)
}

/// `c` occurs in `s`.
pub open spec fn has_char(s: Seq<char>, c: char) -> bool {
    exists|i: int| 0 <= i < s.len() && s[i] == c
}

/// Replace every non-overlapping occurrence of `from`, scanning left to right,
/// by `to` (the behaviour of `str::replace` for a non-empty pattern).
pub open spec fn replace_all(s: Seq<char>, from: Seq<char>, to: Seq<char>) -> Seq<char>
    recommends
        from.len() > 0,
    decreases s.len(),
{
    if from.len() == 0 || s.len() < from.len() {
        s
    } else if has_prefix(s, from) {
        to + replace_all(s.skip(from.len() as int), from, to)
    } else {
        seq![s[0]] + replace_all(s.drop_first(), from, to)
    }
}

/// The decimal digit for a value below ten.
pub open spec fn digit_char(d: nat) -> char {
    if d == 0 { '0' }
    else if d == 1 { '1' }
    else if d == 2 { '2' }
    else if d == 3 { '3' }
    else if d == 4 { '4' }
    else if d == 5 { '5' }
    else if d == 6 { '6' }
    else if d == 7 { '7' }
    else if d == 8 { '8' }
    else { '9' }
}

/// The decimal rendering of a natural number, without leading zeros.
pub open spec fn decimal(n: nat) -> Seq<char>
    decreases n,
{
    if n < 10 {
        seq![digit_char(n)]
    } else {
        decimal(n / 10).push(digit_char(n % 10))
    }
}

/// An ASCII decimal digit.
pub open spec fn is_digit(c: char) -> bool {
    '0' <= c && c <= '9'
}

/// An ASCII letter or digit.
pub open spec fn is_ascii_alnum(c: char) -> bool {
    is_digit(c) || ('a' <= c && c <= 'z') || ('A' <= c && c <= 'Z')
}

/// Every character of `s` is an ASCII digit.
pub open spec fn all_digits(s: Seq<char>) -> bool {
    forall|i: int| 0 <= i < s.len() ==> is_digit(#[trigger] s[i])
}

/// The Unicode `White_Space` property, which `char::is_whitespace` tests.
pub open spec fn is_white(c: char) -> bool {
    c == '\t' || c == '\n' || c == '\u{0b}' || c == '\u{0c}' || c == '\r' || c == ' '
        || c == '\u{85}' || c == '\u{a0}' || c == '\u{1680}'
        || ('\u{2000}' <= c && c <= '\u{200a}')
        || c == '\u{2028}' || c == '\u{2029}' || c == '\u{202f}' || c == '\u{205f}'
        || c == '\u{3000}'
}

/// Drop leading whitespace.
pub open spec fn trim_start(s: Seq<char>) -> Seq<char>
    decreases s.len(),
{
    if s.len() > 0 && is_white(s[0]) {
        trim_start(s.drop_first())
    } else {
        s
    }
}

/// Drop trailing whitespace.
pub open spec fn trim_end(s: Seq<char>) -> Seq<char>
    decreases s.len(),
{
    if s.len() > 0 && is_white(s.last()) {
        trim_end(s.drop_last())
    } else {
        s
    }
}

/// Drop leading and trailing whitespace (`str::trim`).
pub open spec fn trim(s: Seq<char>) -> Seq<char> {
    trim_end(trim_start(s))
}

/// Index of the last occurrence of `c` in `s`, or -1.
pub open spec fn last_index_of(s: Seq<char>, c: char) -> int
    decreases s.len(),
{
    if s.len() == 0 {
        -1
    } else if s.last() == c {
        s.len() - 1
    } else {
        last_index_of(s.drop_last(), c)
    }
}

/// Index of the first occurrence of `c` in `s`, or -1.
pub open spec fn first_index_of(s: Seq<char>, c: char) -> int
    decreases s.len(),
{
    if s.len() == 0 {
        -1
    } else if s[0] == c {
        0
    } else {
        let r = first_index_of(s.drop_first(), c);
        if r < 0 { -1 } else { r + 1 }
    }
}

/// The library's path model: paths are `/`-separated character sequences.
/// Joining an absolute path replaces the base; joining onto an empty base
/// yields the joined part; otherwise a separator is inserted unless the base
/// already ends with one (the behaviour of `PathBuf::push` on Unix).
pub open spec fn path_join(base: Seq<char>, part: Seq<char>) -> Seq<char> {
    if part.len() > 0 && part[0] == '/' {
        part
    } else if base.len() == 0 || base.last() == '/' {
        base + part
    } else {
        base + seq!['/'] + part
    }
}

/// The texts between the separators of a path, in order (`a//b/` gives
/// `a`, ``, `b`, ``).
pub open spec fn path_pieces(p: Seq<char>) -> Seq<Seq<char>>
    decreases p.len(),
{
    if p.len() == 0 {
        seq![Seq::empty()]
    } else {
        let r = path_pieces(p.drop_last());
        if p.last() == '/' {
            r.push(Seq::empty())
        } else {
            r.update(r.len() - 1, r.last().push(p.last()))
        }
    }
}

/// The pieces that are components: not empty, and not `.` except as the
/// first piece.
pub open spec fn kept_pieces(s: Seq<Seq<char>>) -> Seq<Seq<char>>
    decreases s.len(),
{
    if s.len() == 0 {
        Seq::empty()
    } else {
        let r = kept_pieces(s.drop_last());
        let x = s.last();
        if x.len() == 0 || (x == seq!['.'] && s.len() > 1) {
            r
        } else {
            r.push(x)
        }
    }
}

/// What identifies a path, as its components are read: whether it starts
/// at the root, and its named components (`a/./b/` and `a/b` are one path).
pub open spec fn path_key(p: Seq<char>) -> (bool, Seq<Seq<char>>) {
    (p.len() > 0 && p[0] == '/', kept_pieces(path_pieces(p)))
}

/// Two texts name the same path (see `path_key`).
pub open spec fn same_path(a: Seq<char>, b: Seq<char>) -> bool {
    path_key(a) == path_key(b)
}

/// Some entry of `paths` names the same path as `p`.
pub open spec fn has_path(paths: Seq<Seq<char>>, p: Seq<char>) -> bool {
    exists|i: int| 0 <= i < paths.len() && #[trigger] path_key(paths[i]) == path_key(p)
}

/// No two entries name the same path.
pub open spec fn distinct_paths(s: Seq<Seq<char>>) -> bool {
    forall|i: int, j: int| 0 <= i < j < s.len() ==> path_key(#[trigger] s[i]) != path_key(#[trigger] s[j])
}

/// Views of a list of character lists.
pub open spec fn char_views(v: Seq<Vec<char>>) -> Seq<Seq<char>> {
    v.map_values(|x: Vec<char>| x@)
}

/// The pieces of a path (see `path_pieces`).
fn pieces_of(p: &[char]) -> (r: Vec<Vec<char>>)
    ensures
        char_views(r@) == path_pieces(p@),
{
    let mut done: Vec<Vec<char>> = Vec::new();
    let mut cur: Vec<char> = Vec::new();
    let mut i: usize = 0;
    assert(p@.take(0) =~= Seq::<char>::empty());
    assert(char_views(done@).push(cur@) =~= path_pieces(p@.take(0)));
    while i < p.len()
        invariant
            i <= p@.len(),
            char_views(done@).push(cur@) == path_pieces(p@.take(i as int)),
        decreases p@.len() - i,
    {
        let ghost t = p@.take(i + 1);
        assert(t.drop_last() == p@.take(i as int));
        assert(t.last() == p@[i as int]);
        let ghost before = char_views(done@).push(cur@);
        if p[i] == '/' {
            let c = cur;
            done.push(c);
            cur = Vec::new();
            assert(char_views(done@).push(cur@) =~= before.push(Seq::empty()));
        } else {
            cur.push(p[i]);
            assert(char_views(done@).push(cur@) =~= before.update(before.len() - 1, before.last().push(p@[i as int])));
        }
        i = i + 1;
    }
    assert(p@.take(p@.len() as int) == p@);
    let ghost all = char_views(done@).push(cur@);
    done.push(cur);
    assert(char_views(done@) =~= all);
    done
}

/// The components of a path (see `kept_pieces`).
fn components_of(p: &[char]) -> (r: Vec<Vec<char>>)
    ensures
        char_views(r@) == kept_pieces(path_pieces(p@)),
{
    let pieces = pieces_of(p);
    let ghost s = char_views(pieces@);
    let mut r: Vec<Vec<char>> = Vec::new();
    let mut i: usize = 0;
    assert(s.take(0) =~= Seq::<Seq<char>>::empty());
    while i < pieces.len()
        invariant
            i <= pieces@.len(),
            s == char_views(pieces@),
            char_views(r@) == kept_pieces(s.take(i as int)),
        decreases pieces@.len() - i,
    {
        let ghost t = s.take(i + 1);
        assert(t.drop_last() == s.take(i as int));
        assert(t.last() == pieces@[i as int]@);
        let x = &pieces[i];
        let dot = x.len() == 1 && x[0] == '.';
        proof {
            if x@.len() == 1 {
                assert(dot == (x@ =~= seq!['.']));
            } else {
                assert(x@ != seq!['.']);
            }
        }
        if !(x.len() == 0 || (dot && i > 0)) {
            let ghost before = char_views(r@);
            r.push(x.clone());
            assert(char_views(r@) =~= before.push(x@));
        }
        i = i + 1;
    }
    assert(s.take(s.len() as int) == s);
    r
}

/// Whether two texts name the same path (see `same_path`).
pub fn same_path_str(a: &str, b: &str) -> (r: bool)
    ensures
        r == same_path(a@, b@),
{
    let x = chars_of(a);
    let y = chars_of(b);
    let rx = x.len() > 0 && x[0] == '/';
    let ry = y.len() > 0 && y[0] == '/';
    if rx != ry {
        assert(path_key(a@).0 != path_key(b@).0);
        return false;
    }
    let cx = components_of(&x);
    let cy = components_of(&y);
    if cx.len() != cy.len() {
        assert(char_views(cx@).len() != char_views(cy@).len());
        assert(path_key(a@).1 != path_key(b@).1);
        return false;
    }
    let mut i: usize = 0;
    while i < cx.len()
        invariant
            i <= cx@.len(),
            cx@.len() == cy@.len(),
            char_views(cx@) == path_key(a@).1,
            char_views(cy@) == path_key(b@).1,
            forall|k: int| 0 <= k < i ==> cx@[k]@ == cy@[k]@,
        decreases cx@.len() - i,
    {
        if !seq_eq(cx[i].as_slice(), cy[i].as_slice()) {
            assert(char_views(cx@)[i as int] != char_views(cy@)[i as int]);
            assert(path_key(a@).1 != path_key(b@).1);
            return false;
        }
        i = i + 1;
    }
    assert(char_views(cx@) =~= char_views(cy@));
    assert(path_key(a@).1 == path_key(b@).1);
    assert(path_key(a@).0 == path_key(b@).0);
    true
}

/// Whether some entry of `paths` names the same path as `p` (see `has_path`).
pub fn path_listed(paths: &Vec<String>, p: &str) -> (r: bool)
    ensures
        r == has_path(views(paths@), p@),
{
    let mut j: usize = 0;
    while j < paths.len()
        invariant
            j <= paths@.len(),
            forall|k: int| 0 <= k < j ==> path_key(#[trigger] paths@[k]@) != path_key(p@),
        decreases paths@.len() - j,
    {
        if same_path_str(paths[j].as_str(), p) {
            assert(path_key(views(paths@)[j as int]) == path_key(p@));
            return true;
        }
        j = j + 1;
    }
    assert(!has_path(views(paths@), p@)) by {
        if has_path(views(paths@), p@) {
            let k = choose|k: int| 0 <= k < views(paths@).len() && #[trigger] path_key(views(paths@)[k]) == path_key(p@);
            assert(path_key(paths@[k]@) == path_key(p@));
        }
    }
    false
}

/// Drop trailing separators (but keep a lone root).
pub open spec fn strip_trailing_slashes(p: Seq<char>) -> Seq<char>
    decreases p.len(),
{
    if p.len() > 1 && p.last() == '/' {
        strip_trailing_slashes(p.drop_last())
    } else {
        p
    }
}

/// Drop what ends a path without naming anything: trailing separators and
/// trailing `.` components, as path components are read (a lone root or a
/// lone `.` is kept).
pub open spec fn strip_tail(p: Seq<char>) -> Seq<char>
    decreases p.len(),
{
    if p.len() > 1 && p.last() == '/' {
        strip_tail(p.drop_last())
    } else if p.len() > 1 && p.last() == '.' && p[p.len() - 2] == '/' {
        strip_tail(p.drop_last())
    } else {
        p
    }
}

/// The text after the last separator, if it names a file or directory.
pub open spec fn last_name(q: Seq<char>) -> Option<Seq<char>> {
    let name = q.skip(last_index_of(q, '/') + 1);
    if name.len() == 0 || name == seq!['.'] || name == seq!['.', '.'] {
        None
    } else {
        Some(name)
    }
}

/// The final component of a path, if it names a file or directory.
pub open spec fn file_name(p: Seq<char>) -> Option<Seq<char>> {
    last_name(strip_tail(p))
}

/// The extension of a path: the text after the last dot of the file name,
/// when that dot is not the name's first character.
pub open spec fn extension(p: Seq<char>) -> Option<Seq<char>> {
    match file_name(p) {
        None => None,
        Some(name) => {
            let d = last_index_of(name, '.');
            if d <= 0 {
                None
            } else {
                Some(name.skip(d + 1))
            }
        },
    }
}

/// Join a list of parts with a separator.
pub open spec fn join_with(parts: Seq<Seq<char>>, sep: Seq<char>) -> Seq<char>
    decreases parts.len(),
{
    if parts.len() == 0 {
        Seq::empty()
    } else if parts.len() == 1 {
        parts[0]
    } else {
        join_with(parts.drop_last(), sep) + sep + parts.last()
    }
}

/// Name for the result of `str::to_lowercase` (full Unicode lowercasing).
pub uninterp spec fn spec_lowercase(s: Seq<char>) -> Seq<char>;

/// The views of a list of strings.
pub open spec fn views(v: Seq<String>) -> Seq<Seq<char>> {
    v.map_values(|s: String| s@)
}

// ───────────────────────────── trusted std calls ─────────────────────────────

/// Appends one character to a string (`String::push`).
#[verifier::external_body]
pub(crate) fn push_char(s: &mut String, c: char)
    ensures
        final(s)@ == old(s)@.push(c),
{
    s.push(c)
}

/// Full Unicode lowercasing (`str::to_lowercase`); its result is named
/// `spec_lowercase` and nothing more is claimed of it.
#[verifier::external_body]
pub(crate) fn to_lowercase(s: &str) -> (r: String)
    ensures
        r@ == spec_lowercase(s@),
{
    s.to_lowercase()
}

// ───────────────────────────── executable helpers ─────────────────────────────

/// The characters of a string slice, in order.
pub fn chars_of(s: &str) -> (v: Vec<char>)
    ensures
        v@ == s@,
{
    let n = s.unicode_len();
    let mut v: Vec<char> = Vec::new();
    let mut i: usize = 0;
    while i < n
        invariant
            n == s@.len(),
            i <= n,
            v@ == s@.subrange(0, i as int),
        decreases n - i,
    {
        let c = s.get_char(i);
        v.push(c);
        i = i + 1;
    }
    v
}

/// Builds a string from a sequence of characters.
pub fn string_of(v: &[char]) -> (s: String)
    ensures
        s@ == v@,
{
    let mut s = String::new();
    let mut i: usize = 0;
    while i < v.len()
        invariant
            i <= v@.len(),
            s@ == v@.subrange(0, i as int),
        decreases v@.len() - i,
    {
        push_char(&mut s, v[i]);
        i = i + 1;
    }
    s
}

/// A copy of a string slice.
pub fn owned(s: &str) -> (r: String)
    ensures
        r@ == s@,
{
    String::from_str(s)
}

/// Concatenation of two string slices.
pub fn concat(a: &str, b: &str) -> (r: String)
    ensures
        r@ == a@ + b@,
{
    let mut r = String::from_str(a);
    r.append(b);
    r
}

/// Concatenation of three string slices.
pub fn concat3(a: &str, b: &str, c: &str) -> (r: String)
    ensures
        r@ == a@ + b@ + c@,
{
    let mut r = String::from_str(a);
    r.append(b);
    r.append(c);
    r
}

/// Character-wise equality of two string slices.
pub fn str_eq(a: &str, b: &str) -> (r: bool)
    ensures
        r == (a@ == b@),
{
    let x = chars_of(a);
    let y = chars_of(b);
    seq_eq(&x, &y)
}

/// Equality of two character sequences.
pub fn seq_eq(x: &[char], y: &[char]) -> (r: bool)
    ensures
        r == (x@ == y@),
{
    if x.len() != y.len() {
        return false;
    }
    let mut i: usize = 0;
    while i < x.len()
        invariant
            x@.len() == y@.len(),
            i <= x@.len(),
            x@.subrange(0, i as int) == y@.subrange(0, i as int),
        decreases x@.len() - i,
    {
        if x[i] != y[i] {
            assert(x@[i as int] != y@[i as int]);
            return false;
        }
        assert(x@.subrange(0, i + 1) == x@.subrange(0, i as int).push(x@[i as int]));
        assert(y@.subrange(0, i + 1) == y@.subrange(0, i as int).push(y@[i as int]));
        i = i + 1;
    }
    assert(x@ == x@.subrange(0, x@.len() as int));
    assert(y@ == y@.subrange(0, y@.len() as int));
    true
}

/// Whether `p` occurs in `s` at position `at`.
pub fn match_at(s: &[char], p: &[char], at: usize) -> (r: bool)
    ensures
        r == occurs_at(s@, p@, at as int),
{
    if at > s.len() || p.len() > s.len() - at {
        return false;
    }
    let n = s.len();
    let mut i: usize = 0;
    while i < p.len()
        invariant
            n == s@.len(),
            at + p@.len() <= s@.len(),
            i <= p@.len(),
            forall|k: int| 0 <= k < i ==> s@[at + k] == p@[k],
        decreases p@.len() - i,
    {
        if s[at + i] != p[i] {
            assert(s@.subrange(at as int, at + p@.len())[i as int] != p@[i as int]);
            return false;
        }
        i = i + 1;
    }
    assert(s@.subrange(at as int, at + p@.len()) =~= p@);
    true
}

/// Prefix test.
pub fn starts_with(s: &[char], p: &[char]) -> (r: bool)
    ensures
        r == has_prefix(s@, p@),
{
    match_at(s, p, 0)
}

/// Suffix test.
pub fn ends_with(s: &[char], p: &[char]) -> (r: bool)
    ensures
        r == has_suffix(s@, p@),
{
    if p.len() > s.len() {
        return false;
    }
    match_at(s, p, s.len() - p.len())
}

/// Substring test.
pub fn contains(s: &[char], p: &[char]) -> (r: bool)
    ensures
        r == has_substring(s@, p@),
{
    if p.len() > s.len() {
        assert forall|i: int| !occurs_at(s@, p@, i) by {}
        return false;
    }
    if p.len() == 0 {
        assert(s@.subrange(0, 0) =~= p@);
        assert(occurs_at(s@, p@, 0));
        return true;
    }
    let mut i: usize = 0;
    while i <= s.len() - p.len()
        invariant
            0 < p@.len() <= s@.len(),
            i <= s@.len() - p@.len() + 1,
            forall|k: int| 0 <= k < i ==> !occurs_at(s@, p@, k),
        decreases s@.len() - p@.len() + 1 - i,
    {
        if match_at(s, p, i) {
            return true;
        }
        i = i + 1;
    }
    assert forall|k: int| !occurs_at(s@, p@, k) by {
        if 0 <= k < i {
        }
    }
    false
}

/// Whether a character occurs in a sequence.
pub fn contains_char(s: &[char], c: char) -> (r: bool)
    ensures
        r == has_char(s@, c),
{
    let mut i: usize = 0;
    while i < s.len()
        invariant
            i <= s@.len(),
            forall|k: int| 0 <= k < i ==> s@[k] != c,
        decreases s@.len() - i,
    {
        if s[i] == c {
            return true;
        }
        i = i + 1;
    }
    false
}

/// Test on string slices: `p` is a prefix of `s`.
pub fn str_starts_with(s: &str, p: &str) -> (r: bool)
    ensures
        r == has_prefix(s@, p@),
{
    let x = chars_of(s);
    let y = chars_of(p);
    starts_with(&x, &y)
}

/// Test on string slices: `p` is a suffix of `s`.
pub fn str_ends_with(s: &str, p: &str) -> (r: bool)
    ensures
        r == has_suffix(s@, p@),
{
    let x = chars_of(s);
    let y = chars_of(p);
    ends_with(&x, &y)
}

/// Test on string slices: `p` occurs in `s`.
pub fn str_contains(s: &str, p: &str) -> (r: bool)
    ensures
        r == has_substring(s@, p@),
{
    let x = chars_of(s);
    let y = chars_of(p);
    contains(&x, &y)
}

/// Index of the last occurrence of `c`, if any.
pub fn rfind_char(s: &[char], c: char) -> (r: Option<usize>)
    ensures
        r is None ==> last_index_of(s@, c) == -1,
        r matches Some(i) ==> last_index_of(s@, c) == i as int && i < s@.len(),
{
    let mut i: usize = s.len();
    assert(s@.subrange(0, s@.len() as int) == s@);
    while i > 0
        invariant
            i <= s@.len(),
            last_index_of(s@, c) == last_index_of(s@.subrange(0, i as int), c),
        decreases i,
    {
        assert(s@.subrange(0, i as int).drop_last() == s@.subrange(0, i - 1));
        if s[i - 1] == c {
            return Some(i - 1);
        }
        i = i - 1;
    }
    None
}

/// Index of the first occurrence of `c`, if any.
pub fn find_char(s: &[char], c: char) -> (r: Option<usize>)
    ensures
        r is None ==> first_index_of(s@, c) == -1,
        r matches Some(i) ==> first_index_of(s@, c) == i as int && i < s@.len(),
{
    let mut i: usize = 0;
    assert(s@.skip(0) == s@);
    while i < s.len()
        invariant
            i <= s@.len(),
            first_index_of(s@, c) == (if first_index_of(s@.skip(i as int), c) < 0 { -1 } else {
                first_index_of(s@.skip(i as int), c) + i
            }),
        decreases s@.len() - i,
    {
        assert(s@.skip(i as int).drop_first() == s@.skip(i + 1));
        if s[i] == c {
            return Some(i);
        }
        i = i + 1;
    }
    None
}

/// Text from position `from` (a char index) to the end.
pub fn skip_chars(s: &[char], from: usize) -> (r: Vec<char>)
    requires
        from <= s@.len(),
    ensures
        r@ == s@.skip(from as int),
{
    let mut r: Vec<char> = Vec::new();
    let mut i: usize = from;
    while i < s.len()
        invariant
            from <= i <= s@.len(),
            r@ == s@.subrange(from as int, i as int),
        decreases s@.len() - i,
    {
        r.push(s[i]);
        i = i + 1;
    }
    r
}

/// Text of the first `n` characters.
pub fn take_chars(s: &[char], n: usize) -> (r: Vec<char>)
    requires
        n <= s@.len(),
    ensures
        r@ == s@.take(n as int),
{
    let mut r: Vec<char> = Vec::new();
    let mut i: usize = 0;
    while i < n
        invariant
            i <= n <= s@.len(),
            r@ == s@.subrange(0, i as int),
        decreases n - i,
    {
        r.push(s[i]);
        i = i + 1;
    }
    r
}

/// Append the characters of `b` to `a`.
pub fn extend_chars(a: &mut Vec<char>, b: &[char])
    ensures
        final(a)@ == old(a)@ + b@,
{
    let mut i: usize = 0;
    while i < b.len()
        invariant
            i <= b@.len(),
            a@ == old(a)@ + b@.subrange(0, i as int),
        decreases b@.len() - i,
    {
        a.push(b[i]);
        i = i + 1;
    }
}

/// Replace every non-overlapping occurrence of a non-empty pattern.
pub fn replace(s: &[char], from: &[char], to: &[char]) -> (r: Vec<char>)
    requires
        from@.len() > 0,
    ensures
        r@ == replace_all(s@, from@, to@),
{
    let mut r: Vec<char> = Vec::new();
    let mut i: usize = 0;
    assert(s@.skip(0) == s@);
    while i < s.len()
        invariant
            from@.len() > 0,
            i <= s@.len(),
            r@ + replace_all(s@.skip(i as int), from@, to@) == replace_all(s@, from@, to@),
        decreases s@.len() - i,
    {
        let ghost rest = s@.skip(i as int);
        proof {
            if rest.len() >= from@.len() {
                assert(rest.subrange(0, from@.len() as int) == s@.subrange(i as int, i + from@.len()));
            }
        }
        if match_at(s, from, i) {
            assert(has_prefix(rest, from@));
            assert(rest.skip(from@.len() as int) == s@.skip(i + from@.len()));
            extend_chars(&mut r, to);
            i = i + from.len();
        } else {
            assert(!has_prefix(rest, from@));
            assert(rest.drop_first() == s@.skip(i + 1));
            proof {
                if rest.len() < from@.len() {
                    assert(replace_all(rest, from@, to@) == rest);
                    assert(replace_all(rest.drop_first(), from@, to@) == rest.drop_first()) by {
                        assert(rest.drop_first().len() < from@.len());
                    }
                }
                assert(seq![rest[0]] + rest.drop_first() == rest);
            }
            r.push(s[i]);
            i = i + 1;
        }
    }
    assert(s@.skip(i as int).len() == 0);
    r
}

/// The index of the first non-whitespace character.
fn trim_start_index(s: &[char]) -> (i: usize)
    ensures
        i <= s@.len(),
        trim_start(s@) == s@.skip(i as int),
{
    let mut i: usize = 0;
    assert(s@.skip(0) == s@);
    while i < s.len() && is_whitespace(s[i])
        invariant
            i <= s@.len(),
            trim_start(s@) == trim_start(s@.skip(i as int)),
        decreases s@.len() - i,
    {
        assert(s@.skip(i as int).drop_first() == s@.skip(i + 1));
        i = i + 1;
    }
    i
}

/// Trim whitespace from both ends.
pub fn trim_chars(s: &[char]) -> (r: Vec<char>)
    ensures
        r@ == trim(s@),
{
    let a = trim_start_index(s);
    let mut b: usize = s.len();
    while b > a && is_whitespace(s[b - 1])
        invariant
            a <= b <= s@.len(),
            trim(s@) == trim_end(s@.subrange(a as int, b as int)),
        decreases b,
    {
        assert(s@.subrange(a as int, b as int).drop_last() == s@.subrange(a as int, b - 1));
        b = b - 1;
    }
    assert(s@.skip(a as int).subrange(0, (s@.len() - a) as int) == s@.subrange(a as int, s@.len() as int));
    let mut r: Vec<char> = Vec::new();
    let mut k: usize = a;
    while k < b
        invariant
            a <= k <= b <= s@.len(),
            r@ == s@.subrange(a as int, k as int),
        decreases b - k,
    {
        r.push(s[k]);
        k = k + 1;
    }
    r
}

/// `char::is_whitespace`: membership in the Unicode `White_Space` set.
pub fn is_whitespace(c: char) -> (r: bool)
    ensures
        r == is_white(c),
{
    c == '\t' || c == '\n' || c == '\u{0b}' || c == '\u{0c}' || c == '\r' || c == ' '
        || c == '\u{85}' || c == '\u{a0}' || c == '\u{1680}'
        || ('\u{2000}' <= c && c <= '\u{200a}')
        || c == '\u{2028}' || c == '\u{2029}' || c == '\u{202f}' || c == '\u{205f}'
        || c == '\u{3000}'
}

/// ASCII digit test.
pub fn is_ascii_digit(c: char) -> (r: bool)
    ensures
        r == is_digit(c),
{
    '0' <= c && c <= '9'
}

/// Whether every character is an ASCII digit.
pub fn all_ascii_digits(s: &[char]) -> (r: bool)
    ensures
        r == all_digits(s@),
{
    let mut i: usize = 0;
    while i < s.len()
        invariant
            i <= s@.len(),
            forall|k: int| 0 <= k < i ==> is_digit(s@[k]),
        decreases s@.len() - i,
    {
        if !is_ascii_digit(s[i]) {
            return false;
        }
        i = i + 1;
    }
    true
}

/// The decimal digit character for `d < 10`.
fn digit(d: u64) -> (c: char)
    requires
        d < 10,
    ensures
        c == digit_char(d as nat),
{
    if d == 0 { '0' }
    else if d == 1 { '1' }
    else if d == 2 { '2' }
    else if d == 3 { '3' }
    else if d == 4 { '4' }
    else if d == 5 { '5' }
    else if d == 6 { '6' }
    else if d == 7 { '7' }
    else if d == 8 { '8' }
    else { '9' }
}

/// Decimal rendering of an unsigned integer (as `u64`'s `Display` writes it).
pub fn decimal_chars(n: u64) -> (r: Vec<char>)
    ensures
        r@ == decimal(n as nat),
    decreases n,
{
    if n < 10 {
        let mut r = Vec::new();
        r.push(digit(n));
        r
    } else {
        let mut r = decimal_chars(n / 10);
        r.push(digit(n % 10));
        r
    }
}


/// Equality of a character sequence with a string slice.
pub fn eq_lit(v: &[char], lit: &str) -> (r: bool)
    ensures
        r == (v@ == lit@),
{
    let w = chars_of(lit);
    seq_eq(v, &w)
}

/// A path's characters with trailing separators removed (a lone root kept).
pub fn strip_trailing_slash_chars(p: &[char]) -> (r: Vec<char>)
    ensures
        r@ == strip_trailing_slashes(p@),
{
    let mut end: usize = p.len();
    assert(p@.take(p@.len() as int) == p@);
    while end > 1 && p[end - 1] == '/'
        invariant
            end <= p@.len(),
            strip_trailing_slashes(p@) == strip_trailing_slashes(p@.take(end as int)),
        decreases end,
    {
        assert(p@.take(end as int).drop_last() == p@.take(end - 1));
        end = end - 1;
    }
    take_chars(p, end)
}

/// A path's characters without its trailing separators and `.` components
/// (see `strip_tail`).
pub fn strip_tail_chars(p: &[char]) -> (r: Vec<char>)
    ensures
        r@ == strip_tail(p@),
{
    let mut end: usize = p.len();
    assert(p@.take(p@.len() as int) == p@);
    while end > 1 && (p[end - 1] == '/' || (p[end - 1] == '.' && p[end - 2] == '/'))
        invariant
            end <= p@.len(),
            strip_tail(p@) == strip_tail(p@.take(end as int)),
        decreases end,
    {
        assert(p@.take(end as int).drop_last() == p@.take(end - 1));
        end = end - 1;
    }
    proof {
        let t = p@.take(end as int);
        if end > 1 {
            assert(t.last() == p@[end - 1]);
            assert(t[t.len() - 2] == p@[end - 2]);
        }
    }
    take_chars(p, end)
}

/// The text after the last separator, if it names something (see `last_name`).
pub fn last_name_chars(q: &[char]) -> (r: Option<Vec<char>>)
    ensures
        match r {
            Some(v) => last_name(q@) == Some(v@),
            None => last_name(q@) is None,
        },
{
    let qn = q.len();
    let start: usize = match rfind_char(q, '/') {
        Some(i) => {
            assert(i < qn);
            i + 1
        },
        None => 0,
    };
    let name = skip_chars(q, start);
    proof {
        reveal_strlit(".");
        reveal_strlit("..");
        assert("."@ =~= seq!['.']);
        assert(".."@ =~= seq!['.', '.']);
    }
    if name.len() == 0 || eq_lit(&name, ".") || eq_lit(&name, "..") {
        None
    } else {
        Some(name)
    }
}

/// The final component of a path (see `file_name`).
pub fn file_name_chars(p: &[char]) -> (r: Option<Vec<char>>)
    ensures
        match r {
            Some(v) => file_name(p@) == Some(v@),
            None => file_name(p@) is None,
        },
{
    let q = strip_tail_chars(p);
    last_name_chars(&q)
}

/// The extension of a path (see `extension`).
pub fn extension_chars(p: &[char]) -> (r: Option<Vec<char>>)
    ensures
        match r {
            Some(v) => extension(p@) == Some(v@),
            None => extension(p@) is None,
        },
{
    match file_name_chars(p) {
        None => None,
        Some(name) => {
            match rfind_char(&name, '.') {
                None => None,
                Some(d) => {
                    let nn = name.len();
                    assert(d < nn);
                    if d == 0 {
                        None
                    } else {
                        Some(skip_chars(&name, d + 1))
                    }
                },
            }
        },
    }
}

/// The characters of a path joined onto a base.
pub fn join_path(base: &str, part: &str) -> (r: String)
    ensures
        r@ == path_join(base@, part@),
{
    let b = chars_of(base);
    let p = chars_of(part);
    if p.len() > 0 && p[0] == '/' {
        owned(part)
    } else if b.len() == 0 || b[b.len() - 1] == '/' {
        concat(base, part)
    } else {
        let mut v = b;
        v.push('/');
        extend_chars(&mut v, &p);
        string_of(&v)
    }
}

} // verus!
