//! Verified text utilities: character access, comparison, searching, trimming
//! and splitting, each specified over the `Seq<char>` view of strings.

use vstd::prelude::*;
use vstd::string::StrSliceExecFns;
use vstd::string::StringExecFns;

verus! {

/// Character-for-character equality of two string slices.
pub fn str_eq(a: &str, b: &str) -> (r: bool)
    ensures
        r == (a@ == b@),
{
    let na: usize = a.unicode_len();
    let nb: usize = b.unicode_len();
    if na != nb {
        return false;
    }
    let mut i: usize = 0;
    while i < na
        invariant
            na == a@.len(),
            na == b@.len(),
            i <= na,
            forall|j: int| 0 <= j < i ==> a@[j] == b@[j],
        decreases na - i,
    {
        if a.get_char(i) != b.get_char(i) {
            return false;
        }
        i += 1;
    }
    proof {
        assert(a@ =~= b@);
    }
    true
}

/// Copy of the characters `from..to` of `s` as an owned string.
pub fn substr_string(s: &str, from: usize, to: usize) -> (r: String)
    requires
        from <= to <= s@.len(),
    ensures
        r@ == s@.subrange(from as int, to as int),
{
    String::from_str(s.substring_char(from, to))
}

/// The whitespace characters recognized by the trimming and splitting
/// functions of this module (the ASCII whitespace set).
pub open spec fn is_space_char(c: char) -> bool {
    c == ' ' || c == '\t' || c == '\n' || c == '\r' || c == '\u{b}' || c == '\u{c}'
}

/// Executable test for `is_space_char`.
pub fn is_space(c: char) -> (r: bool)
    ensures
        r == is_space_char(c),
{
    c == ' ' || c == '\t' || c == '\n' || c == '\r' || c == '\u{b}' || c == '\u{c}'
}

/// Index of the first occurrence of `c` in `s`, if any.
pub fn find_char(s: &str, c: char) -> (r: Option<usize>)
    ensures
        match r {
            Some(i) => i < s@.len() && s@[i as int] == c && (forall|j: int|
                0 <= j < i ==> s@[j] != c),
            None => forall|j: int| 0 <= j < s@.len() ==> s@[j] != c,
        },
{
    let n: usize = s.unicode_len();
    let mut i: usize = 0;
    while i < n
        invariant
            n == s@.len(),
            i <= n,
            forall|j: int| 0 <= j < i ==> s@[j] != c,
        decreases n - i,
    {
        if s.get_char(i) == c {
            return Some(i);
        }
        i += 1;
    }
    None
}

/// The characters of `p` occur in `s` starting at position `i`.
pub open spec fn matches_at(s: Seq<char>, p: Seq<char>, i: int) -> bool {
    0 <= i && i + p.len() <= s.len() && s.subrange(i, i + p.len() as int) == p
}

/// `p` occurs somewhere in `s`.
pub open spec fn contains_seq(s: Seq<char>, p: Seq<char>) -> bool {
    exists|i: int| matches_at(s, p, i)
}

/// Whether the characters of `p` stand in `s` at position `i`.
pub fn match_at(s: &str, p: &str, i: usize) -> (r: bool)
    requires
        i + p@.len() <= s@.len(),
    ensures
        r == matches_at(s@, p@, i as int),
{
    let n: usize = s.unicode_len();
    let m: usize = p.unicode_len();
    let mut j: usize = 0;
    while j < m
        invariant
            n == s@.len(),
            m == p@.len(),
            i + m <= n,
            j <= m,
            forall|k: int| 0 <= k < j ==> s@[i + k] == p@[k],
        decreases m - j,
    {
        if s.get_char(i + j) != p.get_char(j) {
            proof {
                assert(s@.subrange(i as int, i + p@.len() as int)[j as int] != p@[j as int]);
            }
            return false;
        }
        j += 1;
    }
    proof {
        assert(s@.subrange(i as int, i + p@.len() as int) =~= p@);
    }
    true
}

/// Whether `p` occurs anywhere in `s`.
pub fn contains_str(s: &str, p: &str) -> (r: bool)
    ensures
        r == contains_seq(s@, p@),
{
    let n: usize = s.unicode_len();
    let m: usize = p.unicode_len();
    if m > n {
        proof {
            assert(forall|i: int| !matches_at(s@, p@, i));
        }
        return false;
    }
    if m == 0 {
        proof {
            assert(s@.subrange(0, 0) =~= p@);
            assert(matches_at(s@, p@, 0));
        }
        return true;
    }
    let mut i: usize = 0;
    while i <= n - m
        invariant
            n == s@.len(),
            m == p@.len(),
            0 < m <= n,
            i <= n - m + 1,
            forall|k: int| 0 <= k < i ==> !matches_at(s@, p@, k),
        decreases n - i,
    {
        if match_at(s, p, i) {
            return true;
        }
        i += 1;
    }
    proof {
        assert(forall|k: int| matches_at(s@, p@, k) ==> 0 <= k <= n - m);
    }
    false
}

/// `s` begins with the characters of `p`.
pub open spec fn starts_with_seq(s: Seq<char>, p: Seq<char>) -> bool {
    p.len() <= s.len() && s.subrange(0, p.len() as int) == p
}

/// Whether `s` begins with `p`.
pub fn starts_with_str(s: &str, p: &str) -> (r: bool)
    ensures
        r == starts_with_seq(s@, p@),
{
    let n: usize = s.unicode_len();
    let m: usize = p.unicode_len();
    if m > n {
        return false;
    }
    match_at(s, p, 0)
}

/// First index `>= i` whose character is not whitespace, or the length of `s`.
pub open spec fn skip_spaces(s: Seq<char>, i: int) -> int
    recommends
        0 <= i <= s.len(),
    decreases s.len() - i when 0 <= i <= s.len()
{
    if i >= s.len() {
        s.len() as int
    } else if is_space_char(s[i]) {
        skip_spaces(s, i + 1)
    } else {
        i
    }
}

/// Last position `<= j` such that every character from there to `j` is
/// whitespace, scanning backwards; used as the exclusive end of a trim.
pub open spec fn rskip_spaces(s: Seq<char>, j: int) -> int
    recommends
        0 <= j <= s.len(),
    decreases j when 0 <= j <= s.len()
{
    if j <= 0 {
        0
    } else if is_space_char(s[j - 1]) {
        rskip_spaces(s, j - 1)
    } else {
        j
    }
}

/// `s` with leading and trailing whitespace removed. Trimming here and
/// throughout the crate recognizes the ASCII whitespace set of
/// `is_space_char`, a deliberately narrower choice than Unicode's.
pub open spec fn spec_trim(s: Seq<char>) -> Seq<char> {
    if skip_spaces(s, 0) >= rskip_spaces(s, s.len() as int) {
        Seq::empty()
    } else {
        s.subrange(skip_spaces(s, 0), rskip_spaces(s, s.len() as int))
    }
}

proof fn lemma_rskip_spaces_bounds(s: Seq<char>, j: int)
    requires
        0 <= j <= s.len(),
    ensures
        0 <= rskip_spaces(s, j) <= j,
        rskip_spaces(s, j) > 0 ==> !is_space_char(s[rskip_spaces(s, j) - 1]),
    decreases j,
{
    if j > 0 && is_space_char(s[j - 1]) {
        lemma_rskip_spaces_bounds(s, j - 1);
    }
}

/// Copy of `s` with leading and trailing whitespace removed.
pub fn trim_str(s: &str) -> (r: String)
    ensures
        r@ == spec_trim(s@),
{
    let n: usize = s.unicode_len();
    let mut lo: usize = 0;
    while lo < n && is_space(s.get_char(lo))
        invariant
            n == s@.len(),
            lo <= n,
            skip_spaces(s@, 0) == skip_spaces(s@, lo as int),
        decreases n - lo,
    {
        lo += 1;
    }
    proof {
        assert(skip_spaces(s@, lo as int) == lo);
    }
    if lo == n {
        proof {
            lemma_rskip_spaces_bounds(s@, n as int);
        }
        return String::new();
    }
    let mut hi: usize = n;
    while hi > lo && is_space(s.get_char(hi - 1))
        invariant
            n == s@.len(),
            lo < hi <= n,
            lo < n,
            !is_space_char(s@[lo as int]),
            rskip_spaces(s@, n as int) == rskip_spaces(s@, hi as int),
        decreases hi,
    {
        hi -= 1;
    }
    proof {
        assert(rskip_spaces(s@, hi as int) == hi);
    }
    substr_string(s, lo, hi)
}

/// First index `>= i` holding the character `c`, or the length of `s`.
pub open spec fn find_idx(s: Seq<char>, c: char, i: int) -> int
    recommends
        0 <= i <= s.len(),
    decreases s.len() - i when 0 <= i <= s.len()
{
    if i >= s.len() {
        s.len() as int
    } else if s[i] == c {
        i
    } else {
        find_idx(s, c, i + 1)
    }
}

pub proof fn lemma_find_idx_bounds(s: Seq<char>, c: char, i: int)
    requires
        0 <= i <= s.len(),
    ensures
        i <= find_idx(s, c, i) <= s.len(),
        find_idx(s, c, i) < s.len() ==> s[find_idx(s, c, i)] == c,
        forall|k: int| i <= k < find_idx(s, c, i) ==> s[k] != c,
    decreases s.len() - i,
{
    if i < s.len() && s[i] != c {
        lemma_find_idx_bounds(s, c, i + 1);
    }
}

/// Where `c` does not occur in `i..j` and `j` is the length of `s` or holds
/// `c`, the next occurrence of `c` from `i` is exactly `j`.
pub proof fn lemma_find_idx_at(s: Seq<char>, c: char, i: int, j: int)
    requires
        0 <= i <= j <= s.len(),
        forall|k: int| i <= k < j ==> s[k] != c,
        j == s.len() || s[j] == c,
    ensures
        find_idx(s, c, i) == j,
    decreases j - i,
{
    if i < j {
        lemma_find_idx_at(s, c, i + 1, j);
    }
}

/// First index `>= i` where `p` occurs in `s`, or `-1` where it does not.
pub open spec fn sub_find(s: Seq<char>, p: Seq<char>, i: int) -> int
    recommends
        0 <= i,
    decreases s.len() + 1 - i when 0 <= i
{
    if i + p.len() > s.len() {
        -1
    } else if matches_at(s, p, i) {
        i
    } else {
        sub_find(s, p, i + 1)
    }
}

pub proof fn lemma_sub_find_props(s: Seq<char>, p: Seq<char>, i: int)
    requires
        0 <= i,
    ensures
        sub_find(s, p, i) == -1 || sub_find(s, p, i) >= i,
        sub_find(s, p, i) == -1 ==> forall|k: int| i <= k ==> !matches_at(s, p, k),
        sub_find(s, p, i) >= 0 ==> i <= sub_find(s, p, i) && matches_at(s, p, sub_find(s, p, i))
            && (forall|k: int| i <= k < sub_find(s, p, i) ==> !matches_at(s, p, k)),
    decreases s.len() + 1 - i,
{
    if i + p.len() > s.len() {
        assert(forall|k: int| i <= k ==> !matches_at(s, p, k));
    } else if !matches_at(s, p, i) {
        lemma_sub_find_props(s, p, i + 1);
    }
}

/// Index of the first occurrence of `p` in `s`, if any.
pub fn find_sub(s: &str, p: &str) -> (r: Option<usize>)
    ensures
        match r {
            Some(i) => i == sub_find(s@, p@, 0),
            None => sub_find(s@, p@, 0) == -1,
        },
{
    let n: usize = s.unicode_len();
    let m: usize = p.unicode_len();
    if m > n {
        proof {
            lemma_sub_find_props(s@, p@, 0);
            if sub_find(s@, p@, 0) >= 0 {
                assert(matches_at(s@, p@, sub_find(s@, p@, 0)));
            }
        }
        return None;
    }
    if m == 0 {
        proof {
            assert(s@.subrange(0, 0) =~= p@);
            assert(matches_at(s@, p@, 0));
        }
        return Some(0);
    }
    let mut i: usize = 0;
    while i <= n - m
        invariant
            n == s@.len(),
            m == p@.len(),
            0 < m <= n,
            i <= n - m + 1,
            forall|k: int| 0 <= k < i ==> !matches_at(s@, p@, k),
        decreases n - i,
    {
        if match_at(s, p, i) {
            proof {
                lemma_sub_find_at(s@, p@, 0, i as int);
            }
            return Some(i);
        }
        i += 1;
    }
    proof {
        assert(forall|k: int| matches_at(s@, p@, k) ==> 0 <= k <= n - m);
        lemma_sub_find_props(s@, p@, 0);
        if sub_find(s@, p@, 0) >= 0 {
            assert(matches_at(s@, p@, sub_find(s@, p@, 0)));
        }
    }
    None
}

/// Where `p` matches at `j` and nowhere earlier than `j`, the first
/// occurrence of `p` from `i` is exactly `j`.
proof fn lemma_sub_find_at(s: Seq<char>, p: Seq<char>, i: int, j: int)
    requires
        0 <= i <= j,
        matches_at(s, p, j),
        forall|k: int| i <= k < j ==> !matches_at(s, p, k),
    ensures
        sub_find(s, p, i) == j,
    decreases j - i,
{
    if i < j {
        lemma_sub_find_at(s, p, i + 1, j);
    }
}

/// Last index `< j` holding the character `c`, or `-1` where there is none.
pub open spec fn rfind_idx(s: Seq<char>, c: char, j: int) -> int
    recommends
        0 <= j <= s.len(),
    decreases j when 0 <= j <= s.len()
{
    if j <= 0 {
        -1
    } else if s[j - 1] == c {
        j - 1
    } else {
        rfind_idx(s, c, j - 1)
    }
}

pub proof fn lemma_rfind_idx_props(s: Seq<char>, c: char, j: int)
    requires
        0 <= j <= s.len(),
    ensures
        rfind_idx(s, c, j) == -1 ==> forall|k: int| 0 <= k < j ==> s[k] != c,
        rfind_idx(s, c, j) >= 0 ==> rfind_idx(s, c, j) < j && s[rfind_idx(s, c, j)] == c
            && (forall|k: int| rfind_idx(s, c, j) < k < j ==> s[k] != c),
    decreases j,
{
    if j > 0 && s[j - 1] != c {
        lemma_rfind_idx_props(s, c, j - 1);
    }
}

/// Index of the last occurrence of `c` before position `j` in `s`, if any.
pub fn rfind_char_before(s: &str, c: char, j: usize) -> (r: Option<usize>)
    requires
        j <= s@.len(),
    ensures
        match r {
            Some(i) => i == rfind_idx(s@, c, j as int),
            None => rfind_idx(s@, c, j as int) == -1,
        },
{
    let mut k: usize = j;
    while k > 0
        invariant
            j <= s@.len(),
            k <= j,
            rfind_idx(s@, c, j as int) == rfind_idx(s@, c, k as int),
        decreases k,
    {
        if s.get_char(k - 1) == c {
            return Some(k - 1);
        }
        k -= 1;
    }
    None
}

/// A line with one trailing carriage return removed.
pub open spec fn strip_cr(l: Seq<char>) -> Seq<char> {
    if l.len() > 0 && l[l.len() - 1] == '\r' {
        l.subrange(0, l.len() - 1)
    } else {
        l
    }
}

/// The lines of `s` from position `i` on: split at each newline, with a
/// carriage return directly before a newline dropped; a final segment
/// without a newline is kept as it stands, and a final newline opens no
/// further empty line.
pub open spec fn lines_from(s: Seq<char>, i: int) -> Seq<Seq<char>>
    recommends
        0 <= i <= s.len(),
    decreases s.len() - i when 0 <= i <= s.len()
        via lines_from_decreases
{
    if i >= s.len() {
        Seq::empty()
    } else {
        let j = find_idx(s, '\n', i);
        if j >= s.len() {
            seq![s.subrange(i, s.len() as int)]
        } else {
            seq![strip_cr(s.subrange(i, j))] + lines_from(s, j + 1)
        }
    }
}

#[via_fn]
proof fn lines_from_decreases(s: Seq<char>, i: int) {
    lemma_find_idx_bounds(s, '\n', i);
}

/// The lines of `s`, as `str::lines` splits them.
pub open spec fn spec_lines(s: Seq<char>) -> Seq<Seq<char>> {
    lines_from(s, 0)
}

/// Split `s` into its lines.
pub fn split_lines(s: &str) -> (r: Vec<String>)
    ensures
        r.deep_view() == spec_lines(s@),
{
    let n: usize = s.unicode_len();
    let mut r: Vec<String> = Vec::new();
    let mut start: usize = 0;
    let mut i: usize = 0;
    while i < n
        invariant
            n == s@.len(),
            start <= i <= n,
            forall|k: int| start <= k < i ==> s@[k] != '\n',
            spec_lines(s@) == r.deep_view() + lines_from(s@, start as int),
        decreases n - i,
    {
        if s.get_char(i) == '\n' {
            proof {
                lemma_find_idx_at(s@, '\n', start as int, i as int);
            }
            let ghost old_dv = r.deep_view();
            let line: String = if i > start && s.get_char(i - 1) == '\r' {
                substr_string(s, start, i - 1)
            } else {
                substr_string(s, start, i)
            };
            proof {
                assert(line@ =~= strip_cr(s@.subrange(start as int, i as int)));
            }
            r.push(line);
            proof {
                assert(r.deep_view() =~= old_dv.push(line@));
                assert(r.deep_view() + lines_from(s@, i + 1) =~= old_dv + (seq![line@]
                    + lines_from(s@, i + 1)));
            }
            start = i + 1;
        }
        i += 1;
    }
    if start < n {
        proof {
            lemma_find_idx_at(s@, '\n', start as int, n as int);
        }
        let ghost old_dv = r.deep_view();
        let line: String = substr_string(s, start, n);
        r.push(line);
        proof {
            assert(r.deep_view() =~= old_dv.push(line@));
            assert(lines_from(s@, start as int) =~= seq![line@]);
            assert(old_dv + lines_from(s@, start as int) =~= r.deep_view());
        }
    } else {
        proof {
            assert(r.deep_view() + lines_from(s@, start as int) =~= r.deep_view());
        }
    }
    r
}

/// First index `>= i` holding a whitespace character, or the length of `s`:
/// the exclusive end of the whitespace-delimited token starting at `i`.
pub open spec fn token_end(s: Seq<char>, i: int) -> int
    recommends
        0 <= i <= s.len(),
    decreases s.len() - i when 0 <= i <= s.len()
{
    if i >= s.len() {
        s.len() as int
    } else if is_space_char(s[i]) {
        i
    } else {
        token_end(s, i + 1)
    }
}

proof fn lemma_token_end_bounds(s: Seq<char>, i: int)
    requires
        0 <= i <= s.len(),
    ensures
        i <= token_end(s, i) <= s.len(),
    decreases s.len() - i,
{
    if i < s.len() && !is_space_char(s[i]) {
        lemma_token_end_bounds(s, i + 1);
    }
}

/// The whitespace-delimited tokens of `s` from position `i` on.
pub open spec fn tokens_from(s: Seq<char>, i: int) -> Seq<Seq<char>>
    recommends
        0 <= i <= s.len(),
    decreases s.len() - i when 0 <= i <= s.len()
        via tokens_from_decreases
{
    if i >= s.len() {
        Seq::empty()
    } else if is_space_char(s[i]) {
        tokens_from(s, i + 1)
    } else {
        seq![s.subrange(i, token_end(s, i))] + tokens_from(s, token_end(s, i))
    }
}

#[via_fn]
proof fn tokens_from_decreases(s: Seq<char>, i: int) {
    lemma_token_end_bounds(s, i);
    if 0 <= i < s.len() && !is_space_char(s[i]) {
        lemma_token_end_bounds(s, i + 1);
        assert(token_end(s, i) == token_end(s, i + 1));
    }
}

/// The whitespace-delimited tokens of `s`, split as `str::split_whitespace`
/// splits but over the ASCII whitespace set of `is_space_char`.
pub open spec fn spec_tokens(s: Seq<char>) -> Seq<Seq<char>> {
    tokens_from(s, 0)
}

/// Split `s` into its whitespace-delimited tokens.
pub fn split_tokens(s: &str) -> (r: Vec<String>)
    ensures
        r.deep_view() == spec_tokens(s@),
{
    let n: usize = s.unicode_len();
    let mut r: Vec<String> = Vec::new();
    let mut i: usize = 0;
    while i < n
        invariant
            n == s@.len(),
            i <= n,
            spec_tokens(s@) == r.deep_view() + tokens_from(s@, i as int),
        decreases n - i,
    {
        if is_space(s.get_char(i)) {
            i += 1;
        } else {
            let tok_start: usize = i;
            let mut j: usize = i + 1;
            while j < n && !is_space(s.get_char(j))
                invariant
                    n == s@.len(),
                    tok_start < j <= n,
                    token_end(s@, tok_start as int) == token_end(s@, j as int),
                decreases n - j,
            {
                j += 1;
            }
            proof {
                assert(token_end(s@, j as int) == j);
            }
            let ghost old_dv = r.deep_view();
            let tok: String = substr_string(s, tok_start, j);
            r.push(tok);
            proof {
                assert(r.deep_view() =~= old_dv.push(tok@));
                assert(r.deep_view() + tokens_from(s@, j as int) =~= old_dv + (seq![tok@]
                    + tokens_from(s@, j as int)));
            }
            i = j;
        }
    }
    proof {
        assert(r.deep_view() + tokens_from(s@, i as int) =~= r.deep_view());
    }
    r
}

} // verus!


