//! The two line grammars of the log: commit headers and per-file statistics.
use vstd::prelude::*;
use crate::text::{
    lemma_digits_end, lemma_digits_end_ge, lemma_find_char_at, lemma_spaces_end, lemma_word_end,
    all_non_space, chars_of, decimal, decimal_in, digits_end, find_char,
    find_char_from, is_digit, is_space, lacks, no_space, rfind_char, rfind_char_before,
    run_end_digits, run_end_spaces, run_end_word, slice_string, spaces_end, word_end,
};

verus! {

/// A commit header: `"<sha>","<author>","<timestamp>"`.
pub struct Header {
    pub sha: String,
    pub author: String,
    pub timestamp: String,
}

/// One file's line counts within a commit: `<additions> <deletions> <path>`.
pub struct PathStat {
    pub additions: usize,
    pub deletions: usize,
    pub path: String,
}

/// A line that does not match the grammar it was read with.
pub struct ParseFailure {
    pub line: String,
}

/// `","` starts at index `i`.
pub open spec fn is_sep(s: Seq<char>, i: int) -> bool {
    0 <= i && i + 3 <= s.len() && s[i] == '"' && s[i + 1] == ',' && s[i + 2] == '"'
}

/// The quote that closes a timestamp starting at `t`: the last quote before the first line
/// break at or after `t` (or before the end of the line), or -1.
pub open spec fn ts_close(s: Seq<char>, t: int) -> int {
    rfind_char(s, '"', find_char(s, '\n', t))
}

/// An author starting at `b` can end at `j`: it is non-empty and free of whitespace, `","`
/// follows it, and a non-empty timestamp follows that.
pub open spec fn author_ends_at(s: Seq<char>, b: int, j: int) -> bool {
    b < j && is_sep(s, j) && no_space(s, b, j) && ts_close(s, j + 3) >= j + 4
}

/// The largest `j` below `hi` at which an author starting at `b` can end, or -1.
pub open spec fn last_author_end(s: Seq<char>, b: int, hi: int) -> int
    decreases hi,
{
    if hi <= 0 {
        -1
    } else if author_ends_at(s, b, hi - 1) {
        hi - 1
    } else {
        last_author_end(s, b, hi - 1)
    }
}

/// A sha after the quote at `a` can end at `i`: it is non-empty and free of whitespace,
/// `","` follows it, and an author and a timestamp can follow that.
pub open spec fn sha_ends_at(s: Seq<char>, a: int, i: int) -> bool {
    a + 2 <= i && is_sep(s, i) && no_space(s, a + 1, i) && last_author_end(
        s,
        i + 3,
        s.len() as int,
    ) >= 0
}

/// The largest `i` below `hi` at which a sha after the quote at `a` can end, or -1.
pub open spec fn last_sha_end(s: Seq<char>, a: int, hi: int) -> int
    decreases hi,
{
    if hi <= 0 {
        -1
    } else if sha_ends_at(s, a, hi - 1) {
        hi - 1
    } else {
        last_sha_end(s, a, hi - 1)
    }
}

/// The sha, author and timestamp of a header that opens with the quote at index `a`.
///
/// `"<sha>","<author>","<timestamp>"`: sha and author are non-empty runs of non-whitespace,
/// the timestamp is non-empty and holds no line break. Of the ways to split the line so, the
/// longest sha counts, then the longest author, then the longest timestamp; what follows the
/// closing quote is ignored.
pub open spec fn header_at(s: Seq<char>, a: int) -> Option<(Seq<char>, Seq<char>, Seq<char>)> {
    let i = last_sha_end(s, a, s.len() as int);
    let j = last_author_end(s, i + 3, s.len() as int);
    let k = ts_close(s, j + 3);
    if 0 <= a < s.len() && s[a] == '"' && i >= 0 {
        Some((s.subrange(a + 1, i), s.subrange(i + 3, j), s.subrange(j + 3, k)))
    } else {
        None
    }
}

/// The first index at or after `from` where a header opens, or the length.
pub open spec fn first_header_at(s: Seq<char>, from: int) -> int
    decreases s.len() - from,
{
    if from >= s.len() {
        s.len() as int
    } else if header_at(s, from) is Some {
        from
    } else {
        first_header_at(s, from + 1)
    }
}

/// The sha, author and timestamp of a header line, if it is one: the leftmost header in the
/// line counts, so text before its opening quote is ignored.
pub open spec fn header_fields(s: Seq<char>) -> Option<(Seq<char>, Seq<char>, Seq<char>)> {
    header_at(s, first_header_at(s, 0))
}

/// A statistics line's match starts at `a`: a run of digits, whitespace, a run of digits,
/// whitespace, and at least one more character.
pub open spec fn stat_at(s: Seq<char>, a: int) -> bool {
    let b = digits_end(s, a);
    let c = spaces_end(s, b);
    let d = digits_end(s, c);
    let e = spaces_end(s, d);
    0 <= a < s.len() && is_digit(s[a]) && b < s.len() && is_space(s[b]) && c < s.len()
        && is_digit(s[c]) && d < s.len() && is_space(s[d]) && e < s.len()
}

/// The first index at or after `from` where a statistics match starts, or the length.
pub open spec fn first_stat_at(s: Seq<char>, from: int) -> int
    decreases s.len() - from,
{
    if from >= s.len() {
        s.len() as int
    } else if stat_at(s, from) {
        from
    } else {
        first_stat_at(s, from + 1)
    }
}

/// The additions, deletions and path of a statistics line, if it is one.
///
/// The leftmost match in the line counts; its path is the whole run of non-whitespace after
/// the second number, and both numbers must fit in a `usize`.
pub open spec fn stat_fields(s: Seq<char>) -> Option<(nat, nat, Seq<char>)> {
    let a = first_stat_at(s, 0);
    let b = digits_end(s, a);
    let c = spaces_end(s, b);
    let d = digits_end(s, c);
    let e = spaces_end(s, d);
    let f = word_end(s, e);
    let x = decimal(s.subrange(a, b));
    let y = decimal(s.subrange(c, d));
    if a < s.len() && x <= usize::MAX && y <= usize::MAX {
        Some((x, y, s.subrange(e, f)))
    } else {
        None
    }
}

fn failure(line: &str) -> (r: ParseFailure)
    ensures
        r.line@ == line@,
{
    ParseFailure { line: line.to_owned() }
}

fn ts_close_at(cs: &Vec<char>, t: usize) -> (r: Option<usize>)
    requires
        t <= cs@.len(),
    ensures
        match r {
            Some(k) => k == ts_close(cs@, t as int) && k < cs@.len(),
            None => ts_close(cs@, t as int) == -1,
        },
{
    let nl = find_char_from(cs, '\n', t);
    rfind_char_before(cs, '"', nl)
}

fn sep_at(cs: &Vec<char>, i: usize) -> (r: bool)
    ensures
        r == is_sep(cs@, i as int),
{
    cs.len() >= 3 && i <= cs.len() - 3 && cs[i] == '"' && cs[i + 1] == ',' && cs[i + 2] == '"'
}

fn author_ends(cs: &Vec<char>, b: usize, j: usize) -> (r: bool)
    requires
        b <= cs@.len(),
    ensures
        r == author_ends_at(cs@, b as int, j as int),
{
    if b >= j || !sep_at(cs, j) {
        return false;
    }
    let n = cs.len();
    assert(j + 3 <= n);
    if !all_non_space(cs, b, j) {
        return false;
    }
    match ts_close_at(cs, j + 3) {
        Some(k) => k >= j && k - j >= 4,
        None => false,
    }
}

fn find_author_end(cs: &Vec<char>, b: usize) -> (r: Option<usize>)
    requires
        b <= cs@.len(),
    ensures
        match r {
            Some(j) => j as int == last_author_end(cs@, b as int, cs@.len() as int)
                && author_ends_at(cs@, b as int, j as int),
            None => last_author_end(cs@, b as int, cs@.len() as int) == -1,
        },
{
    let mut h = cs.len();
    while h > 0 && !author_ends(cs, b, h - 1)
        invariant
            h <= cs@.len(),
            b <= cs@.len(),
            last_author_end(cs@, b as int, cs@.len() as int) == last_author_end(
                cs@,
                b as int,
                h as int,
            ),
        decreases h,
    {
        h -= 1;
    }
    if h == 0 {
        None
    } else {
        Some(h - 1)
    }
}

fn find_sha_end(cs: &Vec<char>, a: usize) -> (r: Option<usize>)
    requires
        a < cs@.len(),
    ensures
        match r {
            Some(i) => i as int == last_sha_end(cs@, a as int, cs@.len() as int) && sha_ends_at(
                cs@,
                a as int,
                i as int,
            ),
            None => last_sha_end(cs@, a as int, cs@.len() as int) == -1,
        },
{
    let mut h = cs.len();
    while h > 0
        invariant
            h <= cs@.len(),
            a < cs@.len(),
            last_sha_end(cs@, a as int, cs@.len() as int) == last_sha_end(cs@, a as int, h as int),
        decreases h,
    {
        let i = h - 1;
        let n = cs.len();
        if i >= a && i - a >= 2 && sep_at(cs, i) && all_non_space(cs, a + 1, i) {
            if find_author_end(cs, i + 3).is_some() {
                return Some(i);
            }
        }
        h -= 1;
    }
    None
}

/// Where the header that opens at `a` splits: the quotes that close its sha, its author and
/// its timestamp.
fn header_split(cs: &Vec<char>, a: usize) -> (r: Option<(usize, usize, usize)>)
    requires
        a < cs@.len(),
    ensures
        match r {
            Some((i, j, k)) => a < i && i + 3 <= j && j + 3 <= k <= cs@.len() && header_at(cs@, a as int) == Some(
                (
                    cs@.subrange(a + 1, i as int),
                    cs@.subrange(i + 3, j as int),
                    cs@.subrange(j + 3, k as int),
                ),
            ),
            None => header_at(cs@, a as int) is None,
        },
{
    if cs[a] != '"' {
        return None;
    }
    let n = cs.len();
    match find_sha_end(cs, a) {
        None => None,
        Some(i) => match find_author_end(cs, i + 3) {
            None => None,
            Some(j) => match ts_close_at(cs, j + 3) {
                None => None,
                Some(k) => Some((i, j, k)),
            },
        },
    }
}

impl Header {
    /// Reads a header line; see `header_fields` for the grammar.
    pub fn parse(line: &str) -> (r: Result<Header, ParseFailure>)
        ensures
            match r {
                Ok(h) => header_fields(line@) == Some((h.sha@, h.author@, h.timestamp@)),
                Err(e) => header_fields(line@) is None && e.line@ == line@,
            },
    {
        let cs = chars_of(line);
        let n = cs.len();
        let mut a: usize = 0;
        while a < n
            invariant
                n == cs@.len(),
                cs@ == line@,
                a <= n,
                first_header_at(cs@, 0) == first_header_at(cs@, a as int),
            decreases n - a,
        {
            match header_split(&cs, a) {
                Some((i, j, k)) => {
                    return Ok(
                        Header {
                            sha: slice_string(line, a + 1, i),
                            author: slice_string(line, i + 3, j),
                            timestamp: slice_string(line, j + 3, k),
                        },
                    );
                },
                None => {},
            }
            a += 1;
        }
        Err(failure(line))
    }

    /// A copy with the same three fields.
    pub fn duplicate(&self) -> (r: Header)
        ensures
            r.sha@ == self.sha@,
            r.author@ == self.author@,
            r.timestamp@ == self.timestamp@,
    {
        Header {
            sha: self.sha.clone(),
            author: self.author.clone(),
            timestamp: self.timestamp.clone(),
        }
    }
}

fn stat_at_index(s: &Vec<char>, a: usize) -> (r: bool)
    requires
        a < s@.len(),
    ensures
        r == stat_at(s@, a as int),
{
    let n = s.len();
    if !crate::text::is_digit_char(s[a]) {
        return false;
    }
    let b = run_end_digits(s, a);
    if b == n || !crate::text::is_space_char(s[b]) {
        return false;
    }
    let c = run_end_spaces(s, b);
    if c == n || !crate::text::is_digit_char(s[c]) {
        return false;
    }
    let d = run_end_digits(s, c);
    if d == n || !crate::text::is_space_char(s[d]) {
        return false;
    }
    let e = run_end_spaces(s, d);
    e < n
}

impl PathStat {
    /// Reads a statistics line; see `stat_fields` for the grammar. A binary file's line,
    /// which has `-` for both counts, does not match.
    pub fn parse(line: &str) -> (r: Result<PathStat, ParseFailure>)
        ensures
            match r {
                Ok(p) => stat_fields(line@) == Some(
                    (p.additions as nat, p.deletions as nat, p.path@),
                ),
                Err(e) => stat_fields(line@) is None && e.line@ == line@,
            },
    {
        let cs = chars_of(line);
        let n = cs.len();
        let mut a: usize = 0;
        while a < n && !stat_at_index(&cs, a)
            invariant
                n == cs@.len(),
                a <= n,
                first_stat_at(cs@, 0) == first_stat_at(cs@, a as int),
            decreases n - a,
        {
            a += 1;
        }
        if a == n {
            return Err(failure(line));
        }
        let b = run_end_digits(&cs, a);
        let c = run_end_spaces(&cs, b);
        let d = run_end_digits(&cs, c);
        let e = run_end_spaces(&cs, d);
        let f = run_end_word(&cs, e);
        match (decimal_in(&cs, a, b), decimal_in(&cs, c, d)) {
            (Some(x), Some(y)) => Ok(PathStat { additions: x, deletions: y, path: slice_string(line, e, f) }),
            _ => Err(failure(line)),
        }
    }
}

/// The header line written from three fields.
pub open spec fn header_line(sha: Seq<char>, author: Seq<char>, timestamp: Seq<char>) -> Seq<
    char,
> {
    seq!['"'] + sha + seq!['"', ',', '"'] + author + seq!['"', ',', '"'] + timestamp + seq!['"']
}

proof fn lemma_no_author_end(s: Seq<char>, b: int, lo: int, hi: int)
    requires
        0 <= lo <= hi,
        forall|h: int| lo <= h < hi ==> !#[trigger] author_ends_at(s, b, h),
    ensures
        last_author_end(s, b, hi) == last_author_end(s, b, lo),
    decreases hi - lo,
{
    if lo < hi {
        lemma_no_author_end(s, b, lo, hi - 1);
    }
}

proof fn lemma_no_sha_end(s: Seq<char>, a: int, lo: int, hi: int)
    requires
        0 <= lo <= hi,
        forall|h: int| lo <= h < hi ==> !#[trigger] sha_ends_at(s, a, h),
    ensures
        last_sha_end(s, a, hi) == last_sha_end(s, a, lo),
    decreases hi - lo,
{
    if lo < hi {
        lemma_no_sha_end(s, a, lo, hi - 1);
    }
}

/// Reading back a header line written from three fields gives those fields, whenever the
/// three are non-empty and free of quotes, sha and author hold no whitespace, and the
/// timestamp holds no line break.
pub proof fn lemma_header_round_trip(sha: Seq<char>, author: Seq<char>, timestamp: Seq<char>)
    requires
        sha.len() > 0,
        author.len() > 0,
        timestamp.len() > 0,
        no_space(sha, 0, sha.len() as int),
        no_space(author, 0, author.len() as int),
        lacks(sha, '"', 0, sha.len() as int),
        lacks(author, '"', 0, author.len() as int),
        lacks(timestamp, '"', 0, timestamp.len() as int),
        lacks(timestamp, '\n', 0, timestamp.len() as int),
    ensures
        header_fields(header_line(sha, author, timestamp)) == Some((sha, author, timestamp)),
{
    let s = header_line(sha, author, timestamp);
    let i: int = sha.len() as int + 1;
    let j: int = i + 3 + author.len();
    let k: int = j + 3 + timestamp.len();
    let n: int = k + 1;
    assert(s.len() == n);
    assert forall|u: int| 1 <= u < i implies s[u] == sha[u - 1] by {}
    assert forall|u: int| i + 3 <= u < j implies s[u] == author[u - i - 3] by {}
    assert forall|u: int| j + 3 <= u < k implies s[u] == timestamp[u - j - 3] by {}
    assert(s[0] == '"' && s[i] == '"' && s[i + 1] == ',' && s[i + 2] == '"');
    assert(s[j] == '"' && s[j + 1] == ',' && s[j + 2] == '"' && s[k] == '"');
    // where the quotes are
    assert forall|u: int| 0 <= u < n && #[trigger] s[u] == '"' implies u == 0 || u == i || u
        == i + 2 || u == j || u == j + 2 || u == k by {
        if 1 <= u < i {
            assert(sha[u - 1] != '"');
        } else if i + 3 <= u < j {
            assert(author[u - i - 3] != '"');
        } else if j + 3 <= u < k {
            assert(timestamp[u - j - 3] != '"');
        }
    }
    // a timestamp starting anywhere after the second separator closes at the last quote
    assert forall|t: int| j + 3 <= t <= n implies ts_close(s, t) == k by {
        assert(lacks(s, '\n', t, n)) by {
            assert forall|u: int| t <= u < n implies #[trigger] s[u] != '\n' by {
                if u < k {
                    assert(timestamp[u - j - 3] != '\n');
                }
            }
        }
        lemma_find_char_at(s, '\n', t, n);
    }
    assert(no_space(s, 1, i)) by {
        assert forall|u: int| 1 <= u < i implies !is_space(#[trigger] s[u]) by {
            assert(!is_space(sha[u - 1]));
        }
    }
    assert(no_space(s, i + 3, j)) by {
        assert forall|u: int| i + 3 <= u < j implies !is_space(#[trigger] s[u]) by {
            assert(!is_space(author[u - i - 3]));
        }
    }
    // no author, from wherever it starts, ends after `j`
    assert forall|b: int, h: int| j < h < n implies !#[trigger] author_ends_at(s, b, h) by {
        if author_ends_at(s, b, h) {
            assert(s[h] == '"' && s[h + 2] == '"');
            assert(h == j + 2);
            assert(h + 2 == k);
            assert(ts_close(s, h + 3) == k);
        }
    }
    assert(author_ends_at(s, i + 3, j));
    lemma_no_author_end(s, i + 3, j + 1, n);
    assert(last_author_end(s, i + 3, n) == j);
    // no sha ends after `i`
    assert forall|h: int| i < h < n implies !#[trigger] sha_ends_at(s, 0, h) by {
        if sha_ends_at(s, 0, h) {
            assert(s[h] == '"' && s[h + 2] == '"');
            assert(h == i + 2 || h == j || h == j + 2);
            assert forall|x: int| 0 <= x < n implies !#[trigger] author_ends_at(s, h + 3, x) by {
                if author_ends_at(s, h + 3, x) {
                    assert(x > j);
                }
            }
            lemma_no_author_end(s, h + 3, 0, n);
        }
    }
    assert(sha_ends_at(s, 0, i));
    lemma_no_sha_end(s, 0, i + 1, n);
    assert(last_sha_end(s, 0, n) == i);
    assert(header_at(s, 0) is Some);
    assert(first_header_at(s, 0) == 0);
    assert(s.subrange(1, i) =~= sha);
    assert(s.subrange(i + 3, j) =~= author);
    assert(s.subrange(j + 3, k) =~= timestamp);
}

/// Digits, whitespace, digits, whitespace and a path without whitespace read back as the two
/// numbers' decimal values and that path, whenever both values fit in a `usize`.
pub proof fn lemma_stat_line_values(
    adds: Seq<char>,
    gap1: Seq<char>,
    dels: Seq<char>,
    gap2: Seq<char>,
    path: Seq<char>,
)
    requires
        adds.len() > 0,
        dels.len() > 0,
        gap1.len() > 0,
        gap2.len() > 0,
        path.len() > 0,
        forall|u: int| 0 <= u < adds.len() ==> is_digit(#[trigger] adds[u]),
        forall|u: int| 0 <= u < dels.len() ==> is_digit(#[trigger] dels[u]),
        forall|u: int| 0 <= u < gap1.len() ==> is_space(#[trigger] gap1[u]),
        forall|u: int| 0 <= u < gap2.len() ==> is_space(#[trigger] gap2[u]),
        no_space(path, 0, path.len() as int),
        decimal(adds) <= usize::MAX,
        decimal(dels) <= usize::MAX,
    ensures
        stat_fields(adds + gap1 + dels + gap2 + path) == Some(
            (decimal(adds), decimal(dels), path),
        ),
{
    let s = adds + gap1 + dels + gap2 + path;
    let b = adds.len() as int;
    let c: int = b + gap1.len();
    let d: int = c + dels.len();
    let e: int = d + gap2.len();
    let f: int = e + path.len();
    assert(s.len() == f);
    assert forall|u: int| 0 <= u < b implies is_digit(#[trigger] s[u]) by {
        assert(s[u] == adds[u]);
    }
    assert forall|u: int| b <= u < c implies is_space(#[trigger] s[u]) by {
        assert(s[u] == gap1[u - b]);
    }
    assert forall|u: int| c <= u < d implies is_digit(#[trigger] s[u]) by {
        assert(s[u] == dels[u - c]);
    }
    assert forall|u: int| d <= u < e implies is_space(#[trigger] s[u]) by {
        assert(s[u] == gap2[u - d]);
    }
    assert forall|u: int| e <= u < f implies !is_space(#[trigger] s[u]) by {
        assert(s[u] == path[u - e]);
    }
    assert(is_space(s[b]) && !is_digit(s[b]));
    assert(is_digit(s[c]) && !is_space(s[c]));
    assert(is_space(s[d]) && !is_digit(s[d]));
    assert(!is_space(s[e]));
    lemma_digits_end(s, 0, b);
    lemma_spaces_end(s, b, c);
    lemma_digits_end(s, c, d);
    lemma_spaces_end(s, d, e);
    lemma_word_end(s, e, f);
    assert(stat_at(s, 0));
    assert(first_stat_at(s, 0) == 0);
    assert(s.subrange(0, b) =~= adds);
    assert(s.subrange(c, d) =~= dels);
    assert(s.subrange(e, f) =~= path);
}

proof fn lemma_no_stat_from(s: Seq<char>, from: int)
    requires
        0 <= from <= s.len(),
        forall|a: int| from <= a < s.len() ==> !#[trigger] stat_at(s, a),
    ensures
        first_stat_at(s, from) == s.len(),
    decreases s.len() - from,
{
    if from < s.len() {
        lemma_no_stat_from(s, from + 1);
    }
}

/// A binary file's line, `-`, whitespace, `-`, whitespace and a path without whitespace, is
/// not a statistics line.
pub proof fn lemma_binary_line_rejected(gap1: Seq<char>, gap2: Seq<char>, path: Seq<char>)
    requires
        gap1.len() > 0,
        gap2.len() > 0,
        forall|u: int| 0 <= u < gap1.len() ==> is_space(#[trigger] gap1[u]),
        forall|u: int| 0 <= u < gap2.len() ==> is_space(#[trigger] gap2[u]),
        no_space(path, 0, path.len() as int),
    ensures
        stat_fields(seq!['-'] + gap1 + seq!['-'] + gap2 + path) is None,
{
    let s = seq!['-'] + gap1 + seq!['-'] + gap2 + path;
    let e: int = gap1.len() as int + gap2.len() as int + 2;
    assert forall|a: int| 0 <= a < s.len() implies !#[trigger] stat_at(s, a) by {
        if a < e {
            if a == 0 || a == 1 + gap1.len() {
                assert(s[a] == '-');
            } else if a < 1 + gap1.len() {
                assert(s[a] == gap1[a - 1]);
            } else {
                assert(s[a] == gap2[a - 2 - gap1.len()]);
            }
        } else {
            lemma_digits_end_ge(s, a);
            let b = digits_end(s, a);
            if b < s.len() {
                assert(s[b] == path[b - e]);
            }
        }
    }
    lemma_no_stat_from(s, 0);
}

} // verus!
