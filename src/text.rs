//! Characters, runs and decimal numbers in a line of text.
use vstd::prelude::*;

verus! {

/// Whitespace as Unicode's `White_Space` property has it (what `char::is_whitespace` tests).
pub open spec fn is_space(c: char) -> bool {
    let u = c as u32;
    (9 <= u && u <= 13) || u == 32 || u == 0x85 || u == 0xA0 || u == 0x1680 || (0x2000 <= u
        && u <= 0x200A) || u == 0x2028 || u == 0x2029 || u == 0x202F || u == 0x205F || u
        == 0x3000
}

/// An ASCII decimal digit.
pub open spec fn is_digit(c: char) -> bool {
    '0' <= c && c <= '9'
}

/// The value of an ASCII digit.
pub open spec fn digit_value(c: char) -> nat {
    (c as u32 - '0' as u32) as nat
}

/// The value of a string of decimal digits, most significant first.
pub open spec fn decimal(ds: Seq<char>) -> nat
    decreases ds.len(),
{
    if ds.len() == 0 {
        0
    } else {
        decimal(ds.drop_last()) * 10 + digit_value(ds.last())
    }
}

/// No character of `s[lo..hi]` is whitespace.
pub open spec fn no_space(s: Seq<char>, lo: int, hi: int) -> bool {
    forall|t: int| lo <= t < hi ==> !is_space(#[trigger] s[t])
}

/// No character of `s[lo..hi]` is `c`.
pub open spec fn lacks(s: Seq<char>, c: char, lo: int, hi: int) -> bool {
    forall|t: int| lo <= t < hi ==> #[trigger] s[t] != c
}

/// The first index at or after `from` that holds `c`, or the length when there is none.
pub open spec fn find_char(s: Seq<char>, c: char, from: int) -> int
    decreases s.len() - from,
{
    if from >= s.len() {
        s.len() as int
    } else if s[from] == c {
        from
    } else {
        find_char(s, c, from + 1)
    }
}

/// The last index before `to` that holds `c`, or -1 when there is none.
pub open spec fn rfind_char(s: Seq<char>, c: char, to: int) -> int
    decreases to,
{
    if to <= 0 {
        -1
    } else if s[to - 1] == c {
        to - 1
    } else {
        rfind_char(s, c, to - 1)
    }
}

/// The end of the run of digits that starts at `i`.
pub open spec fn digits_end(s: Seq<char>, i: int) -> int
    decreases s.len() - i,
{
    if 0 <= i < s.len() && is_digit(s[i]) {
        digits_end(s, i + 1)
    } else {
        i
    }
}

/// The end of the run of whitespace that starts at `i`.
pub open spec fn spaces_end(s: Seq<char>, i: int) -> int
    decreases s.len() - i,
{
    if 0 <= i < s.len() && is_space(s[i]) {
        spaces_end(s, i + 1)
    } else {
        i
    }
}

/// The end of the run of non-whitespace that starts at `i`.
pub open spec fn word_end(s: Seq<char>, i: int) -> int
    decreases s.len() - i,
{
    if 0 <= i < s.len() && !is_space(s[i]) {
        word_end(s, i + 1)
    } else {
        i
    }
}

pub proof fn lemma_find_char_at(s: Seq<char>, c: char, from: int, t: int)
    requires
        0 <= from <= t <= s.len(),
        lacks(s, c, from, t),
        t == s.len() || s[t] == c,
    ensures
        find_char(s, c, from) == t,
    decreases t - from,
{
    if from < t {
        lemma_find_char_at(s, c, from + 1, t);
    }
}

pub proof fn lemma_digits_end(s: Seq<char>, i: int, t: int)
    requires
        0 <= i <= t <= s.len(),
        forall|u: int| i <= u < t ==> is_digit(#[trigger] s[u]),
        t == s.len() || !is_digit(s[t]),
    ensures
        digits_end(s, i) == t,
    decreases t - i,
{
    if i < t {
        lemma_digits_end(s, i + 1, t);
    }
}

pub proof fn lemma_spaces_end(s: Seq<char>, i: int, t: int)
    requires
        0 <= i <= t <= s.len(),
        forall|u: int| i <= u < t ==> is_space(#[trigger] s[u]),
        t == s.len() || !is_space(s[t]),
    ensures
        spaces_end(s, i) == t,
    decreases t - i,
{
    if i < t {
        lemma_spaces_end(s, i + 1, t);
    }
}

pub proof fn lemma_word_end(s: Seq<char>, i: int, t: int)
    requires
        0 <= i <= t <= s.len(),
        no_space(s, i, t),
        t == s.len() || is_space(s[t]),
    ensures
        word_end(s, i) == t,
    decreases t - i,
{
    if i < t {
        lemma_word_end(s, i + 1, t);
    }
}

pub proof fn lemma_digits_end_ge(s: Seq<char>, i: int)
    requires
        0 <= i <= s.len(),
    ensures
        i <= digits_end(s, i) <= s.len(),
    decreases s.len() - i,
{
    if i < s.len() && is_digit(s[i]) {
        lemma_digits_end_ge(s, i + 1);
    }
}

pub proof fn lemma_decimal_prefix(ds: Seq<char>, m: int)
    requires
        0 <= m <= ds.len(),
    ensures
        decimal(ds.subrange(0, m)) <= decimal(ds),
    decreases ds.len(),
{
    if m == ds.len() {
        assert(ds.subrange(0, m) =~= ds);
    } else {
        lemma_decimal_prefix(ds.drop_last(), m);
        assert(ds.drop_last().subrange(0, m) =~= ds.subrange(0, m));
    }
}

pub fn is_space_char(c: char) -> (r: bool)
    ensures
        r == is_space(c),
{
    let u = c as u32;
    (9 <= u && u <= 13) || u == 32 || u == 0x85 || u == 0xA0 || u == 0x1680 || (0x2000 <= u
        && u <= 0x200A) || u == 0x2028 || u == 0x2029 || u == 0x202F || u == 0x205F || u
        == 0x3000
}

pub fn is_digit_char(c: char) -> (r: bool)
    ensures
        r == is_digit(c),
{
    '0' <= c && c <= '9'
}

/// The characters of `s`, one per element.
pub fn chars_of(s: &str) -> (r: Vec<char>)
    ensures
        r@ == s@,
{
    let n = s.unicode_len();
    let mut r: Vec<char> = Vec::new();
    let mut i: usize = 0;
    while i < n
        invariant
            n == s@.len(),
            i <= n,
            r@ == s@.subrange(0, i as int),
        decreases n - i,
    {
        r.push(s.get_char(i));
        i += 1;
        assert(r@ =~= s@.subrange(0, i as int));
    }
    assert(r@ =~= s@);
    r
}

/// The text `s[lo..hi]` as a new string.
pub fn slice_string(s: &str, lo: usize, hi: usize) -> (r: String)
    requires
        lo <= hi <= s@.len(),
    ensures
        r@ == s@.subrange(lo as int, hi as int),
{
    s.substring_char(lo, hi).to_owned()
}

pub fn find_char_from(s: &Vec<char>, c: char, from: usize) -> (r: usize)
    requires
        from <= s@.len(),
    ensures
        r == find_char(s@, c, from as int),
        from <= r <= s@.len(),
        r < s@.len() ==> s@[r as int] == c,
        lacks(s@, c, from as int, r as int),
{
    let mut t = from;
    while t < s.len() && s[t] != c
        invariant
            from <= t <= s@.len(),
            find_char(s@, c, from as int) == find_char(s@, c, t as int),
            lacks(s@, c, from as int, t as int),
        decreases s@.len() - t,
    {
        t += 1;
    }
    t
}

pub fn rfind_char_before(s: &Vec<char>, c: char, to: usize) -> (r: Option<usize>)
    requires
        to <= s@.len(),
    ensures
        match r {
            Some(k) => k == rfind_char(s@, c, to as int) && k < to && s@[k as int] == c,
            None => rfind_char(s@, c, to as int) == -1,
        },
{
    let mut t = to;
    while t > 0 && s[t - 1] != c
        invariant
            t <= to,
            to <= s@.len(),
            rfind_char(s@, c, to as int) == rfind_char(s@, c, t as int),
        decreases t,
    {
        t -= 1;
    }
    if t == 0 {
        None
    } else {
        Some(t - 1)
    }
}

pub fn all_non_space(s: &Vec<char>, lo: usize, hi: usize) -> (r: bool)
    requires
        lo <= hi <= s@.len(),
    ensures
        r == no_space(s@, lo as int, hi as int),
{
    let mut t = lo;
    while t < hi
        invariant
            lo <= t <= hi,
            hi <= s@.len(),
            no_space(s@, lo as int, t as int),
        decreases hi - t,
    {
        if is_space_char(s[t]) {
            return false;
        }
        t += 1;
    }
    true
}

/// The value of the digits `s[lo..hi]`, or `None` where it exceeds `usize::MAX`.
pub fn decimal_in(s: &Vec<char>, lo: usize, hi: usize) -> (r: Option<usize>)
    requires
        lo <= hi <= s@.len(),
        forall|u: int| lo <= u < hi ==> is_digit(#[trigger] s@[u]),
    ensures
        match r {
            Some(v) => v as nat == decimal(s@.subrange(lo as int, hi as int)),
            None => decimal(s@.subrange(lo as int, hi as int)) > usize::MAX,
        },
{
    let mut v: usize = 0;
    let mut t = lo;
    assert(s@.subrange(lo as int, lo as int) =~= Seq::<char>::empty());
    while t < hi
        invariant
            lo <= t <= hi <= s@.len(),
            forall|u: int| lo <= u < hi ==> is_digit(#[trigger] s@[u]),
            v as nat == decimal(s@.subrange(lo as int, t as int)),
        decreases hi - t,
    {
        let c = s[t];
        assert(is_digit(s@[t as int]));
        let d = (c as u32 - '0' as u32) as usize;
        assert(s@.subrange(lo as int, t + 1).drop_last() =~= s@.subrange(lo as int, t as int));
        if v > (usize::MAX - d) / 10 {
            assert(v * 10 + d > usize::MAX) by (nonlinear_arith)
                requires
                    v > (usize::MAX - d) / 10,
                    d <= 9,
            ;
            proof {
                lemma_decimal_prefix(s@.subrange(lo as int, hi as int), t + 1 - lo);
                assert(s@.subrange(lo as int, hi as int).subrange(0, t + 1 - lo) =~= s@.subrange(
                    lo as int,
                    t + 1,
                ));
            }
            return None;
        }
        assert(v * 10 + d <= usize::MAX) by (nonlinear_arith)
            requires
                v <= (usize::MAX - d) / 10,
                d <= 9,
        ;
        v = v * 10 + d;
        t += 1;
    }
    Some(v)
}

pub fn run_end_digits(s: &Vec<char>, i: usize) -> (r: usize)
    requires
        i <= s@.len(),
    ensures
        r == digits_end(s@, i as int),
        i <= r <= s@.len(),
        forall|u: int| i <= u < r ==> is_digit(#[trigger] s@[u]),
{
    let mut t = i;
    while t < s.len() && is_digit_char(s[t])
        invariant
            i <= t <= s@.len(),
            forall|u: int| i <= u < t ==> is_digit(#[trigger] s@[u]),
            digits_end(s@, i as int) == digits_end(s@, t as int),
        decreases s@.len() - t,
    {
        t += 1;
    }
    t
}

pub fn run_end_spaces(s: &Vec<char>, i: usize) -> (r: usize)
    requires
        i <= s@.len(),
    ensures
        r == spaces_end(s@, i as int),
        i <= r <= s@.len(),
{
    let mut t = i;
    while t < s.len() && is_space_char(s[t])
        invariant
            i <= t <= s@.len(),
            spaces_end(s@, i as int) == spaces_end(s@, t as int),
        decreases s@.len() - t,
    {
        t += 1;
    }
    t
}

pub fn run_end_word(s: &Vec<char>, i: usize) -> (r: usize)
    requires
        i <= s@.len(),
    ensures
        r == word_end(s@, i as int),
        i <= r <= s@.len(),
        no_space(s@, i as int, r as int),
{
    let mut t = i;
    while t < s.len() && !is_space_char(s[t])
        invariant
            i <= t <= s@.len(),
            word_end(s@, i as int) == word_end(s@, t as int),
            no_space(s@, i as int, t as int),
        decreases s@.len() - t,
    {
        t += 1;
    }
    t
}

} // verus!
