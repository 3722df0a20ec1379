//! Character-level text handling: whitespace, splitting a message into
//! words, and literal substring replacement.
use vstd::prelude::*;

verus! {

/// The characters that carry Unicode's `White_Space` property.
pub open spec fn is_space(c: char) -> bool {
    let n = c as u32;
    (0x9 <= n && n <= 0xd) || n == 0x20 || n == 0x85 || n == 0xa0 || n == 0x1680 || (0x2000 <= n
        && n <= 0x200a) || n == 0x2028 || n == 0x2029 || n == 0x202f || n == 0x205f || n == 0x3000
}

/// The maximal runs of non-whitespace characters of `s`, in order.
pub open spec fn words(s: Seq<char>) -> Seq<Seq<char>>
    decreases s.len(),
{
    if s.len() == 0 {
        seq![]
    } else {
        let rest = words(s.drop_last());
        let c = s.last();
        if is_space(c) {
            rest
        } else if s.len() >= 2 && !is_space(s[s.len() - 2]) {
            rest.update(rest.len() - 1, rest.last().push(c))
        } else {
            rest.push(seq![c])
        }
    }
}

/// Whether `p` occurs in `s` at position `i`.
pub open spec fn occurs(s: Seq<char>, p: Seq<char>, i: int) -> bool {
    0 <= i && i + p.len() <= s.len() && s.subrange(i, i + p.len()) == p
}

/// The leftmost position, from `i` on, where `p` occurs in `s`.
pub open spec fn first_occurrence(s: Seq<char>, p: Seq<char>, i: int) -> Option<int>
    decreases s.len() - i,
{
    if i < 0 || i >= s.len() || i + p.len() > s.len() {
        None
    } else if occurs(s, p, i) {
        Some(i)
    } else {
        first_occurrence(s, p, i + 1)
    }
}

/// `s` with the patterns `pats` from position `k` on replaced, one pattern
/// after another in order, by the values at the same positions. Each
/// pattern is sought at its leftmost occurrences that do not overlap, and
/// only in text that comes from `s`: what a value brought in is never
/// searched by a later pattern.
pub open spec fn replace_in_order(
    s: Seq<char>,
    pats: Seq<Seq<char>>,
    vals: Seq<Seq<char>>,
    k: int,
) -> Seq<char>
    decreases pats.len() - k, s.len(),
{
    if k < 0 || k >= pats.len() {
        s
    } else {
        let p = pats[k];
        match first_occurrence(s, p, 0) {
            None => replace_in_order(s, pats, vals, k + 1),
            Some(i) => if 0 <= i && 0 < p.len() && i + p.len() <= s.len() {
                replace_in_order(s.take(i), pats, vals, k + 1) + vals[k] + replace_in_order(
                    s.skip(i + p.len()),
                    pats,
                    vals,
                    k,
                )
            } else {
                s
            },
        }
    }
}

pub open spec fn strs_view(v: Seq<&str>) -> Seq<Seq<char>> {
    v.map_values(|w: &str| w@)
}

pub open spec fn strings_view(v: Seq<String>) -> Seq<Seq<char>> {
    v.map_values(|s: String| s@)
}

/// Whether `c` is a whitespace character.
pub fn is_whitespace(c: char) -> (r: bool)
    ensures
        r == is_space(c),
{
    let n = c as u32;
    (0x9 <= n && n <= 0xd) || n == 0x20 || n == 0x85 || n == 0xa0 || n == 0x1680 || (0x2000 <= n
        && n <= 0x200a) || n == 0x2028 || n == 0x2029 || n == 0x202f || n == 0x205f || n == 0x3000
}

/// A message made of whitespace alone holds no word.
pub proof fn lemma_blank_has_no_words(s: Seq<char>)
    requires
        forall|i: int| 0 <= i < s.len() ==> is_space(#[trigger] s[i]),
    ensures
        words(s).len() == 0,
    decreases s.len(),
{
    if s.len() > 0 {
        lemma_blank_has_no_words(s.drop_last());
    }
}

/// Splits `s` into its whitespace-separated words, each a slice of `s`.
pub fn split_words(s: &str) -> (r: Vec<&str>)
    ensures
        strs_view(r@) == words(s@),
{
    let n = s.unicode_len();
    let mut res: Vec<&str> = Vec::new();
    let mut start: usize = 0;
    let mut in_word = false;
    let mut i: usize = 0;
    while i < n
        invariant
            n == s@.len(),
            i <= n,
            in_word ==> start < i,
            in_word <==> (i > 0 && !is_space(s@[i - 1])),
            words(s@.take(i as int)) == if in_word {
                strs_view(res@).push(s@.subrange(start as int, i as int))
            } else {
                strs_view(res@)
            },
        decreases n - i,
    {
        let c = s.get_char(i);
        let ghost prev = s@.take(i as int);
        let ghost next = s@.take(i + 1);
        assert(next.drop_last() =~= prev);
        assert(next.last() == c);
        if is_whitespace(c) {
            if in_word {
                let w = s.substring_char(start, i);
                let ghost before = res@;
                res.push(w);
                assert(strs_view(res@) =~= strs_view(before).push(w@));
            }
            in_word = false;
        } else {
            if in_word {
                assert(s@.subrange(start as int, i + 1) =~= s@.subrange(start as int, i as int).push(
                    c,
                ));
                assert(words(next) =~= strs_view(res@).push(
                    s@.subrange(start as int, i + 1),
                ));
            } else {
                start = i;
                assert(s@.subrange(start as int, i + 1) =~= seq![c]);
            }
            in_word = true;
        }
        i = i + 1;
    }
    assert(s@.take(n as int) =~= s@);
    if in_word {
        let w = s.substring_char(start, n);
        let ghost before = res@;
        res.push(w);
        assert(strs_view(res@) =~= strs_view(before).push(w@));
    }
    res
}

/// Whether `pat` (of length `m`) occurs in `s` at character position `i`.
fn occurs_at(s: &str, pat: &str, i: usize, m: usize) -> (r: bool)
    requires
        m == pat@.len(),
        i + m <= s@.len(),
        s@.len() <= usize::MAX,
    ensures
        r == (s@.subrange(i as int, i + m) == pat@),
{
    let mut j: usize = 0;
    while j < m
        invariant
            m == pat@.len(),
            i + m <= s@.len(),
            s@.len() <= usize::MAX,
            j <= m,
            s@.subrange(i as int, i + j) == pat@.take(j as int),
        decreases m - j,
    {
        if s.get_char(i + j) != pat.get_char(j) {
            assert(s@.subrange(i as int, i + m)[j as int] != pat@[j as int]);
            return false;
        }
        assert(s@.subrange(i as int, i + j + 1) =~= pat@.take(j + 1));
        j = j + 1;
    }
    assert(pat@.take(m as int) =~= pat@);
    true
}

proof fn lemma_first_occurrence(s: Seq<char>, p: Seq<char>, i: int)
    requires
        0 <= i,
    ensures
        first_occurrence(s, p, i) matches Some(j) ==> i <= j && occurs(s, p, j),
    decreases s.len() - i,
{
    if 0 <= i < s.len() && i + p.len() <= s.len() && !occurs(s, p, i) {
        lemma_first_occurrence(s, p, i + 1);
    }
}

/// The leftmost position where `pat` (of length `m`) occurs in `s`.
fn find_occurrence(s: &str, n: usize, pat: &str, m: usize) -> (r: Option<usize>)
    requires
        n == s@.len(),
        m == pat@.len(),
    ensures
        match r {
            Some(i) => first_occurrence(s@, pat@, 0) == Some(i as int) && i + m <= n,
            None => first_occurrence(s@, pat@, 0) is None,
        },
{
    let mut i: usize = 0;
    while i < n && m <= n - i
        invariant
            n == s@.len(),
            m == pat@.len(),
            i <= n,
            first_occurrence(s@, pat@, 0) == first_occurrence(s@, pat@, i as int),
        decreases n - i,
    {
        if occurs_at(s, pat, i, m) {
            return Some(i);
        }
        i = i + 1;
    }
    None
}

/// `s` with the non-empty patterns `pats` replaced, one after another in
/// order, by the values at the same positions; text that a value brought in
/// is never searched by a later pattern.
pub fn replace_patterns(s: &str, pats: &Vec<String>, vals: &[&str]) -> (r: String)
    requires
        pats@.len() <= vals@.len(),
        forall|j: int| 0 <= j < pats@.len() ==> (#[trigger] pats@[j])@.len() > 0,
    ensures
        r@ == replace_in_order(s@, strings_view(pats@), strs_view(vals@), 0),
{
    replace_from(s, pats, vals, 0)
}

/// `s` with the patterns `pats` from position `k` on replaced in order.
fn replace_from(s: &str, pats: &Vec<String>, vals: &[&str], k: usize) -> (r: String)
    requires
        k <= pats@.len() <= vals@.len(),
        forall|j: int| 0 <= j < pats@.len() ==> (#[trigger] pats@[j])@.len() > 0,
    ensures
        r@ == replace_in_order(s@, strings_view(pats@), strs_view(vals@), k as int),
    decreases pats@.len() - k, s@.len(),
{
    let ghost ps = strings_view(pats@);
    let ghost vs = strs_view(vals@);
    if k >= pats.len() {
        return s.to_owned();
    }
    let n = s.unicode_len();
    let m = pats[k].unicode_len();
    assert(ps[k as int] == pats@[k as int]@);
    match find_occurrence(s, n, pats[k].as_str(), m) {
        None => replace_from(s, pats, vals, k + 1),
        Some(i) => {
            proof {
                lemma_first_occurrence(s@, ps[k as int], 0);
            }
            assert(pats@[k as int]@.len() > 0);
            let left = s.substring_char(0, i);
            let right = s.substring_char(i + m, n);
            assert(left@ =~= s@.take(i as int));
            assert(right@ =~= s@.skip(i + m));
            let mut out = replace_from(left, pats, vals, k + 1);
            out.append(vals[k]);
            let rest = replace_from(right, pats, vals, k);
            out.append(rest.as_str());
            assert(vs[k as int] == vals@[k as int]@);
            out
        },
    }
}


} // verus!
