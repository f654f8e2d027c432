//! The humanness score: how much a run of characters looks like English text.
//!
//! Scores are exact integers in thousandths of a point. With `n` characters,
//! `k` of them letters, `w` of them shell punctuation and `v` of them above
//! code point 127, the score is
//! `100 / drift + 1000 * (1 - w / n) + 50000 * (1 - v / n)` points, each of
//! the three terms rounded down to a thousandth, where `drift` sums, over the
//! 26 letters, the distance between expected and measured frequency divided by
//! 24. A text without letters scores zero.
use vstd::prelude::*;
use vstd::arithmetic::div_mod::{
    lemma_div_by_multiple, lemma_div_is_ordered, lemma_div_is_ordered_by_denominator,
};

verus! {

/// Expected letter frequencies are kept in hundred-thousandths.
pub const FREQ_SCALE: u64 = 100_000;

/// `100 / drift` in thousandths of a point, over the integer drift `d`:
/// `100 * 1000 * 24 * FREQ_SCALE * k / d`.
pub const DRIFT_TERM_SCALE: u128 = 240_000_000_000;

/// `1000 * (1 - w / n)` points in thousandths.
pub const PUNCT_WEIGHT: u128 = 1_000_000;

/// `50000 * (1 - v / n)` points in thousandths.
pub const ASCII_WEIGHT: u128 = 50_000_000;

/// `c` is a Latin letter of either case.
pub open spec fn is_letter(c: char) -> bool {
    ('A' <= c && c <= 'Z') || ('a' <= c && c <= 'z')
}

/// The place of a letter in the alphabet, `A` and `a` being 0.
pub open spec fn letter_rank(c: char) -> int {
    if 'A' <= c && c <= 'Z' {
        c as int - 'A' as int
    } else {
        c as int - 'a' as int
    }
}

/// `c` is one of the punctuation marks `&%$\/#@^*()+_<>|{}`.
pub open spec fn is_weird_symbol(c: char) -> bool {
    c == '&' || c == '%' || c == '$' || c == '\\' || c == '/' || c == '#' || c == '@' || c
        == '^' || c == '*' || c == '(' || c == ')' || c == '+' || c == '_' || c == '<' || c
        == '>' || c == '|' || c == '{' || c == '}'
}

/// `c` lies outside ASCII.
pub open spec fn is_high(c: char) -> bool {
    c as u32 > 127
}

/// How many characters of `s` satisfy `p`.
pub open spec fn count(s: Seq<char>, p: spec_fn(char) -> bool) -> nat
    decreases s.len(),
{
    if s.len() == 0 {
        0
    } else {
        count(s.drop_last(), p) + if p(s.last()) {
            1nat
        } else {
            0nat
        }
    }
}

pub open spec fn letters(s: Seq<char>) -> nat {
    count(s, |c: char| is_letter(c))
}

/// Occurrences in `s` of letter `l` of the alphabet, in either case.
pub open spec fn occurrences(s: Seq<char>, l: int) -> nat {
    count(s, |c: char| is_letter(c) && letter_rank(c) == l)
}

pub open spec fn weird_symbols(s: Seq<char>) -> nat {
    count(s, |c: char| is_weird_symbol(c))
}

pub open spec fn high_chars(s: Seq<char>) -> nat {
    count(s, |c: char| is_high(c))
}

/// Expected frequency of letter `l` in English text, in hundred-thousandths.
pub open spec fn expected_freq(l: int) -> int {
    if l == 0 { 11700 }
    else if l == 1 { 4400 }
    else if l == 2 { 5200 }
    else if l == 3 { 3200 }
    else if l == 4 { 2800 }
    else if l == 5 { 4000 }
    else if l == 6 { 1600 }
    else if l == 7 { 4200 }
    else if l == 8 { 7300 }
    else if l == 9 { 510 }
    else if l == 10 { 860 }
    else if l == 11 { 2400 }
    else if l == 12 { 3800 }
    else if l == 13 { 2300 }
    else if l == 14 { 7600 }
    else if l == 15 { 4300 }
    else if l == 16 { 220 }
    else if l == 17 { 2800 }
    else if l == 18 { 6700 }
    else if l == 19 { 16000 }
    else if l == 20 { 1200 }
    else if l == 21 { 820 }
    else if l == 22 { 5500 }
    else if l == 23 { 45 }
    else if l == 24 { 760 }
    else if l == 25 { 45 }
    else { 0 }
}

pub open spec fn abs(x: int) -> int {
    if x < 0 { -x } else { x }
}

/// The frequency drift over the first `j` letters, scaled to an integer:
/// the sum of `|expected * k - FREQ_SCALE * occurrences|`, which is the
/// drift times `24 * FREQ_SCALE * k`.
pub open spec fn drift_upto(s: Seq<char>, k: int, j: int) -> int
    decreases j,
{
    if j <= 0 {
        0
    } else {
        drift_upto(s, k, j - 1) + abs(expected_freq(j - 1) * k - FREQ_SCALE * occurrences(s, j - 1))
    }
}

/// The scaled frequency drift of `s` over the whole alphabet.
pub open spec fn drift(s: Seq<char>) -> int {
    drift_upto(s, letters(s) as int, 26)
}

/// `100 / drift` in thousandths. A drift of zero is read as the smallest
/// drift above it, one step of the scaled sum, so the term stays finite.
pub open spec fn drift_term(s: Seq<char>) -> int {
    let d = drift(s);
    if d == 0 {
        DRIFT_TERM_SCALE * letters(s)
    } else {
        DRIFT_TERM_SCALE * letters(s) / d
    }
}

/// The humanness score of `s`, in thousandths of a point.
pub open spec fn score(s: Seq<char>) -> int {
    let n = s.len() as int;
    if letters(s) == 0 {
        0
    } else {
        drift_term(s) + PUNCT_WEIGHT * (n - weird_symbols(s)) / n + ASCII_WEIGHT * (n
            - high_chars(s)) / n
    }
}

fn expected_frequency(l: usize) -> (r: u64)
    requires
        l < 26,
    ensures
        r == expected_freq(l as int),
{
    if l == 0 { 11700 }
    else if l == 1 { 4400 }
    else if l == 2 { 5200 }
    else if l == 3 { 3200 }
    else if l == 4 { 2800 }
    else if l == 5 { 4000 }
    else if l == 6 { 1600 }
    else if l == 7 { 4200 }
    else if l == 8 { 7300 }
    else if l == 9 { 510 }
    else if l == 10 { 860 }
    else if l == 11 { 2400 }
    else if l == 12 { 3800 }
    else if l == 13 { 2300 }
    else if l == 14 { 7600 }
    else if l == 15 { 4300 }
    else if l == 16 { 220 }
    else if l == 17 { 2800 }
    else if l == 18 { 6700 }
    else if l == 19 { 16000 }
    else if l == 20 { 1200 }
    else if l == 21 { 820 }
    else if l == 22 { 5500 }
    else if l == 23 { 45 }
    else if l == 24 { 760 }
    else { 45 }
}

fn letter_index(c: char) -> (r: Option<usize>)
    ensures
        is_letter(c) ==> r == Some(letter_rank(c) as usize) && 0 <= letter_rank(c) < 26,
        !is_letter(c) ==> r is None,
{
    if 'A' <= c && c <= 'Z' {
        Some((c as u32 - 'A' as u32) as usize)
    } else if 'a' <= c && c <= 'z' {
        Some((c as u32 - 'a' as u32) as usize)
    } else {
        None
    }
}

fn weird_symbol(c: char) -> (r: bool)
    ensures
        r == is_weird_symbol(c),
{
    c == '&' || c == '%' || c == '$' || c == '\\' || c == '/' || c == '#' || c == '@' || c
        == '^' || c == '*' || c == '(' || c == ')' || c == '+' || c == '_' || c == '<' || c
        == '>' || c == '|' || c == '{' || c == '}'
}

/// The character counts of a text, one pass.
struct Tally {
    letters: usize,
    weird: usize,
    high: usize,
    per_letter: Vec<usize>,
}

fn tally(text: &Vec<char>) -> (t: Tally)
    ensures
        t.letters == letters(text@),
        t.weird == weird_symbols(text@),
        t.high == high_chars(text@),
        t.per_letter@.len() == 26,
        forall|l: int| 0 <= l < 26 ==> #[trigger] t.per_letter@[l] == occurrences(text@, l),
        t.letters <= text@.len(),
        t.weird <= text@.len(),
        t.high <= text@.len(),
        forall|l: int| 0 <= l < 26 ==> #[trigger] t.per_letter@[l] <= text@.len(),
{
    let ghost s = text@;
    let mut t = Tally { letters: 0, weird: 0, high: 0, per_letter: vec![0usize; 26] };
    assert(s.take(0) =~= Seq::<char>::empty());
    for i in 0..text.len()
        invariant
            s == text@,
            t.letters == letters(s.take(i as int)),
            t.weird == weird_symbols(s.take(i as int)),
            t.high == high_chars(s.take(i as int)),
            t.per_letter@.len() == 26,
            forall|l: int| 0 <= l < 26 ==> #[trigger] t.per_letter@[l] == occurrences(s.take(i as int), l),
            t.letters <= i,
            t.weird <= i,
            t.high <= i,
            forall|l: int| 0 <= l < 26 ==> #[trigger] t.per_letter@[l] <= i,
    {
        let c = text[i];
        let ghost before = s.take(i as int);
        let ghost after = s.take(i + 1);
        assert(after.drop_last() =~= before);
        assert(after.last() == c);
        match letter_index(c) {
            Some(l) => {
                t.letters = t.letters + 1;
                let v = t.per_letter[l] + 1;
                t.per_letter.set(l, v);
            },
            None => {},
        }
        if weird_symbol(c) {
            t.weird = t.weird + 1;
        }
        if (c as u32) > 127 {
            t.high = t.high + 1;
        }
        assert forall|l: int| 0 <= l < 26 implies #[trigger] t.per_letter@[l] == occurrences(after, l) by {
            assert(occurrences(after, l) == occurrences(before, l) + if is_letter(c) && letter_rank(c) == l { 1nat } else { 0nat });
        }
    }
    assert(s.take(s.len() as int) =~= s);
    t
}

/// A weight times a share `x / n` of a whole never exceeds the weight.
proof fn lemma_share_at_most(w: int, x: int, n: int)
    requires
        0 <= w,
        0 <= x <= n,
        0 < n,
    ensures
        0 <= w * x / n <= w,
{
    assert(0 <= w * x <= w * n) by (nonlinear_arith)
        requires
            0 <= w,
            0 <= x <= n,
    ;
    lemma_div_is_ordered(w * x, w * n, n);
    lemma_div_is_ordered(0, w * x, n);
    lemma_div_by_multiple(w, n);
    assert(w * n == n * w) by (nonlinear_arith);
}

/// The humanness score of `text`, in thousandths of a point: zero for a
/// text without letters.
pub fn humanness(text: &Vec<char>) -> (r: u128)
    ensures
        r == score(text@),
{
    let t = tally(text);
    if t.letters == 0 {
        return 0;
    }
    let k = t.letters as u128;
    let n = text.len() as u128;
    let mut d: u128 = 0;
    for l in 0..26usize
        invariant
            t.per_letter@.len() == 26,
            forall|j: int| 0 <= j < 26 ==> #[trigger] t.per_letter@[j] == occurrences(text@, j),
            forall|j: int| 0 <= j < 26 ==> #[trigger] t.per_letter@[j] <= text@.len(),
            k == letters(text@),
            k <= n,
            n == text@.len(),
            n <= usize::MAX,
            d == drift_upto(text@, k as int, l as int),
            d <= l * FREQ_SCALE * n,
    {
        let f = expected_frequency(l) as u128;
        let c = t.per_letter[l] as u128;
        assert(f * k <= FREQ_SCALE * n) by (nonlinear_arith)
            requires
                f <= 16000,
                k <= n,
        ;
        assert(FREQ_SCALE * c <= FREQ_SCALE * n) by (nonlinear_arith)
            requires
                c <= n,
        ;
        let e = f * k;
        let m = FREQ_SCALE as u128 * c;
        let diff = if e >= m {
            e - m
        } else {
            m - e
        };
        assert((l + 1) * FREQ_SCALE * n == l * FREQ_SCALE * n + FREQ_SCALE * n) by (nonlinear_arith);
        assert((l + 1) * FREQ_SCALE * n <= 26 * 100_000 * 0xffff_ffff_ffff_ffffu128) by (nonlinear_arith)
            requires
                l < 26,
                n <= 0xffff_ffff_ffff_ffffu128,
        ;
        d = d + diff;
    }
    let drift_part = if d == 0 {
        DRIFT_TERM_SCALE * k
    } else {
        DRIFT_TERM_SCALE * k / d
    };
    let punct_part = PUNCT_WEIGHT * (n - t.weird as u128) / n;
    let ascii_part = ASCII_WEIGHT * (n - t.high as u128) / n;
    proof {
        lemma_share_at_most(PUNCT_WEIGHT as int, n - t.weird as u128, n as int);
        lemma_share_at_most(ASCII_WEIGHT as int, n - t.high as u128, n as int);
        if d > 0 {
            lemma_div_is_ordered_by_denominator((DRIFT_TERM_SCALE * k) as int, 1, d as int);
        }
    }
    drift_part + punct_part + ascii_part
}

/// Scoring is deterministic: texts with the same characters get the same
/// score, which is what `humanness` returns for each of them.
pub proof fn lemma_score_deterministic(a: Seq<char>, b: Seq<char>)
    requires
        a == b,
    ensures
        score(a) == score(b),
{
}

/// Occurrences of the first `j` letters of the alphabet.
pub open spec fn occurrence_total(s: Seq<char>, j: int) -> int
    decreases j,
{
    if j <= 0 {
        0
    } else {
        occurrence_total(s, j - 1) + occurrences(s, j - 1)
    }
}

/// The expected frequencies of the first `j` letters, summed.
pub open spec fn expected_total(j: int) -> int
    decreases j,
{
    if j <= 0 {
        0
    } else {
        expected_total(j - 1) + expected_freq(j - 1)
    }
}

/// The signed differences behind the drift of the first `j` letters, summed.
pub open spec fn signed_upto(s: Seq<char>, k: int, j: int) -> int
    decreases j,
{
    if j <= 0 {
        0
    } else {
        signed_upto(s, k, j - 1) + (expected_freq(j - 1) * k - FREQ_SCALE * occurrences(s, j - 1))
    }
}

proof fn lemma_total_last(s: Seq<char>, j: int)
    requires
        s.len() > 0,
        0 <= j,
    ensures
        occurrence_total(s, j) == occurrence_total(s.drop_last(), j) + if is_letter(s.last())
            && letter_rank(s.last()) < j {
            1int
        } else {
            0int
        },
    decreases j,
{
    if j > 0 {
        lemma_total_last(s, j - 1);
    }
}

proof fn lemma_total_is_letters(s: Seq<char>)
    ensures
        occurrence_total(s, 26) == letters(s),
    decreases s.len(),
{
    if s.len() == 0 {
        lemma_total_empty(s, 26);
    } else {
        lemma_total_is_letters(s.drop_last());
        lemma_total_last(s, 26);
    }
}

proof fn lemma_total_empty(s: Seq<char>, j: int)
    requires
        s.len() == 0,
    ensures
        occurrence_total(s, j) == 0,
    decreases j,
{
    if j > 0 {
        lemma_total_empty(s, j - 1);
    }
}

proof fn lemma_signed_sum(s: Seq<char>, k: int, j: int)
    ensures
        signed_upto(s, k, j) == k * expected_total(j) - FREQ_SCALE * occurrence_total(s, j),
        drift_upto(s, k, j) >= abs(signed_upto(s, k, j)),
    decreases j,
{
    if j > 0 {
        lemma_signed_sum(s, k, j - 1);
        assert(k * expected_total(j) == k * expected_total(j - 1) + expected_freq(j - 1) * k)
            by (nonlinear_arith)
            requires
                expected_total(j) == expected_total(j - 1) + expected_freq(j - 1),
        ;
    }
}

/// A text with letters never has zero drift: the expected frequencies sum to
/// 1.0026 rather than 1, so the scaled drift is at least `260` per letter
/// and `100 / drift` is always a true quotient.
pub proof fn lemma_drift_positive(s: Seq<char>)
    requires
        letters(s) > 0,
    ensures
        drift(s) >= 260 * letters(s),
        drift_term(s) == DRIFT_TERM_SCALE * letters(s) / drift(s),
{
    let k = letters(s) as int;
    lemma_total_is_letters(s);
    lemma_signed_sum(s, k, 26);
    reveal_with_fuel(expected_total, 27);
    assert(expected_total(26) == 100260);
}

} // verus!
