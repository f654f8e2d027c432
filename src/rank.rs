//! Recovery of a single-byte XOR key: every key is tried, and the candidate
//! plaintexts are ranked by humanness score.
use vstd::prelude::*;
use crate::hex::{decode_hex, decoded, all_hex, first_non_hex};
use crate::score::{humanness, score};
use crate::text::{array_to_string, chars_of, to_ascii};
use crate::xor::{with_key, xor_1_vec};
use crate::XorError;

verus! {

/// Number of distinct single-byte keys.
pub const KEY_COUNT: usize = 256;

/// A trial decryption: its score in thousandths, the key, and the text.
#[derive(Debug, Clone)]
pub struct ScoredResult(pub u128, pub u8, pub String);

/// The text that `key` turns `cipher` into.
pub open spec fn candidate_text(cipher: Seq<u8>, key: u8) -> Seq<char> {
    chars_of(with_key(cipher, key))
}

/// The score of the text that `key` turns `cipher` into.
pub open spec fn key_score(cipher: Seq<u8>, key: u8) -> int {
    score(candidate_text(cipher, key))
}

/// Key `a` comes before key `b` in the ranking: a higher score, or the same
/// score and a lower key.
pub open spec fn outranks(cipher: Seq<u8>, a: u8, b: u8) -> bool {
    key_score(cipher, a) > key_score(cipher, b) || (key_score(cipher, a) == key_score(cipher, b)
        && a < b)
}

/// `e` holds the true score and text of its key.
pub open spec fn is_entry(cipher: Seq<u8>, e: ScoredResult) -> bool {
    e.0 == key_score(cipher, e.1) && e.2@ == candidate_text(cipher, e.1)
}

/// Some entry of `r` is for `k`.
pub open spec fn has_key(r: Seq<ScoredResult>, k: u8) -> bool {
    exists|i: int| 0 <= i < r.len() && #[trigger] r[i].1 == k
}

/// `r` is the head of the ranking of all keys: true entries, in ranking
/// order, each ahead of every key left out.
pub open spec fn is_ranking_head(cipher: Seq<u8>, r: Seq<ScoredResult>) -> bool {
    &&& forall|i: int| 0 <= i < r.len() ==> is_entry(cipher, #[trigger] r[i])
    &&& forall|i: int, j: int|
        0 <= i < j < r.len() ==> outranks(cipher, #[trigger] r[i].1, #[trigger] r[j].1)
    &&& forall|k: u8, i: int|
        0 <= i < r.len() && (forall|j: int| 0 <= j < r.len() ==> r[j].1 != k)
            ==> #[trigger] outranks(cipher, r[i].1, k)
}

/// Decrypts `encrypted` with `xor_cipher` and scores the text.
pub fn xor1x_and_score(encrypted: &Vec<u8>, xor_cipher: u8) -> (r: (u128, Vec<char>))
    ensures
        r.1@ == candidate_text(encrypted@, xor_cipher),
        r.0 == key_score(encrypted@, xor_cipher),
{
    let decrypted = xor_1_vec(encrypted, xor_cipher);
    let ascii = to_ascii(decrypted);
    (humanness(&ascii), ascii)
}

/// Every key's decryption of `cipher`, scored, best first; keys of equal
/// score in increasing order.
pub fn rank_single_key(cipher: &Vec<u8>) -> (r: Vec<ScoredResult>)
    ensures
        r@.len() == KEY_COUNT,
        is_ranking_head(cipher@, r@),
        forall|k: u8| #[trigger] has_key(r@, k),
{
    let ghost c = cipher@;
    let mut ranked: Vec<ScoredResult> = Vec::new();
    for key in 0..KEY_COUNT
        invariant
            c == cipher@,
            ranked@.len() == key,
            forall|i: int| 0 <= i < ranked@.len() ==> is_entry(c, #[trigger] ranked@[i]),
            forall|i: int, j: int|
                0 <= i < j < ranked@.len() ==> outranks(c, #[trigger] ranked@[i].1, #[trigger] ranked@[j].1),
            forall|i: int| 0 <= i < ranked@.len() ==> #[trigger] ranked@[i].1 < key,
            forall|k: u8| k < key ==> #[trigger] has_key(ranked@, k),
    {
        let k = key as u8;
        let (s, text) = xor1x_and_score(cipher, k);
        let mut p: usize = 0;
        while p < ranked.len() && ranked[p].0 >= s
            invariant
                p <= ranked@.len(),
                forall|i: int| 0 <= i < p ==> #[trigger] ranked@[i].0 >= s,
            decreases ranked@.len() - p,
        {
            p = p + 1;
        }
        let ghost old_ranked = ranked@;
        assert forall|i: int| p <= i < old_ranked.len() implies #[trigger] old_ranked[i].0 < s by {
            if i > p {
                assert(outranks(c, old_ranked[p as int].1, old_ranked[i].1));
            }
        }
        let entry = ScoredResult(s, k, array_to_string(text));
        ranked.insert(p, entry);
        assert forall|i: int, j: int|
            0 <= i < j < ranked@.len() implies outranks(c, #[trigger] ranked@[i].1, #[trigger] ranked@[j].1) by {
            if i < p && j == p {
            } else if i == p && j > p {
                assert(old_ranked[j - 1].0 < s);
            } else if i < p && j > p {
                assert(outranks(c, old_ranked[i].1, old_ranked[j - 1].1));
            } else if j < p {
                assert(outranks(c, old_ranked[i].1, old_ranked[j].1));
            } else {
                assert(outranks(c, old_ranked[i - 1].1, old_ranked[j - 1].1));
            }
        }
        assert forall|kk: u8| kk < key + 1 implies #[trigger] has_key(ranked@, kk) by {
            if kk == k {
                assert(ranked@[p as int].1 == kk);
            } else {
                assert(has_key(old_ranked, kk));
                let i = choose|i: int| 0 <= i < old_ranked.len() && #[trigger] old_ranked[i].1 == kk;
                if i < p {
                    assert(ranked@[i].1 == kk);
                } else {
                    assert(ranked@[i + 1].1 == kk);
                }
            }
        }
    }
    assert forall|k: u8, i: int|
        0 <= i < ranked@.len() && (forall|j: int| 0 <= j < ranked@.len() ==> ranked@[j].1 != k)
            implies #[trigger] outranks(c, ranked@[i].1, k) by {
        assert(has_key(ranked@, k));
    }
    ranked
}

/// The `n` best keys for `cipher`, in ranking order; fails when more are
/// asked for than there are keys.
pub fn top_n(cipher: &Vec<u8>, n: usize) -> (r: Result<Vec<ScoredResult>, XorError>)
    ensures
        n > KEY_COUNT ==> r matches Err(XorError::InsufficientCandidates),
        n <= KEY_COUNT ==> (r matches Ok(v) && v@.len() == n && is_ranking_head(cipher@, v@)),
{
    if n > KEY_COUNT {
        return Err(XorError::InsufficientCandidates);
    }
    let mut ranked = rank_single_key(cipher);
    let ghost all = ranked@;
    ranked.truncate(n);
    assert forall|k: u8, i: int|
        0 <= i < ranked@.len() && (forall|j: int| 0 <= j < ranked@.len() ==> ranked@[j].1 != k)
            implies #[trigger] outranks(cipher@, ranked@[i].1, k) by {
        assert(has_key(all, k));
        let j = choose|j: int| 0 <= j < all.len() && #[trigger] all[j].1 == k;
        if j < n {
            assert(ranked@[j].1 == k);
        }
        assert(outranks(cipher@, all[i].1, all[j].1));
    }
    Ok(ranked)
}

/// Decodes `hex` and gives its `n` best keys, in ranking order.
pub fn get_top(hex: String, n: usize) -> (r: Result<Vec<ScoredResult>, XorError>)
    ensures
        !all_hex(hex@) ==> exists|j: int|
            first_non_hex(hex@, j) && r == Err::<Vec<ScoredResult>, XorError>(
                XorError::InvalidHexDigit(hex@[j]),
            ),
        all_hex(hex@) && n > KEY_COUNT ==> r matches Err(XorError::InsufficientCandidates),
        all_hex(hex@) && n <= KEY_COUNT ==> (r matches Ok(v) && v@.len() == n && is_ranking_head(
            decoded(hex@),
            v@,
        )),
{
    let ghost h = hex@;
    match decode_hex(hex) {
        Ok(cipher) => top_n(&cipher, n),
        Err(e) => {
            let ghost j = choose|j: int|
                first_non_hex(h, j) && Err::<Vec<u8>, XorError>(e) == Err::<Vec<u8>, XorError>(
                    XorError::InvalidHexDigit(h[j]),
                );
            assert(first_non_hex(h, j));
            Err(e)
        },
    }
}

/// A line whose best key scores above this, in thousandths (52000 points),
/// is reported as a likely single-byte XOR ciphertext.
pub const CUTOFF: u128 = 52_000_000;

/// How many of the best keys are kept for each reported line.
pub const LINE_TOP: usize = 5;

/// Some key turns the hex line into text that scores above the cutoff.
pub open spec fn is_hit(line: Seq<char>) -> bool {
    exists|k: u8| #[trigger] key_score(decoded(line), k) > CUTOFF
}

/// The texts of the lines.
pub open spec fn line_views(lines: Seq<String>) -> Seq<Seq<char>> {
    lines.map_values(|s: String| s@)
}

/// The lines that are hits, each text once, in order of first appearance.
pub open spec fn hit_lines(ls: Seq<Seq<char>>) -> Seq<Seq<char>>
    decreases ls.len(),
{
    if ls.len() == 0 {
        Seq::empty()
    } else {
        let head = ls.drop_last();
        if is_hit(ls.last()) && !head.contains(ls.last()) {
            hit_lines(head).push(ls.last())
        } else {
            hit_lines(head)
        }
    }
}

/// `i` is the first line that is not all hex digits.
pub open spec fn first_non_hex_line(ls: Seq<Seq<char>>, i: int) -> bool {
    &&& 0 <= i < ls.len()
    &&& !all_hex(ls[i])
    &&& forall|j: int| 0 <= j < i ==> all_hex(#[trigger] ls[j])
}

/// A reported line and its best keys, in ranking order.
#[derive(Debug, Clone)]
pub struct LineHit {
    pub line: String,
    pub top: Vec<ScoredResult>,
}

/// The entry at the head of a ranking scores at least as high as every key.
proof fn lemma_head_is_best(cipher: Seq<u8>, top: Seq<ScoredResult>, k: u8)
    requires
        top.len() > 0,
        is_ranking_head(cipher, top),
    ensures
        key_score(cipher, k) <= top[0].0,
{
    assert(is_entry(cipher, top[0]));
    if exists|i: int| 0 <= i < top.len() && #[trigger] top[i].1 == k {
        let i = choose|i: int| 0 <= i < top.len() && #[trigger] top[i].1 == k;
        if i > 0 {
            assert(outranks(cipher, top[0].1, top[i].1));
        }
    } else {
        assert(outranks(cipher, top[0].1, k));
    }
}

/// Screens hex lines for single-byte XOR ciphertexts of English text: each
/// distinct line whose best key scores above the cutoff is reported once,
/// in order, with its five best keys. The first line that is not hex makes
/// it fail.
pub fn best_over_lines(lines: &Vec<String>) -> (r: Result<Vec<LineHit>, XorError>)
    ensures
        (forall|i: int| 0 <= i < lines@.len() ==> all_hex(#[trigger] lines@[i]@)) ==> (r matches Ok(
            hits,
        ) && hits@.len() == hit_lines(line_views(lines@)).len() && forall|t: int|
            0 <= t < hits@.len() ==> (#[trigger] hits@[t]).line@ == hit_lines(line_views(lines@))[t]
                && hits@[t].top@.len() == LINE_TOP && is_ranking_head(
                decoded(hits@[t].line@),
                hits@[t].top@,
            )),
        !(forall|i: int| 0 <= i < lines@.len() ==> all_hex(#[trigger] lines@[i]@)) ==> exists|
            i: int,
            j: int,
        |
            first_non_hex_line(line_views(lines@), i) && #[trigger] first_non_hex(lines@[i]@, j)
                && r == Err::<Vec<LineHit>, XorError>(XorError::InvalidHexDigit(lines@[i]@[j])),
{
    let ghost ls = line_views(lines@);
    let mut hits: Vec<LineHit> = Vec::new();
    for i in 0..lines.len()
        invariant
            ls == line_views(lines@),
            forall|j: int| 0 <= j < i ==> all_hex(#[trigger] ls[j]),
            hits@.len() == hit_lines(ls.take(i as int)).len(),
            forall|t: int|
                0 <= t < hits@.len() ==> (#[trigger] hits@[t]).line@ == hit_lines(ls.take(i as int))[t]
                    && hits@[t].top@.len() == LINE_TOP && is_ranking_head(
                    decoded(hits@[t].line@),
                    hits@[t].top@,
                ),
    {
        let ghost before = ls.take(i as int);
        assert(ls.take(i + 1).drop_last() =~= before);
        assert(ls[i as int] == lines@[i as int]@);
        let mut seen = false;
        let mut j: usize = 0;
        while j < i
            invariant
                j <= i,
                i < lines@.len(),
                ls == line_views(lines@),
                before == ls.take(i as int),
                seen <==> exists|m: int| 0 <= m < j && #[trigger] ls[m] == ls[i as int],
            decreases i - j,
        {
            assert(ls[j as int] == lines@[j as int]@);
            if lines[j] == lines[i] {
                seen = true;
            }
            j = j + 1;
        }
        assert(seen <==> before.contains(ls[i as int])) by {
            if seen {
                let m = choose|m: int| 0 <= m < i && #[trigger] ls[m] == ls[i as int];
                assert(before[m] == ls[i as int]);
            }
            if before.contains(ls[i as int]) {
                let m = choose|m: int| 0 <= m < before.len() && before[m] == ls[i as int];
                assert(ls[m] == ls[i as int]);
            }
        }
        if seen {
            let ghost m = choose|m: int| 0 <= m < i && #[trigger] ls[m] == ls[i as int];
            assert(all_hex(ls[m]));
        } else {
            let line = lines[i].clone();
            match get_top(line, LINE_TOP) {
                Err(e) => {
                    let ghost jj = choose|jj: int|
                        first_non_hex(ls[i as int], jj) && Err::<Vec<ScoredResult>, XorError>(e)
                            == Err::<Vec<ScoredResult>, XorError>(
                            XorError::InvalidHexDigit(ls[i as int][jj]),
                        );
                    assert(first_non_hex_line(ls, i as int));
                    assert(first_non_hex(lines@[i as int]@, jj));
                    return Err(e);
                },
                Ok(top) => {
                    let best = top[0].0;
                    proof {
                        let c = decoded(ls[i as int]);
                        if is_hit(ls[i as int]) {
                            let k = choose|k: u8| #[trigger] key_score(c, k) > CUTOFF;
                            lemma_head_is_best(c, top@, k);
                        }
                        if best > CUTOFF {
                            assert(key_score(c, top@[0].1) > CUTOFF);
                        }
                    }
                    if best > CUTOFF {
                        hits.push(LineHit { line: lines[i].clone(), top });
                    }
                },
            }
        }
    }
    assert(ls.take(lines@.len() as int) =~= ls);
    assert forall|i: int| 0 <= i < lines@.len() implies all_hex(#[trigger] lines@[i]@) by {
        assert(all_hex(ls[i]));
    }
    Ok(hits)
}

/// The full ranking has every key once and its scores never increase along
/// it.
pub proof fn lemma_ranking_sorted(cipher: Seq<u8>, r: Seq<ScoredResult>)
    requires
        is_ranking_head(cipher, r),
    ensures
        forall|i: int, j: int| 0 <= i < j < r.len() ==> #[trigger] r[i].0 >= #[trigger] r[j].0,
        forall|i: int, j: int| 0 <= i < j < r.len() ==> #[trigger] r[i].1 != #[trigger] r[j].1,
{
    assert forall|i: int, j: int| 0 <= i < j < r.len() implies #[trigger] r[i].0 >= #[trigger] r[j].0
        && r[i].1 != r[j].1 by {
        assert(is_entry(cipher, r[i]));
        assert(is_entry(cipher, r[j]));
        assert(outranks(cipher, r[i].1, r[j].1));
    }
}

} // verus!
