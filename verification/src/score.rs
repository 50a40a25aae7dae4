//! Scores and the arithmetic of ranking.
//!
//! A score is a whole number of billionths: `SCORE_ONE` stands for 1.0. The
//! recency of a record is a score too: 1.0 for a record made today, falling
//! towards 0 as the record ages.

use vstd::arithmetic::power2::{
    lemma2_to64, lemma_pow2_pos, lemma_pow2_strictly_increases, lemma_pow2_unfold, pow2,
};
use vstd::prelude::*;

verus! {

/// The score that stands for 1.0.
pub const SCORE_ONE: u64 = 1_000_000_000;

/// Share of a score that age can never take away: 0.85.
pub const DECAY_FLOOR: u64 = 850_000_000;

/// Least similarity, exclusive, at which a stored vector counts as a hit.
pub const MIN_SIMILARITY: u64 = 300_000_000;

/// A recency above 1.0 counts as 1.0.
pub open spec fn capped(recency: u64) -> int {
    if recency <= SCORE_ONE {
        recency as int
    } else {
        SCORE_ONE as int
    }
}

/// The factor by which a record of the given recency keeps its score:
/// 0.85 plus 0.15 times the recency, in billionths.
pub open spec fn decay_factor(recency: u64) -> int {
    850_000_000 + 15 * capped(recency) / 100
}

/// The score that is left of `score` at the given recency: the score times
/// the decay factor, rounded up to the next billionth.
pub open spec fn decayed(score: u64, recency: u64) -> int {
    (score * decay_factor(recency) + 999_999_999) / 1_000_000_000
}

/// A raw lexical score `b` brought into `[0, 1)`: `b / (b + 1)`, rounded
/// down.
pub open spec fn normalized(raw: u64) -> int {
    raw * 1_000_000_000 / (raw + 1_000_000_000)
}

/// The hybrid score before ageing: 0.7 of the semantic score plus 0.3 of
/// the lexical score, rounded down.
pub open spec fn hybrid_raw(emb_score: u64, fts_score: u64) -> int {
    (7 * emb_score + 3 * fts_score) / 10
}

/// A score rounded to four decimal places, halves upwards.
pub open spec fn rounded(score: u64) -> int {
    (score + 50_000) / 100_000 * 100_000
}

/// Ageing takes away at most 15% of a score and adds nothing.
pub proof fn lemma_decay_bounds(score: u64, recency: u64)
    ensures
        85 * score <= 100 * decayed(score, recency),
        decayed(score, recency) <= score,
        recency >= SCORE_ONE ==> decayed(score, recency) == score,
{
    let f = decay_factor(recency);
    assert(850_000_000 <= f <= 1_000_000_000);
    assert(score * 850_000_000 <= score * f <= score * 1_000_000_000) by (nonlinear_arith)
        requires
            850_000_000 <= f <= 1_000_000_000,
            score >= 0,
    ;
}

/// A higher score or a higher recency never gives a lower aged score.
pub proof fn lemma_decay_monotone(s1: u64, r1: u64, s2: u64, r2: u64)
    requires
        s1 <= s2,
        r1 <= r2,
    ensures
        decayed(s1, r1) <= decayed(s2, r2),
{
    let f1 = decay_factor(r1);
    let f2 = decay_factor(r2);
    assert(0 <= f1 <= f2);
    assert(s1 * f1 <= s2 * f2) by (nonlinear_arith)
        requires
            0 <= s1 <= s2,
            0 <= f1 <= f2,
    ;
}

/// Raising the semantic or the lexical score never lowers the hybrid score.
pub proof fn lemma_hybrid_raw_monotone(e1: u64, f1: u64, e2: u64, f2: u64)
    requires
        e1 <= e2,
        f1 <= f2,
    ensures
        hybrid_raw(e1, f1) <= hybrid_raw(e2, f2),
{
}

/// With the recency fixed, raising the semantic or the lexical score never
/// lowers the final hybrid relevance.
pub proof fn lemma_hybrid_final_monotone(e1: u64, f1: u64, e2: u64, f2: u64, recency: u64)
    requires
        e1 <= e2 <= SCORE_ONE,
        f1 <= f2 <= SCORE_ONE,
    ensures
        rounded(decayed(hybrid_raw(e1, f1) as u64, recency) as u64) <= rounded(
            decayed(hybrid_raw(e2, f2) as u64, recency) as u64,
        ),
{
    lemma_hybrid_raw_monotone(e1, f1, e2, f2);
    lemma_decay_monotone(hybrid_raw(e1, f1) as u64, recency, hybrid_raw(e2, f2) as u64, recency);
    lemma_decay_bounds(hybrid_raw(e1, f1) as u64, recency);
    lemma_decay_bounds(hybrid_raw(e2, f2) as u64, recency);
}

/// A normalized lexical score lies in `[0, 1)`.
pub proof fn lemma_normalized_bounds(raw: u64)
    ensures
        0 <= normalized(raw) < SCORE_ONE,
{
    assert(raw * 1_000_000_000 < (raw + 1_000_000_000) * 1_000_000_000) by (nonlinear_arith)
        requires
            raw >= 0,
    ;
    vstd::arithmetic::div_mod::lemma_div_by_multiple_is_strongly_ordered(
        raw * 1_000_000_000,
        (raw + 1_000_000_000) * 1_000_000_000,
        1_000_000_000,
        raw + 1_000_000_000,
    );
    vstd::arithmetic::div_mod::lemma_div_by_multiple(1_000_000_000, raw + 1_000_000_000);
    assert(raw * 1_000_000_000 >= 0) by (nonlinear_arith)
        requires
            raw >= 0,
    ;
    vstd::arithmetic::div_mod::lemma_div_pos_is_pos(raw * 1_000_000_000, raw + 1_000_000_000);
}

/// The score that is left of `score` for a record of the given recency.
pub fn apply_temporal_decay(score: u64, recency: u64) -> (aged: u64)
    ensures
        aged == decayed(score, recency),
        85 * score <= 100 * aged,
        aged <= score,
{
    let r: u128 = if recency <= SCORE_ONE {
        recency as u128
    } else {
        SCORE_ONE as u128
    };
    let factor: u128 = 850_000_000 + 15 * r / 100;
    proof {
        lemma_decay_bounds(score, recency);
        assert(score as u128 * factor <= 0xffff_ffff_ffff_ffff * 1_000_000_000) by (nonlinear_arith)
            requires
                factor <= 1_000_000_000,
                score <= 0xffff_ffff_ffff_ffff,
        ;
    }
    ((score as u128 * factor + 999_999_999) / 1_000_000_000) as u64
}

/// Brings the raw lexical score `raw` into `[0, 1)`.
pub fn normalize_bm25(raw: u64) -> (score: u64)
    ensures
        score == normalized(raw),
        score < SCORE_ONE,
{
    proof {
        lemma_normalized_bounds(raw);
        assert(raw as u128 * 1_000_000_000 <= 0xffff_ffff_ffff_ffff * 1_000_000_000) by (nonlinear_arith)
            requires
                raw <= 0xffff_ffff_ffff_ffff,
        ;
    }
    (raw as u128 * 1_000_000_000 / (raw as u128 + 1_000_000_000)) as u64
}

/// The hybrid score of a semantic and a lexical score, before ageing.
pub fn hybrid_score(emb_score: u64, fts_score: u64) -> (raw: u64)
    ensures
        raw == hybrid_raw(emb_score, fts_score),
{
    ((7 * (emb_score as u128) + 3 * (fts_score as u128)) / 10) as u64
}

/// Rounds a score to four decimal places.
pub fn round_four_places(score: u64) -> (r: u64)
    requires
        score <= u64::MAX - 50_000,
    ensures
        r == rounded(score),
        score <= SCORE_ONE ==> r <= SCORE_ONE,
{
    ((score + 50_000) / 100_000 * 100_000)
}

/// The exponent field of the bit pattern of a 64-bit IEEE-754 number.
pub open spec fn exponent_field(bits: u64) -> int {
    (bits as int / 0x10_0000_0000_0000) % 2048
}

/// The fraction field of the bit pattern of a 64-bit IEEE-754 number.
pub open spec fn fraction_field(bits: u64) -> int {
    bits as int % 0x10_0000_0000_0000
}

/// The magnitude, in billionths and rounded down, of the number whose
/// 64-bit IEEE-754 bit pattern is `bits`: the sign is dropped. What is not
/// a number counts as 0, and what does not fit, infinity with it, as the
/// largest score. A normal number with the fraction `f` and the exponent
/// field `e` is `(2^52 + f) * 2^(e - 1075)`; below the normal numbers
/// nothing reaches a billionth.
pub open spec fn magnitude_of(bits: u64) -> int {
    let e = exponent_field(bits);
    let f = fraction_field(bits);
    if e == 2047 {
        if f == 0 {
            u64::MAX as int
        } else {
            0
        }
    } else if e == 0 {
        0
    } else if e >= 1075 {
        u64::MAX as int
    } else {
        let exact = (0x10_0000_0000_0000 + f) * 1_000_000_000 / (pow2((1075 - e) as nat) as int);
        if exact > u64::MAX {
            u64::MAX as int
        } else {
            exact
        }
    }
}

/// Two to the power 83.
proof fn lemma_pow2_83()
    ensures
        pow2(83) == 0x8_0000_0000_0000_0000_0000,
{
    lemma2_to64();
    vstd::arithmetic::power2::lemma_pow2_adds(64, 19);
}

/// Two to the power `n`, for an `n` of at most 83.
fn power_of_two(n: u32) -> (p: u128)
    requires
        n <= 83,
    ensures
        p == pow2(n as nat),
        p <= 0x8_0000_0000_0000_0000_0000,
{
    let mut p: u128 = 1;
    let mut i: u32 = 0;
    proof {
        lemma2_to64();
        lemma_pow2_83();
    }
    while i < n
        invariant
            i <= n <= 83,
            p == pow2(i as nat),
            p <= pow2(83),
            pow2(83) == 0x8_0000_0000_0000_0000_0000,
        decreases n - i,
    {
        proof {
            lemma_pow2_unfold((i + 1) as nat);
            if i + 1 < 83 {
                lemma_pow2_strictly_increases((i + 1) as nat, 83);
            }
        }
        p = p * 2;
        i += 1;
    }
    p
}

/// The magnitude, in billionths, of the number with the bit pattern
/// `bits`.
pub fn real_magnitude(bits: u64) -> (score: u64)
    ensures
        score == magnitude_of(bits),
{
    let e: u64 = (bits / 0x10_0000_0000_0000) % 2048;
    let f: u64 = bits % 0x10_0000_0000_0000;
    if e == 2047 {
        if f == 0 {
            u64::MAX
        } else {
            0
        }
    } else if e == 0 {
        0
    } else if e >= 1075 {
        u64::MAX
    } else {
        let scaled: u128 = (0x10_0000_0000_0000 + f as u128) * 1_000_000_000;
        let shift: u64 = 1075 - e;
        assert(scaled < 0x8_0000_0000_0000_0000_0000);
        if shift > 83 {
            proof {
                lemma_pow2_83();
                lemma_pow2_strictly_increases(83, shift as nat);
                vstd::arithmetic::div_mod::lemma_basic_div(
                    scaled as int,
                    pow2(shift as nat) as int,
                );
            }
            0
        } else {
            let divisor = power_of_two(shift as u32);
            proof {
                lemma_pow2_pos(shift as nat);
            }
            let exact: u128 = scaled / divisor;
            if exact > 0xffff_ffff_ffff_ffff {
                u64::MAX
            } else {
                exact as u64
            }
        }
    }
}

} // verus!
