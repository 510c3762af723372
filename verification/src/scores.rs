//! Fixed-point score arithmetic. A similarity or relevance score is an
//! integer in millionths (1_000_000 is 1.0); a chunk weight is in
//! thousandths (1000 is neutral). Normalization, weighted fusion, weight
//! bias and recency bias are defined here, each pinned to a spec function,
//! with the recency bias proved monotone in age.

use vstd::arithmetic::div_mod::{lemma_div_is_ordered, lemma_div_is_ordered_by_denominator};
use vstd::prelude::*;

verus! {

/// 1.0 as a score, in millionths.
pub const SCORE_SCALE: u64 = 1_000_000;

/// The neutral chunk weight, in thousandths.
pub const WEIGHT_SCALE: u64 = 1000;

/// The recency half-scale, in seconds (thirty days): a chunk that old keeps
/// half its score.
pub const RECENCY_SCALE: u64 = 2_592_000;

/// The product of two 64-bit values fits in 128 bits.
proof fn lemma_u64_mul_fits(a: u64, b: u64)
    ensures
        0 <= (a as int) * (b as int) <= (u64::MAX as int) * (u64::MAX as int),
        (u64::MAX as int) * (u64::MAX as int) < u128::MAX as int,
{
    assert(0 <= (a as int) * (b as int) <= (u64::MAX as int) * (u64::MAX as int))
        by (nonlinear_arith)
        requires
            a <= u64::MAX,
            b <= u64::MAX,
    ;
}

/// A score scaled into `[0, SCORE_SCALE]` relative to the best score of its
/// candidate list; an empty list (best 0) normalizes to 0.
pub open spec fn spec_normalize(score: int, max: int) -> int {
    if max <= 0 {
        0
    } else {
        score * (SCORE_SCALE as int) / max
    }
}

/// Computes [`spec_normalize`].
pub fn normalize_score(score: u64, max: u64) -> (r: u64)
    requires
        score <= max,
    ensures
        r == spec_normalize(score as int, max as int),
        r <= SCORE_SCALE,
{
    if max == 0 {
        0
    } else {
        proof {
            lemma_u64_mul_fits(score, SCORE_SCALE);
        }
        let wide = (score as u128) * (SCORE_SCALE as u128);
        let q = wide / (max as u128);
        proof {
            assert((score as int) * (SCORE_SCALE as int) <= (max as int) * (SCORE_SCALE as int))
                by (nonlinear_arith)
                requires
                    score <= max,
            ;
            lemma_div_is_ordered(
                (score as int) * (SCORE_SCALE as int),
                (max as int) * (SCORE_SCALE as int),
                max as int,
            );
            assert((max as int) * (SCORE_SCALE as int) / (max as int) == SCORE_SCALE as int)
                by (nonlinear_arith)
                requires
                    max >= 1,
            ;
            assert(wide as int == (score as int) * (SCORE_SCALE as int));
            assert(q as int == (score as int) * (SCORE_SCALE as int) / (max as int));
        }
        q as u64
    }
}

/// The weighted linear combination of two normalized scores.
pub open spec fn spec_fuse(w_sem: int, norm_sem: int, w_full: int, norm_full: int) -> int {
    (w_sem * norm_sem + w_full * norm_full) / (SCORE_SCALE as int)
}

/// Computes [`spec_fuse`] for weights and normalized scores at most 1.0.
pub fn fuse_scores(w_sem: u64, norm_sem: u64, w_full: u64, norm_full: u64) -> (r: u64)
    requires
        w_sem <= SCORE_SCALE,
        w_full <= SCORE_SCALE,
        norm_sem <= SCORE_SCALE,
        norm_full <= SCORE_SCALE,
    ensures
        r == spec_fuse(w_sem as int, norm_sem as int, w_full as int, norm_full as int),
        r <= 2 * SCORE_SCALE,
{
    proof {
        assert((w_sem as int) * (norm_sem as int) <= (SCORE_SCALE as int) * (SCORE_SCALE as int)
            && (w_full as int) * (norm_full as int) <= (SCORE_SCALE as int) * (SCORE_SCALE as int)
            && 0 <= (w_sem as int) * (norm_sem as int) && 0 <= (w_full as int) * (norm_full as int))
            by (nonlinear_arith)
            requires
                w_sem <= SCORE_SCALE,
                w_full <= SCORE_SCALE,
                norm_sem <= SCORE_SCALE,
                norm_full <= SCORE_SCALE,
        ;
    }
    let wide = (w_sem as u128) * (norm_sem as u128) + (w_full as u128) * (norm_full as u128);
    let q = wide / (SCORE_SCALE as u128);
    proof {
        let total = (w_sem as int) * (norm_sem as int) + (w_full as int) * (norm_full as int);
        lemma_div_is_ordered(
            total,
            2 * (SCORE_SCALE as int) * (SCORE_SCALE as int),
            SCORE_SCALE as int,
        );
        assert(2 * (SCORE_SCALE as int) * (SCORE_SCALE as int) / (SCORE_SCALE as int) == 2 * (
        SCORE_SCALE as int)) by (nonlinear_arith);
        assert(q as int == total / (SCORE_SCALE as int));
    }
    q as u64
}

/// A score biased by a chunk's weight: neutral weight leaves it unchanged.
pub open spec fn spec_weighted(score: int, weight: int) -> int {
    score * weight / (WEIGHT_SCALE as int)
}

/// Computes [`spec_weighted`].
pub fn apply_weight(score: u64, weight: u32) -> (r: u64)
    requires
        score <= u32::MAX as u64,
    ensures
        r == spec_weighted(score as int, weight as int),
{
    proof {
        lemma_u64_mul_fits(score, weight as u64);
    }
    let wide = (score as u128) * (weight as u128);
    let q = wide / (WEIGHT_SCALE as u128);
    proof {
        assert((score as int) * (weight as int) <= (u32::MAX as int) * (u32::MAX as int))
            by (nonlinear_arith)
            requires
                score <= u32::MAX as u64,
                weight <= u32::MAX,
        ;
        lemma_div_is_ordered(
            (score as int) * (weight as int),
            (u32::MAX as int) * (u32::MAX as int),
            WEIGHT_SCALE as int,
        );
        assert(q as int == (score as int) * (weight as int) / (WEIGHT_SCALE as int));
    }
    q as u64
}

/// A score decayed by the age of its chunk's timestamp: unchanged at or
/// before age zero, and dividing away as age grows.
pub open spec fn spec_recency(score: int, age: int) -> int {
    if age <= 0 {
        score
    } else {
        score * (RECENCY_SCALE as int) / (RECENCY_SCALE as int + age)
    }
}

/// Computes [`spec_recency`] for the age `now - ts`; the result never
/// exceeds the score it biases.
pub fn apply_recency(score: u64, now: i64, ts: i64) -> (r: u64)
    ensures
        r == spec_recency(score as int, now - ts),
        r <= score,
{
    let age = (now as i128) - (ts as i128);
    if age <= 0 {
        return score;
    }
    proof {
        lemma_u64_mul_fits(score, RECENCY_SCALE);
    }
    let denom = (RECENCY_SCALE as u128) + (age as u128);
    let wide = (score as u128) * (RECENCY_SCALE as u128);
    let q = wide / denom;
    proof {
        let sc = score as int;
        let h = RECENCY_SCALE as int;
        let a = now - ts;
        assert(sc * h >= 0) by (nonlinear_arith)
            requires
                sc >= 0,
                h >= 0,
        ;
        lemma_div_is_ordered_by_denominator(sc * h, h, h + a);
        assert(sc * h / h == sc) by (nonlinear_arith)
            requires
                h >= 1,
        ;
        assert(q as int == sc * h / (h + a));
    }
    q as u64
}

/// Law: the recency bias is monotone — of two chunks with the same raw
/// score, the one with the older timestamp (the larger age) never ends up
/// above the newer one.
pub proof fn lemma_recency_monotone(score: int, age_newer: int, age_older: int)
    requires
        0 <= score,
        age_newer <= age_older,
    ensures
        spec_recency(score, age_older) <= spec_recency(score, age_newer),
{
    let h = RECENCY_SCALE as int;
    assert(score * h >= 0) by (nonlinear_arith)
        requires
            score >= 0,
            h >= 0,
    ;
    if age_newer <= 0 && age_older <= 0 {
    } else if age_newer <= 0 {
        lemma_div_is_ordered_by_denominator(score * h, h, h + age_older);
        assert(score * h / h == score) by (nonlinear_arith)
            requires
                h >= 1,
        ;
    } else {
        lemma_div_is_ordered_by_denominator(score * h, h + age_newer, h + age_older);
    }
}

} // verus!
