//! Exponential half-life decay over integer scores.
//!
//! A score is a non-negative fixed-point integer. After `k` whole
//! half-lives it has been halved (with flooring) `k` times; inside a
//! half-life the value falls linearly from the base of the segment to
//! half of it, so the decay is monotone in elapsed time and never
//! exceeds the score it started from.

use vstd::prelude::*;

verus! {

use vstd::arithmetic::div_mod::{
    lemma_div_is_ordered,
    lemma_div_pos_is_pos,
    lemma_fundamental_div_mod,
    lemma_mod_division_less_than_divisor,
};
use vstd::arithmetic::mul::lemma_mul_inequality;

/// `s` halved (flooring) `k` times.
pub open spec fn halvings(s: int, k: nat) -> int
    decreases k,
{
    if k == 0 {
        s
    } else {
        halvings(s, (k - 1) as nat) / 2
    }
}

pub proof fn lemma_halvings_bounds(s: int, k: nat)
    requires
        0 <= s,
    ensures
        0 <= halvings(s, k) <= s,
    decreases k,
{
    if k > 0 {
        lemma_halvings_bounds(s, (k - 1) as nat);
    }
}

pub proof fn lemma_halvings_antitone(s: int, k1: nat, k2: nat)
    requires
        0 <= s,
        k1 <= k2,
    ensures
        halvings(s, k2) <= halvings(s, k1),
    decreases k2 - k1,
{
    if k2 > k1 {
        lemma_halvings_antitone(s, k1, (k2 - 1) as nat);
        lemma_halvings_bounds(s, (k2 - 1) as nat);
    }
}

/// The base of the decay segment that `elapsed` falls in: the score
/// after every whole half-life that has passed.
pub open spec fn segment_base(score: u64, elapsed: u64, half_life: u64) -> int {
    halvings(score as int, (elapsed as int / half_life as int) as nat)
}

/// The decayed value of `score` after `elapsed` time units, with a
/// half-life of `half_life` units: the segment base, lowered linearly
/// towards its half as the remainder of the half-life runs out.
pub open spec fn decay_spec(score: u64, elapsed: u64, half_life: u64) -> int {
    let b = segment_base(score, elapsed, half_life);
    let r = (elapsed as int) % (half_life as int);
    b - ((b - b / 2) * r) / (half_life as int)
}

/// The decayed value stays between half the segment base and the
/// segment base, hence between 0 and the original score.
pub proof fn lemma_decay_bounds(score: u64, elapsed: u64, half_life: u64)
    requires
        half_life >= 1,
    ensures
        segment_base(score, elapsed, half_life) / 2
            <= decay_spec(score, elapsed, half_life)
            <= segment_base(score, elapsed, half_life),
        0 <= decay_spec(score, elapsed, half_life) <= score,
{
    let h = half_life as int;
    let b = segment_base(score, elapsed, half_life);
    let r = (elapsed as int) % h;
    let hb = b - b / 2;
    lemma_halvings_bounds(score as int, (elapsed as int / h) as nat);
    lemma_mod_division_less_than_divisor(elapsed as int, h);
    // 0 <= (hb * r) / h
    lemma_div_pos_is_pos(hb * r, h);
    assert(hb * r >= 0) by {
        lemma_mul_inequality(0, r, hb);
    }
    // (hb * r) / h <= hb, since hb * r <= hb * h
    assert(hb * r <= h * hb) by {
        lemma_mul_inequality(r, h, hb);
    }
    assert((h * hb) / h == hb) by {
        vstd::arithmetic::div_mod::lemma_div_multiples_vanish(hb, h);
    }
    lemma_div_is_ordered(hb * r, h * hb, h);
}

/// Decay is antitone in elapsed time: more elapsed time never yields a
/// larger decayed value.
pub proof fn lemma_decay_antitone(score: u64, e1: u64, e2: u64, half_life: u64)
    requires
        half_life >= 1,
        e1 <= e2,
    ensures
        decay_spec(score, e2, half_life) <= decay_spec(score, e1, half_life),
{
    let h = half_life as int;
    let k1 = e1 as int / h;
    let k2 = e2 as int / h;
    let r1 = (e1 as int) % h;
    let r2 = (e2 as int) % h;
    let b1 = segment_base(score, e1, half_life);
    let b2 = segment_base(score, e2, half_life);
    lemma_div_is_ordered(e1 as int, e2 as int, h);
    lemma_div_pos_is_pos(e1 as int, h);
    lemma_halvings_bounds(score as int, k1 as nat);
    lemma_halvings_bounds(score as int, k2 as nat);
    lemma_decay_bounds(score, e1, half_life);
    lemma_decay_bounds(score, e2, half_life);
    if k1 == k2 {
        // Same segment: the subtracted part grows with the remainder.
        assert(r1 <= r2) by {
            lemma_fundamental_div_mod(e1 as int, h);
            lemma_fundamental_div_mod(e2 as int, h);
        }
        let hb = b1 - b1 / 2;
        assert(hb * r1 <= hb * r2) by {
            lemma_mul_inequality(r1, r2, hb);
        }
        lemma_div_is_ordered(hb * r1, hb * r2, h);
    } else {
        // Later segment: value in segment k1 is at least b1 / 2, which
        // is the base of segment k1 + 1, and bases only shrink.
        assert(halvings(score as int, (k1 + 1) as nat) == b1 / 2);
        lemma_halvings_antitone(score as int, (k1 + 1) as nat, k2 as nat);
    }
}

/// With no elapsed time, nothing decays.
pub proof fn lemma_decay_zero_elapsed(score: u64, half_life: u64)
    requires
        half_life >= 1,
    ensures
        decay_spec(score, 0, half_life) == score,
{
    let h = half_life as int;
    let b = segment_base(score, 0, half_life);
    assert(0int / h == 0) by {
        vstd::arithmetic::div_mod::lemma_div_of0(h);
    }
    assert(b == score);
    assert(0int % h == 0) by {
        vstd::arithmetic::div_mod::lemma_mod_multiples_basic(0, h);
    }
    assert((b - b / 2) * 0 == 0) by {
        vstd::arithmetic::mul::lemma_mul_basics(b - b / 2);
    }
}

/// After exactly one half-life the score has exactly halved (flooring).
pub proof fn lemma_decay_half_life(score: u64, half_life: u64)
    requires
        half_life >= 1,
    ensures
        decay_spec(score, half_life, half_life) == score as int / 2,
{
    let h = half_life as int;
    assert(h / h == 1) by {
        vstd::arithmetic::div_mod::lemma_div_by_self(h);
    }
    assert(h % h == 0) by {
        vstd::arithmetic::div_mod::lemma_mod_self_0(h);
    }
    let b = segment_base(score, half_life, half_life);
    assert(b == halvings(score as int, 1nat));
    assert(halvings(score as int, 0nat) == score as int);
    assert(halvings(score as int, 1nat) == halvings(score as int, 0nat) / 2);
    assert(b == score as int / 2);
    assert((b - b / 2) * 0 == 0) by {
        vstd::arithmetic::mul::lemma_mul_basics(b - b / 2);
    }
    assert(0int / h == 0) by {
        vstd::arithmetic::div_mod::lemma_div_of0(h);
    }
}

/// Decayed value of `score` after `elapsed` time units.
pub fn decay(score: u64, elapsed: u64, half_life: u64) -> (r: u64)
    requires
        half_life >= 1,
    ensures
        r as int == decay_spec(score, elapsed, half_life),
        r <= score,
{
    proof {
        lemma_decay_bounds(score, elapsed, half_life);
    }
    let k = elapsed / half_life;
    let rem = elapsed % half_life;
    let mut b: u64 = score;
    let mut i: u64 = 0;
    while i < k && b > 0
        invariant
            i <= k,
            b as int == halvings(score as int, i as nat),
            half_life >= 1,
            k == elapsed as int / half_life as int,
        decreases k - i,
    {
        b = b / 2;
        i = i + 1;
    }
    proof {
        lemma_halvings_bounds(score as int, i as nat);
        lemma_halvings_antitone(score as int, i as nat, k as nat);
        lemma_halvings_bounds(score as int, k as nat);
        // Either the loop ran to k, or the base hit zero and stays zero.
        assert(b as int == halvings(score as int, k as nat));
    }
    let hb: u64 = b - b / 2;
    proof {
        assert(hb as int * rem as int <= u64::MAX as int * u64::MAX as int) by {
            vstd::arithmetic::mul::lemma_mul_upper_bound(
                hb as int,
                u64::MAX as int,
                rem as int,
                u64::MAX as int,
            );
        }
    }
    let num: u128 = (hb as u128) * (rem as u128);
    let dec: u64 = (num / (half_life as u128)) as u64;
    proof {
        let h = half_life as int;
        lemma_mod_division_less_than_divisor(elapsed as int, h);
        lemma_div_pos_is_pos(hb as int * rem as int, h);
        assert(hb as int * rem as int >= 0) by {
            lemma_mul_inequality(0, rem as int, hb as int);
        }
        assert(hb as int * rem as int <= h * hb as int) by {
            lemma_mul_inequality(rem as int, h, hb as int);
        }
        assert((h * hb as int) / h == hb as int) by {
            vstd::arithmetic::div_mod::lemma_div_multiples_vanish(hb as int, h);
        }
        lemma_div_is_ordered(hb as int * rem as int, h * hb as int, h);
        assert(num == hb as int * rem as int);
        assert(num as int / half_life as int == hb as int * rem as int / h);
    }
    b - dec
}

} // verus!
