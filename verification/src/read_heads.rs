//! The two read cursors of the delay line and the rules by which they move.
//!
//! The *slur* head jumps to the integer part of its own position times a
//! real multiplier, which lets it run away or collapse. The *honk* head
//! sweeps backwards at a rate that itself accelerates and wraps.

use vstd::prelude::*;
use vstd::arithmetic::power2::*;
use crate::binary32::{
    exponent_field, fields, fraction_field, is_infinite, is_nan, is_negative,
    lemma_round_units_scaled, magnitude_units, power_of_two, round_to_significand, round_units,
    significand, unit_shift, FRACTION_SPAN, SIGNIFICAND_SPAN, UNIT_EXPONENT,
};

verus! {

/// The honk head's rate wraps at this value.
pub const RATE_MODULUS: u32 = 22050;

/// Positions stay below this bound, 2^24: up to here every integer is a
/// binary32 value, so a position enters the slur product unrounded.
pub const POSITION_LIMIT: usize = 0x100_0000;

/// Bit pattern of 0.1, below which the slur candidate counts as stalled.
pub const STALL_THRESHOLD: u32 = 0x3DCC_CCCD;

/// Position from which a stalled slur head restarts.
pub const RESTART_POSITION: usize = 1;

/// Significand of [`STALL_THRESHOLD`].
pub const STALL_SIGNIFICAND: u64 = 13421773;

/// The slur candidate for a finite multiplier that is not negative, in units
/// of 2^-149: the binary32 product of `position` and the multiplier.
pub open spec fn candidate_units(position: nat, multiplier: u32) -> nat
    recommends
        position < POSITION_LIMIT,
{
    round_units(position * magnitude_units(multiplier))
}

/// Integer part of a candidate of `candidate` units: 1 where the candidate
/// is less than 0.1 and restarts from 1.0, else the whole units of 2^149,
/// at most `usize::MAX`.
pub open spec fn settle(candidate: nat) -> nat {
    let whole = candidate / pow2(UNIT_EXPONENT as nat);
    if candidate < magnitude_units(STALL_THRESHOLD) {
        RESTART_POSITION as nat
    } else if whole > usize::MAX {
        usize::MAX as nat
    } else {
        whole
    }
}

/// Integer part of the slur candidate, converted as a cast to `usize`
/// converts it.
///
/// The candidate is the binary32 product of `position` and the multiplier,
/// replaced by 1.0 where it is less than 0.1. A NaN candidate is not less
/// than 0.1 and converts to 0; one beyond the range of `usize`, infinity
/// included, converts to `usize::MAX`.
pub open spec fn slur_candidate_floor(position: nat, multiplier: u32) -> nat
    recommends
        position < POSITION_LIMIT,
{
    if is_nan(multiplier) {
        0
    } else if is_infinite(multiplier) {
        if position == 0 {
            0
        } else if is_negative(multiplier) {
            RESTART_POSITION as nat
        } else {
            usize::MAX as nat
        }
    } else if is_negative(multiplier) {
        RESTART_POSITION as nat
    } else {
        settle(candidate_units(position, multiplier))
    }
}

/// Absolute value.
pub open spec fn magnitude(x: int) -> nat {
    if x < 0 {
        (-x) as nat
    } else {
        x as nat
    }
}

/// The honk rate that follows `rate` under `acceleration`.
pub open spec fn next_rate(rate: nat, acceleration: int) -> nat {
    magnitude(rate + acceleration) % (RATE_MODULUS as nat)
}

/// The mathematical content of a [`ReadHeadScheduler`].
pub struct Heads {
    /// Position of the slur head.
    pub slur: nat,
    /// Position of the honk head.
    pub hfj: nat,
    /// Samples by which the honk head steps back.
    pub rate: nat,
}

impl Heads {
    /// Both positions are below [`POSITION_LIMIT`] and the rate is below
    /// [`RATE_MODULUS`].
    pub open spec fn wf(self) -> bool {
        &&& self.slur < POSITION_LIMIT
        &&& self.hfj < POSITION_LIMIT
        &&& self.rate < RATE_MODULUS
    }

    /// Ring index that the slur head reads in a ring of `length` cells.
    pub open spec fn slur_index(self, length: nat) -> nat {
        self.slur % length
    }

    /// Ring index that the honk head reads in a ring of `length` cells.
    pub open spec fn hfj_index(self, length: nat) -> nat {
        self.hfj % length
    }

    /// The heads one sample later, in a ring of `length` cells.
    pub open spec fn advance(self, length: nat, multiplier: u32, acceleration: int) -> Heads {
        Heads {
            slur: slur_candidate_floor(self.slur_index(length), multiplier) % length,
            hfj: ((length + self.hfj - self.rate) % (length as int)) as nat,
            rate: next_rate(self.rate, acceleration),
        }
    }
}

/// Whatever the multiplier and the acceleration, and wherever the heads
/// stood before, a step leaves both heads inside the ring and the rate below
/// its modulus.
pub proof fn lemma_advance_stays_in_ring(
    heads: Heads,
    length: nat,
    multiplier: u32,
    acceleration: int,
)
    requires
        0 < length,
    ensures
        heads.advance(length, multiplier, acceleration).slur < length,
        heads.advance(length, multiplier, acceleration).hfj < length,
        heads.advance(length, multiplier, acceleration).rate < RATE_MODULUS,
        length <= POSITION_LIMIT ==> heads.advance(length, multiplier, acceleration).wf(),
{
    vstd::arithmetic::div_mod::lemma_mod_bound(
        slur_candidate_floor(heads.slur_index(length), multiplier) as int,
        length as int,
    );
    vstd::arithmetic::div_mod::lemma_mod_bound(length + heads.hfj - heads.rate, length as int);
    vstd::arithmetic::div_mod::lemma_mod_bound(
        magnitude(heads.rate + acceleration) as int,
        RATE_MODULUS as int,
    );
}

/// The threshold is 13421773 units of 2^-27, which is 2^122 units of 2^-149
/// each.
proof fn lemma_threshold_units()
    ensures
        magnitude_units(STALL_THRESHOLD) == STALL_SIGNIFICAND * pow2(122),
        0 < magnitude_units(STALL_THRESHOLD) < pow2(UNIT_EXPONENT as nat),
{
    assert(exponent_field(STALL_THRESHOLD) == 123);
    assert(fraction_field(STALL_THRESHOLD) == 0x4C_CCCD);
    lemma2_to64();
    lemma_pow2_pos(122);
    lemma_pow2_adds(27, 122);
    assert(0 < 13421773 * pow2(122) < 0x800_0000 * pow2(122)) by (nonlinear_arith)
        requires
            pow2(122) > 0,
    ;
}

/// The product of a position and a finite multiplier, rounded: the rounded
/// product of position and significand, scaled by the multiplier's shift.
proof fn lemma_candidate_units(position: nat, multiplier: u32)
    ensures
        candidate_units(position, multiplier) == round_units(position * significand(multiplier))
            * pow2(unit_shift(multiplier)),
{
    let m = significand(multiplier);
    let k = unit_shift(multiplier);
    assert(position * (m * pow2(k)) == (position * m) * pow2(k)) by (nonlinear_arith);
    lemma_round_units_scaled(position * m, k);
}

/// A candidate with fewer than 122 digits after its significand is below
/// the threshold.
proof fn lemma_settle_below(kept: nat, scale: nat)
    requires
        kept <= SIGNIFICAND_SPAN,
        scale < 122,
    ensures
        settle(kept * pow2(scale)) == RESTART_POSITION,
{
    lemma_threshold_units();
    if scale < 121 {
        lemma_pow2_strictly_increases(scale, 121);
    }
    lemma_pow2_unfold(122);
    lemma_pow2_pos(121);
    vstd::arithmetic::mul::lemma_mul_upper_bound(
        kept as int,
        0x100_0000,
        pow2(scale) as int,
        pow2(121) as int,
    );
    assert(0x100_0000 * pow2(121) < 13421773 * (2 * pow2(121))) by (nonlinear_arith)
        requires
            pow2(121) > 0,
    ;
}

/// A candidate below one: it is compared with the threshold after both are
/// divided by 2^122, and its integer part is the significand shifted down.
proof fn lemma_settle_fraction(kept: nat, scale: nat)
    requires
        kept <= SIGNIFICAND_SPAN,
        122 <= scale < UNIT_EXPONENT,
    ensures
        kept * pow2((scale - 122) as nat) <= 0x100_0000 * 0x400_0000,
        pow2((UNIT_EXPONENT - scale) as nat) > 0,
        settle(kept * pow2(scale)) == if kept * pow2((scale - 122) as nat) < STALL_SIGNIFICAND {
            RESTART_POSITION as nat
        } else {
            kept / pow2((UNIT_EXPONENT - scale) as nat)
        },
{
    let up = (scale - 122) as nat;
    let down = (UNIT_EXPONENT - scale) as nat;
    let candidate = kept * pow2(scale);
    let scaled = kept * pow2(up);
    lemma_threshold_units();
    lemma2_to64();
    if up < 26 {
        lemma_pow2_strictly_increases(up, 26);
    }
    lemma_pow2_adds(up, 122);
    lemma_pow2_adds(scale, down);
    lemma_pow2_pos(scale);
    lemma_pow2_pos(down);
    lemma_pow2_pos(122);
    assert(scaled <= 0x100_0000 * 0x400_0000) by (nonlinear_arith)
        requires
            scaled == kept * pow2(up),
            kept <= 0x100_0000,
            pow2(up) <= 0x400_0000,
    ;
    assert(candidate == scaled * pow2(122)) by (nonlinear_arith)
        requires
            candidate == kept * pow2(scale),
            pow2(scale) == pow2(up) * pow2(122),
            scaled == kept * pow2(up),
    ;
    assert((candidate < 13421773 * pow2(122)) == (scaled < 13421773)) by (nonlinear_arith)
        requires
            candidate == scaled * pow2(122),
            pow2(122) > 0,
    ;
    let a = pow2(scale) as int;
    let b = pow2(down) as int;
    assert(candidate == a * kept) by (nonlinear_arith)
        requires
            candidate == kept * pow2(scale),
            a == pow2(scale),
    ;
    vstd::arithmetic::div_mod::lemma_div_denominator(candidate as int, a, b);
    vstd::arithmetic::div_mod::lemma_div_multiples_vanish(kept as int, a);
    assert(candidate / pow2(UNIT_EXPONENT as nat) == kept / pow2(down));
    vstd::arithmetic::div_mod::lemma_div_nonincreasing(kept as int, b);
}

/// A candidate of one or more: it is not below the threshold, and it is a
/// whole number, the significand shifted up. A candidate of zero is below
/// the threshold.
proof fn lemma_settle_whole(kept: nat, scale: nat)
    requires
        scale >= UNIT_EXPONENT,
    ensures
        settle(kept * pow2(scale)) == if kept == 0 {
            RESTART_POSITION as nat
        } else if kept * pow2((scale - UNIT_EXPONENT) as nat) > usize::MAX {
            usize::MAX as nat
        } else {
            kept * pow2((scale - UNIT_EXPONENT) as nat)
        },
        scale - UNIT_EXPONENT >= 64 && kept > 0 ==> kept * pow2((scale - UNIT_EXPONENT) as nat)
            > usize::MAX,
{
    let up = (scale - UNIT_EXPONENT) as nat;
    let one = pow2(UNIT_EXPONENT as nat);
    let candidate = kept * pow2(scale);
    let whole = kept * pow2(up);
    lemma_threshold_units();
    lemma_pow2_adds(up, UNIT_EXPONENT as nat);
    lemma_pow2_pos(up);
    lemma_pow2_pos(UNIT_EXPONENT as nat);
    assert(candidate == one * whole) by (nonlinear_arith)
        requires
            candidate == kept * pow2(scale),
            pow2(scale) == pow2(up) * one,
            whole == kept * pow2(up),
    ;
    vstd::arithmetic::div_mod::lemma_div_multiples_vanish(whole as int, one as int);
    if kept == 0 {
        assert(whole == 0) by (nonlinear_arith)
            requires
                whole == kept * pow2(up),
                kept == 0,
        ;
        assert(candidate == 0) by (nonlinear_arith)
            requires
                candidate == one * whole,
                whole == 0,
        ;
    } else {
        assert(whole >= pow2(up)) by (nonlinear_arith)
            requires
                whole == kept * pow2(up),
                kept >= 1,
        ;
        assert(candidate >= one) by (nonlinear_arith)
            requires
                candidate == one * whole,
                whole >= 1,
                one > 0,
        ;
        if up >= 64 {
            lemma2_to64();
            if up > 64 {
                lemma_pow2_strictly_increases(64, up);
            }
        }
    }
}

/// `slur_candidate_floor`, computed on integers.
pub fn slur_floor(position: usize, multiplier: u32) -> (whole: usize)
    requires
        position < POSITION_LIMIT,
    ensures
        whole == slur_candidate_floor(position as nat, multiplier),
{
    let f = fields(multiplier);
    if f.exponent == 255 {
        if f.fraction != 0 || position == 0 {
            return 0;
        }
        return if f.negative {
            RESTART_POSITION
        } else {
            usize::MAX
        };
    }
    if f.negative {
        return RESTART_POSITION;
    }
    let digits: u64 = if f.exponent == 0 {
        f.fraction as u64
    } else {
        (FRACTION_SPAN + f.fraction) as u64
    };
    let shift: u32 = if f.exponent == 0 {
        0
    } else {
        f.exponent - 1
    };
    assert(position as u64 * digits < 0x1_0000_0000_0000) by (nonlinear_arith)
        requires
            position < 0x100_0000,
            digits < 0x100_0000,
    ;
    let r = round_to_significand(position as u64 * digits);
    let kept: u64 = r.significand;
    let scale: u32 = r.dropped + shift;
    proof {
        lemma_candidate_units(position as nat, multiplier);
        lemma_pow2_adds(r.dropped as nat, shift as nat);
        assert(candidate_units(position as nat, multiplier) == kept * pow2(scale as nat))
            by (nonlinear_arith)
            requires
                candidate_units(position as nat, multiplier) == round_units(
                    (position * digits) as nat,
                ) * pow2(shift as nat),
                round_units((position * digits) as nat) == kept * pow2(r.dropped as nat),
                pow2(scale as nat) == pow2(r.dropped as nat) * pow2(shift as nat),
        ;
    }
    if scale < 122 {
        proof {
            lemma_settle_below(kept as nat, scale as nat);
        }
        RESTART_POSITION
    } else if scale < UNIT_EXPONENT {
        proof {
            lemma_settle_fraction(kept as nat, scale as nat);
        }
        if kept * power_of_two(scale - 122) < STALL_SIGNIFICAND {
            RESTART_POSITION
        } else {
            (kept / power_of_two(UNIT_EXPONENT - scale)) as usize
        }
    } else if kept == 0 {
        proof {
            lemma_settle_whole(kept as nat, scale as nat);
        }
        RESTART_POSITION
    } else if scale - UNIT_EXPONENT >= 64 {
        proof {
            lemma_settle_whole(kept as nat, scale as nat);
        }
        usize::MAX
    } else {
        let factor: u64 = power_of_two(scale - UNIT_EXPONENT);
        assert(kept as u128 * factor as u128 <= 0x100_0000 * 0xFFFF_FFFF_FFFF_FFFF)
            by (nonlinear_arith)
            requires
                kept <= 0x100_0000,
                factor <= 0xFFFF_FFFF_FFFF_FFFF,
        ;
        proof {
            lemma_settle_whole(kept as nat, scale as nat);
        }
        let wide: u128 = kept as u128 * factor as u128;
        if wide > usize::MAX as u128 {
            usize::MAX
        } else {
            wide as usize
        }
    }
}

/// The two read cursors and the honk head's rate.
pub struct ReadHeadScheduler {
    slur_position: usize,
    hfj_position: usize,
    hfj_rate: u32,
}

impl View for ReadHeadScheduler {
    type V = Heads;

    closed spec fn view(&self) -> Heads {
        Heads {
            slur: self.slur_position as nat,
            hfj: self.hfj_position as nat,
            rate: self.hfj_rate as nat,
        }
    }
}

impl ReadHeadScheduler {
    /// Well-formedness: that of the heads it holds.
    pub open spec fn wf(&self) -> bool {
        self@.wf()
    }

    /// Both heads at cell 0, the honk head at rest.
    pub fn new() -> (heads: ReadHeadScheduler)
        ensures
            heads.wf(),
            heads@ == (Heads { slur: 0, hfj: 0, rate: 0 }),
    {
        ReadHeadScheduler { slur_position: 0, hfj_position: 0, hfj_rate: 0 }
    }

    /// Position of the slur head.
    pub fn slur_position(&self) -> (p: usize)
        ensures
            p == self@.slur,
    {
        self.slur_position
    }

    /// Position of the honk head.
    pub fn hfj_position(&self) -> (p: usize)
        ensures
            p == self@.hfj,
    {
        self.hfj_position
    }

    /// Rate of the honk head.
    pub fn hfj_rate(&self) -> (r: u32)
        ensures
            r == self@.rate,
    {
        self.hfj_rate
    }

    /// Ring index that the slur head reads: its position, taken modulo the
    /// length the ring has now.
    pub fn slur_index(&self, length: usize) -> (i: usize)
        requires
            0 < length,
        ensures
            i == self@.slur_index(length as nat),
            i < length,
    {
        self.slur_position % length
    }

    /// Ring index that the honk head reads: its position, taken modulo the
    /// length the ring has now.
    pub fn hfj_index(&self, length: usize) -> (i: usize)
        requires
            0 < length,
        ensures
            i == self@.hfj_index(length as nat),
            i < length,
    {
        self.hfj_position % length
    }

    /// Moves both heads on by one sample and updates the honk rate.
    pub fn advance(&mut self, length: usize, multiplier: u32, acceleration: i32)
        requires
            old(self).wf(),
            0 < length <= POSITION_LIMIT,
        ensures
            final(self).wf(),
            final(self)@ == old(self)@.advance(length as nat, multiplier, acceleration as int),
            final(self)@.slur < length,
            final(self)@.hfj < length,
    {
        let slur_from: usize = self.slur_position % length;
        self.slur_position = slur_floor(slur_from, multiplier) % length;

        let back: usize = (self.hfj_rate as usize) % length;
        let hfj_from: usize = self.hfj_position % length;
        proof {
            let l = length as int;
            let p = self.hfj_position as int;
            let r = self.hfj_rate as int;
            vstd::arithmetic::div_mod::lemma_mod_add_multiples_vanish(p, l);
            vstd::arithmetic::div_mod::lemma_sub_mod_noop(l + p, r, l);
            vstd::arithmetic::div_mod::lemma_mod_add_multiples_vanish(hfj_from - back, l);
        }
        self.hfj_position = (length + hfj_from - back) % length;

        let sum: i64 = self.hfj_rate as i64 + acceleration as i64;
        let size: u64 = if sum < 0 {
            (-sum) as u64
        } else {
            sum as u64
        };
        self.hfj_rate = (size % (RATE_MODULUS as u64)) as u32;
    }
}

} // verus!
