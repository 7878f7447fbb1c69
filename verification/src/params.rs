//! The parameter snapshot that the effect reads for each block.
//!
//! Real-valued parameters are held as binary32 bit patterns.

use vstd::prelude::*;
use crate::binary32::{key, order_key};
use crate::delay_line::{MAX_LENGTH, MIN_LENGTH};
use crate::shaper::ShaperCurve;

verus! {

/// Bit pattern of 0.0.
pub const ZERO: u32 = 0x0000_0000;

/// Bit pattern of 0.1.
pub const ONE_TENTH: u32 = 0x3DCC_CCCD;

/// Bit pattern of 0.5.
pub const ONE_HALF: u32 = 0x3F00_0000;

/// Bit pattern of 1.0.
pub const ONE: u32 = 0x3F80_0000;

/// Bit pattern of -1.0.
pub const MINUS_ONE: u32 = 0xBF80_0000;

/// Bit pattern of 1.2.
pub const SIX_FIFTHS: u32 = 0x3F99_999A;

/// Bit pattern of 10.0.
pub const TEN: u32 = 0x4120_0000;

/// Bit pattern of 24.0.
pub const TWENTY_FOUR: u32 = 0x41C0_0000;

/// Largest magnitude of the honk head's acceleration.
pub const MAX_ACCELERATION: i32 = 1000;

/// The value of `bits` lies between those of `low` and `high`, ends
/// included. With finite bounds no NaN does.
pub open spec fn within(bits: u32, low: u32, high: u32) -> bool {
    order_key(low) <= order_key(bits) <= order_key(high)
}

/// Tests `within`.
pub fn is_within(bits: u32, low: u32, high: u32) -> (b: bool)
    ensures
        b == within(bits, low, high),
{
    let at = key(bits);
    key(low) <= at && at <= key(high)
}

/// One reading of every parameter of the effect.
#[derive(Clone, Copy, Debug, PartialEq, Eq)]
pub struct EvenPogParams {
    /// Pass the input through untouched.
    pub bypass: bool,
    /// Gain of the unprocessed input in the output, 0 to 1.
    pub mix_dry: u32,
    /// Gain of the slur head's tap, 0 to 1.
    pub mix_slur: u32,
    /// Gain of the honk head's tap, 0 to 1.
    pub mix_hfj: u32,
    /// Logical length of the delay line in samples, 16 to 16384.
    pub buffer_length: i32,
    /// Change of the honk head's rate per sample, -1000 to 1000.
    pub buffer_acceleration: i32,
    /// Factor by which the slur head's position grows per sample, 0.1 to 10.
    pub slur_multiplier: u32,
    /// Value of the shaper curve at -1.
    pub shavevapor_y0: u32,
    /// Value of the shaper curve at -0.8.
    pub shavevapor_y1: u32,
    /// Value of the shaper curve at -0.6.
    pub shavevapor_y2: u32,
    /// Value of the shaper curve at -0.4.
    pub shavevapor_y3: u32,
    /// Value of the shaper curve at -0.2.
    pub shavevapor_y4: u32,
    /// Value of the shaper curve at 0.2.
    pub shavevapor_y5: u32,
    /// Value of the shaper curve at 0.4.
    pub shavevapor_y6: u32,
    /// Value of the shaper curve at 0.6.
    pub shavevapor_y7: u32,
    /// Value of the shaper curve at 0.8.
    pub shavevapor_y8: u32,
    /// Value of the shaper curve at 1.
    pub shavevapor_y9: u32,
    /// Gain of the shaped signal in the output, 0.1 to 24.
    pub gain: u32,
}

impl EvenPogParams {
    /// The parameters as the effect starts out with them.
    pub open spec fn defaults() -> EvenPogParams {
        EvenPogParams {
            bypass: false,
            mix_dry: ONE_HALF,
            mix_slur: ONE_HALF,
            mix_hfj: ONE_HALF,
            buffer_length: 512,
            buffer_acceleration: 10,
            slur_multiplier: SIX_FIFTHS,
            shavevapor_y0: 0xBF80_0000,
            shavevapor_y1: 0xBF4C_CCCD,
            shavevapor_y2: 0xBF19_999A,
            shavevapor_y3: 0xBECC_CCCD,
            shavevapor_y4: 0xBE4C_CCCD,
            shavevapor_y5: 0x3E4C_CCCD,
            shavevapor_y6: 0x3ECC_CCCD,
            shavevapor_y7: 0x3F19_999A,
            shavevapor_y8: 0x3F4C_CCCD,
            shavevapor_y9: 0x3F80_0000,
            gain: ONE,
        }
    }

    /// The delay length is one the delay line can take.
    pub open spec fn length_in_range(&self) -> bool {
        MIN_LENGTH <= self.buffer_length <= MAX_LENGTH
    }

    /// The ten breakpoint multipliers, lowest node first.
    pub open spec fn breakpoints(&self) -> Seq<u32> {
        seq![
            self.shavevapor_y0,
            self.shavevapor_y1,
            self.shavevapor_y2,
            self.shavevapor_y3,
            self.shavevapor_y4,
            self.shavevapor_y5,
            self.shavevapor_y6,
            self.shavevapor_y7,
            self.shavevapor_y8,
            self.shavevapor_y9,
        ]
    }

    /// Every parameter lies in its range.
    pub open spec fn valid(&self) -> bool {
        &&& within(self.mix_dry, ZERO, ONE)
        &&& within(self.mix_slur, ZERO, ONE)
        &&& within(self.mix_hfj, ZERO, ONE)
        &&& self.length_in_range()
        &&& -MAX_ACCELERATION <= self.buffer_acceleration <= MAX_ACCELERATION
        &&& within(self.slur_multiplier, ONE_TENTH, TEN)
        &&& forall|i: int| 0 <= i < 10 ==> within(#[trigger] self.breakpoints()[i], MINUS_ONE, ONE)
        &&& within(self.gain, ONE_TENTH, TWENTY_FOUR)
    }

    /// The default parameters: processing on, the three mix gains at 0.5, a
    /// delay of 512 samples, an acceleration of 10, a slur multiplier of 1.2,
    /// the identity curve outside the dead zone, and unit gain.
    pub fn new() -> (params: EvenPogParams)
        ensures
            params == Self::defaults(),
            params.valid(),
    {
        let params = EvenPogParams {
            bypass: false,
            mix_dry: ONE_HALF,
            mix_slur: ONE_HALF,
            mix_hfj: ONE_HALF,
            buffer_length: 512,
            buffer_acceleration: 10,
            slur_multiplier: SIX_FIFTHS,
            shavevapor_y0: 0xBF80_0000,
            shavevapor_y1: 0xBF4C_CCCD,
            shavevapor_y2: 0xBF19_999A,
            shavevapor_y3: 0xBECC_CCCD,
            shavevapor_y4: 0xBE4C_CCCD,
            shavevapor_y5: 0x3E4C_CCCD,
            shavevapor_y6: 0x3ECC_CCCD,
            shavevapor_y7: 0x3F19_999A,
            shavevapor_y8: 0x3F4C_CCCD,
            shavevapor_y9: 0x3F80_0000,
            gain: ONE,
        };
        assert(params.valid()) by {
            let b = params.breakpoints();
            assert(within(b[0], MINUS_ONE, ONE));
            assert(within(b[1], MINUS_ONE, ONE));
            assert(within(b[2], MINUS_ONE, ONE));
            assert(within(b[3], MINUS_ONE, ONE));
            assert(within(b[4], MINUS_ONE, ONE));
            assert(within(b[5], MINUS_ONE, ONE));
            assert(within(b[6], MINUS_ONE, ONE));
            assert(within(b[7], MINUS_ONE, ONE));
            assert(within(b[8], MINUS_ONE, ONE));
            assert(within(b[9], MINUS_ONE, ONE));
        }
        params
    }

    /// Tests whether every parameter lies in its range.
    pub fn is_valid(&self) -> (ok: bool)
        ensures
            ok == self.valid(),
    {
        let curve = self.curve_multipliers();
        let mut breakpoints_ok = true;
        let mut i: usize = 0;
        while i < 10
            invariant
                i <= 10,
                curve@ == self.breakpoints(),
                breakpoints_ok == (forall|j: int|
                    0 <= j < i ==> within(#[trigger] self.breakpoints()[j], MINUS_ONE, ONE)),
            decreases 10 - i,
        {
            if !is_within(curve[i], MINUS_ONE, ONE) {
                breakpoints_ok = false;
            }
            i = i + 1;
        }
        is_within(self.mix_dry, ZERO, ONE) && is_within(self.mix_slur, ZERO, ONE) && is_within(
            self.mix_hfj,
            ZERO,
            ONE,
        ) && MIN_LENGTH as i32 <= self.buffer_length && self.buffer_length <= MAX_LENGTH as i32
            && -MAX_ACCELERATION <= self.buffer_acceleration && self.buffer_acceleration
            <= MAX_ACCELERATION && is_within(self.slur_multiplier, ONE_TENTH, TEN)
            && breakpoints_ok && is_within(self.gain, ONE_TENTH, TWENTY_FOUR)
    }

    /// The ten breakpoint multipliers as an array, lowest node first.
    pub fn curve_multipliers(&self) -> (m: [u32; 10])
        ensures
            m@ == self.breakpoints(),
    {
        let m = [
            self.shavevapor_y0,
            self.shavevapor_y1,
            self.shavevapor_y2,
            self.shavevapor_y3,
            self.shavevapor_y4,
            self.shavevapor_y5,
            self.shavevapor_y6,
            self.shavevapor_y7,
            self.shavevapor_y8,
            self.shavevapor_y9,
        ];
        assert(m@ =~= self.breakpoints());
        m
    }

    /// The shaper curve that the breakpoint parameters describe.
    pub fn curve(&self) -> (curve: ShaperCurve)
        ensures
            curve@ == self.breakpoints(),
    {
        ShaperCurve::new(self.curve_multipliers())
    }
}

} // verus!
