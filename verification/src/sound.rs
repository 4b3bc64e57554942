//! What the library reads of a sound before it hands it to kira, and the
//! test that tells the sounds that kira can start.
//!
//! kira finds the frame to start at, and the frame that a loop goes back
//! to, as a position in seconds times the sample rate, cut down to a whole
//! number, and looks that frame up without a check. The test here works on
//! the bits of the position: it finds a whole number that the frame's index
//! cannot exceed, and asks that this number is the index of a frame.

use vstd::prelude::*;

verus! {

/// What the start of a sound depends on, as plain numbers.
#[derive(Clone, Copy, Debug, PartialEq, Eq, Structural)]
pub struct SoundFacts {
    /// How many frames the sound has.
    pub frames: usize,
    /// How many frames make a second.
    pub sample_rate: u32,
    /// Whether the sound plays from its end to its start.
    pub reverse: bool,
    /// The position to start at, in seconds: the bits of a double.
    pub start_position: u64,
    /// The position that a loop goes back to, in seconds, where the sound
    /// loops: the bits of a double.
    pub loop_start: Option<u64>,
}

/// The bit that makes a double negative.
pub const SIGN_BIT: u64 = 0x8000_0000_0000_0000;

/// One more than the largest fraction field of a double: two to the 52.
pub const FRACTION_END: u64 = 0x10_0000_0000_0000;

/// The exponent field of a double between one and two, plus the 52 places
/// of the fraction: a double with this exponent field is its mantissa.
pub const WHOLE_EXPONENT: u64 = 1075;

/// Two to the 53: up to here every whole number is a double.
pub const FRAME_LIMIT: u64 = 0x20_0000_0000_0000;

/// `value` halved `times` times, rounding up each time: `value` divided by
/// two to the `times`, rounded up.
pub open spec fn halved_up(value: nat, times: nat) -> nat
    decreases times,
{
    if times == 0 {
        value
    } else {
        halved_up((value + 1) / 2, (times - 1) as nat)
    }
}

/// A whole number that the product of the double with the bits `position`
/// and `sample_rate`, cut down to a whole number, cannot exceed; `None`
/// where none below two to the 53 is found.
///
/// A negative double, and any double times zero, gives the index zero.
/// Else the double is a mantissa below two to the 53 times a power of two,
/// and the exact product is the mantissa times the rate times that power:
/// the bound is this product rounded up to a whole number. The product as
/// a double is the exact one rounded to the nearest double, and a whole
/// number below two to the 53 is a double, so the rounded product does not
/// pass the bound. Infinities and what is not a number get no bound.
pub open spec fn spec_frame_bound(position: u64, sample_rate: u32) -> Option<nat> {
    let magnitude = position % SIGN_BIT;
    let exponent = magnitude / FRACTION_END;
    let fraction = magnitude % FRACTION_END;
    let mantissa = if exponent == 0 {
        fraction as nat
    } else {
        (fraction + FRACTION_END) as nat
    };
    let product = mantissa * sample_rate as nat;
    if position >= SIGN_BIT || product == 0 {
        Some(0)
    } else if exponent > WHOLE_EXPONENT {
        None
    } else {
        let times = if exponent == 0 {
            (WHOLE_EXPONENT - 1) as nat
        } else {
            (WHOLE_EXPONENT - exponent) as nat
        };
        let bound = halved_up(product, times);
        if bound < FRAME_LIMIT {
            Some(bound)
        } else {
            None
        }
    }
}

/// Whether the frame at `position` seconds is one of the `frames` frames of
/// a sound, as far as the bound tells.
pub open spec fn within(position: u64, sample_rate: u32, frames: usize) -> bool {
    spec_frame_bound(position, sample_rate) matches Some(bound) && bound < frames
}

/// The bound of `spec_frame_bound`, computed.
pub fn frame_bound(position: u64, sample_rate: u32) -> (bound: Option<u64>)
    ensures
        match bound {
            Some(b) => spec_frame_bound(position, sample_rate) == Some(b as nat),
            None => spec_frame_bound(position, sample_rate) is None,
        },
{
    let magnitude: u64 = position % SIGN_BIT;
    let exponent: u64 = magnitude / FRACTION_END;
    let fraction: u64 = magnitude % FRACTION_END;
    let mantissa: u64 = if exponent == 0 {
        fraction
    } else {
        fraction + FRACTION_END
    };
    assert(mantissa as u128 * sample_rate as u128 <= 0x20_0000_0000_0000 * 0x1_0000_0000)
        by (nonlinear_arith)
        requires
            mantissa < 0x20_0000_0000_0000,
            sample_rate < 0x1_0000_0000,
    ;
    let product: u128 = mantissa as u128 * sample_rate as u128;
    if position >= SIGN_BIT || product == 0 {
        return Some(0);
    }
    if exponent > WHOLE_EXPONENT {
        return None;
    }
    let times: u64 = if exponent == 0 {
        WHOLE_EXPONENT - 1
    } else {
        WHOLE_EXPONENT - exponent
    };
    let mut value: u128 = product;
    let mut done: u64 = 0;
    while done < times
        invariant
            done <= times,
            value <= product,
            product <= 0x20_0000_0000_0000 * 0x1_0000_0000,
            halved_up(value as nat, (times - done) as nat) == halved_up(
                product as nat,
                times as nat,
            ),
        decreases times - done,
    {
        value = (value + 1) / 2;
        done += 1;
    }
    if value < FRAME_LIMIT as u128 {
        Some(value as u64)
    } else {
        None
    }
}

impl SoundFacts {
    /// Whether kira can start a sound of which these are the facts: the
    /// sound has a frame, plays forwards, and the frame it starts at and
    /// the frame that its loop goes back to, if it loops, are frames that
    /// it has.
    pub open spec fn spec_startable(self) -> bool {
        &&& self.frames >= 1
        &&& !self.reverse
        &&& within(self.start_position, self.sample_rate, self.frames)
        &&& self.loop_start matches Some(position) ==> within(
            position,
            self.sample_rate,
            self.frames,
        )
    }

    /// These facts with a loop over the whole sound, which goes back to
    /// position zero.
    pub open spec fn looped_whole(self) -> SoundFacts {
        SoundFacts { loop_start: Some(0), ..self }
    }

    /// Whether kira can start a sound of which these are the facts.
    #[verifier::when_used_as_spec(spec_startable)]
    pub fn startable(self) -> (startable: bool)
        ensures
            startable == self.spec_startable(),
    {
        if self.frames < 1 || self.reverse {
            return false;
        }
        if !fits(self.start_position, self.sample_rate, self.frames) {
            return false;
        }
        match self.loop_start {
            Some(position) => fits(position, self.sample_rate, self.frames),
            None => true,
        }
    }

    /// A sound that can be started can be started with a loop over its
    /// whole length as well.
    pub proof fn lemma_whole_loop_starts(self)
        requires
            self.spec_startable(),
        ensures
            self.looped_whole().spec_startable(),
    {
        assert(0nat * self.sample_rate as nat == 0);
        assert(spec_frame_bound(0, self.sample_rate) == Some(0nat));
    }
}

/// Whether the frame at `position` seconds is one of the `frames` frames of
/// a sound, as far as the bound tells.
#[verifier::when_used_as_spec(within)]
pub fn fits(position: u64, sample_rate: u32, frames: usize) -> (fits: bool)
    ensures
        fits == within(position, sample_rate, frames),
{
    match frame_bound(position, sample_rate) {
        Some(bound) => bound < frames as u64,
        None => false,
    }
}

} // verus!
