//! The building blocks that instruments are made of.
//!
//! Every quantity that describes a sound (a time, a level, a frequency, a
//! resonance) is held as a whole number of thousandths of its unit: an
//! attack of `1` lasts 0.001 s, a sustain level of `800` is 0.8, and a
//! cutoff of `2_000_000` is 2000 Hz.
use vstd::prelude::*;

verus! {

/// The shape of an oscillator's wave.
#[derive(Clone, Copy, Debug, PartialEq, Eq, Structural)]
pub enum WaveformType {
    Sine,
    Square,
    Saw,
    Triangle,
    Noise,
}

/// An ADSR amplitude envelope, in thousandths of a second (attack, decay,
/// release) and thousandths of full level (sustain).
#[derive(Clone, Copy, Debug, PartialEq, Eq, Structural)]
pub struct Envelope {
    pub attack: u32,
    pub decay: u32,
    pub sustain: u32,
    pub release: u32,
}

impl Default for Envelope {
    /// 0.01 s attack, 0.1 s decay, 0.8 sustain, 0.2 s release.
    fn default() -> (e: Self)
        ensures
            e == (Envelope { attack: 10, decay: 100, sustain: 800, release: 200 }),
    {
        Envelope { attack: 10, decay: 100, sustain: 800, release: 200 }
    }
}

/// A filter, its frequencies in thousandths of a hertz and its resonance or
/// bandwidth factor in thousandths.
#[derive(Clone, Copy, Debug, PartialEq, Eq, Structural)]
pub enum FilterType {
    LowPass { cutoff: u32, resonance: u32 },
    HighPass { cutoff: u32, resonance: u32 },
    BandPass { center: u32, bandwidth: u32 },
}

} // verus!
