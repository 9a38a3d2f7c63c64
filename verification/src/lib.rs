//! Drives LED hardware from live audio.
//!
//! A window of audio samples is analysed into an [`AudioAnalysis`]; an effect
//! renders the analysis into the virtual pixel buffers of the active
//! channels of an [`LEDArray`]; and a flush reads, for every strip of every
//! controller, the range of its channel's buffer that the strip shows.
//!
//! * [`control`] holds the addressing: mappings, channels, strips,
//!   controllers, the array, and the flush.
//! * [`effects`] holds the three-phase contract of an effect and two effects.
//! * [`pipeline`] renders one frame.
//! * [`sound`] holds the contract of a sound source and a source without a
//!   device.
//! * [`driver`] holds the loop of the audio-processing role.
//! * [`command`] holds the messages of the control role and the operator's
//!   words for them.

use vstd::prelude::*;

pub mod command;
pub mod control;
pub mod driver;
pub mod effects;
pub mod pipeline;
pub mod sound;

pub use candela;
pub use control::{LEDArray, LEDChannel};
pub use effects::{AbstractEffect, FakeEffect};
pub use pipeline::update_channels;

verus! {

/// What one window of audio samples was found to hold. Effects read it; the
/// frame loop only hands it on.
#[derive(Debug, Copy, Clone, PartialEq, Eq, Structural)]
pub struct AudioAnalysis {
    /// Number of samples in the window.
    pub samples: usize,
    /// The largest sample of the window, 0 for an empty window.
    pub peak: u32,
    /// The mean of the samples, rounded down, 0 for an empty window.
    pub level: u32,
}

/// The largest sample of `samples`, 0 where there is none.
pub open spec fn peak_of(samples: Seq<u32>) -> u32
    decreases samples.len(),
{
    if samples.len() == 0 {
        0
    } else if samples.last() > peak_of(samples.drop_last()) {
        samples.last()
    } else {
        peak_of(samples.drop_last())
    }
}

/// The sum of `samples`.
pub open spec fn sum_of(samples: Seq<u32>) -> nat
    decreases samples.len(),
{
    if samples.len() == 0 {
        0
    } else {
        sum_of(samples.drop_last()) + samples.last() as nat
    }
}

/// The analysis of the window `samples`.
pub open spec fn analysis_of(samples: Seq<u32>) -> AudioAnalysis {
    AudioAnalysis {
        samples: samples.len() as usize,
        peak: peak_of(samples),
        level: if samples.len() == 0 {
            0
        } else {
            (sum_of(samples) / samples.len()) as u32
        },
    }
}

/// Analyses one window of samples. The result depends on the samples alone.
pub fn process_audio(_sample: Vec<u32>) -> (analysis: AudioAnalysis)
    ensures
        analysis == analysis_of(_sample@),
{
    let n = _sample.len();
    let mut peak: u32 = 0;
    let mut sum: u128 = 0;
    let mut i: usize = 0;
    assert(_sample@.subrange(0, 0) =~= Seq::empty());
    while i < n
        invariant
            n == _sample@.len(),
            i <= n,
            peak == peak_of(_sample@.subrange(0, i as int)),
            sum == sum_of(_sample@.subrange(0, i as int)),
            sum <= i * 0xffff_ffff,
        decreases n - i,
    {
        proof {
            let next = _sample@.subrange(0, i + 1);
            assert(next.drop_last() =~= _sample@.subrange(0, i as int));
            assert(next.last() == _sample@[i as int]);
        }
        let sample = _sample[i];
        if sample > peak {
            peak = sample;
        }
        sum = sum + sample as u128;
        i += 1;
    }
    assert(_sample@.subrange(0, n as int) =~= _sample@);
    if n == 0 {
        return AudioAnalysis { samples: 0, peak: 0, level: 0 };
    }
    let mean = sum / (n as u128);
    assert(mean <= 0xffff_ffff) by (nonlinear_arith)
        requires
            mean == sum / (n as u128),
            n > 0,
            sum <= n * 0xffff_ffff,
    ;
    AudioAnalysis { samples: n, peak, level: mean as u32 }
}

} // verus!
