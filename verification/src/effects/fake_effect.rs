use vstd::prelude::*;
use candela::Pixel;
use super::abstract_effect::AbstractEffect;
use crate::control::ledchannel::LEDChannel;
use crate::AudioAnalysis;

verus! {

/// The simplest effect: it paints every pixel of every active channel with
/// one colour, whatever the audio does, and keeps no state.
#[derive(Debug, Copy, Clone, PartialEq, Eq)]
pub struct FakeEffect {
    pub color: Pixel,
}

/// The colour of a `FakeEffect` that is made by `default`: full white.
pub const WHITE: Pixel = [255, 255, 255, 0];

impl Default for FakeEffect {
    fn default() -> (effect: FakeEffect)
        ensures
            effect.color == WHITE,
    {
        FakeEffect { color: WHITE }
    }
}

impl AbstractEffect for FakeEffect {
    open spec fn rendered(&self, pixels: Seq<Pixel>, analysis: &AudioAnalysis) -> Seq<Pixel> {
        Seq::new(pixels.len(), |i: int| self.color)
    }

    fn pre_update(&mut self, analysis: &AudioAnalysis) {
    }

    fn update(&self, channel: &mut LEDChannel, analysis: &AudioAnalysis) {
        channel.fill(self.color);
    }

    fn post_update(&mut self, analysis: &AudioAnalysis) {
    }
}

} // verus!
