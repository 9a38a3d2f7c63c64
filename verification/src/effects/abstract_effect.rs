use vstd::prelude::*;
use candela::Pixel;
use crate::control::ledchannel::LEDChannel;
use crate::AudioAnalysis;

verus! {

/// What renders a frame. A frame calls `pre_update` once, then `update` once
/// for every active channel, then `post_update` once. The effect may keep
/// state from frame to frame; only `pre_update` and `post_update` change it.
///
/// The three spec functions say what the three calls do, so that what a
/// frame leaves behind can be stated for every effect. `pre_update` and
/// `post_update` are neutral unless the effect says otherwise: an effect
/// that only renders defines `rendered` and `update`, and leaves the bodies
/// of the two other calls empty.
pub trait AbstractEffect: Send + Sized {
    /// The effect as `pre_update` leaves it: unchanged, unless the effect
    /// says otherwise.
    open spec fn pre_updated(&self, analysis: &AudioAnalysis) -> Self {
        *self
    }

    /// The content that `update` gives to a buffer that holds `pixels`.
    spec fn rendered(&self, pixels: Seq<Pixel>, analysis: &AudioAnalysis) -> Seq<Pixel>;

    /// The effect as `post_update` leaves it: unchanged, unless the effect
    /// says otherwise.
    open spec fn post_updated(&self, analysis: &AudioAnalysis) -> Self {
        *self
    }

    fn pre_update(&mut self, analysis: &AudioAnalysis)
        ensures
            *final(self) == old(self).pre_updated(analysis),
    ;

    /// Renders one channel. Only the content of the buffer changes; an
    /// effect that cannot render leaves it as it is.
    fn update(&self, channel: &mut LEDChannel, analysis: &AudioAnalysis)
        requires
            old(channel).wf(),
        ensures
            final(channel).same_layout(old(channel)),
            final(channel)@ == self.rendered(old(channel)@, analysis),
    ;

    fn post_update(&mut self, analysis: &AudioAnalysis)
        ensures
            *final(self) == old(self).post_updated(analysis),
    ;
}

} // verus!
