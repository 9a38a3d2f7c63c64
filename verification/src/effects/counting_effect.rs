use vstd::prelude::*;
use candela::Pixel;
use super::abstract_effect::AbstractEffect;
use crate::control::ledchannel::LEDChannel;
use crate::AudioAnalysis;

verus! {

/// An effect that shows how it was called. It counts its `pre_update` and
/// `post_update` calls, and `update` leaves two marks in every pixel: red
/// goes up by one, so that it counts the updates of the pixel, and green
/// says how many frames were open at the update, which is 1 exactly where
/// the update stood between the `pre_update` and the `post_update` of one
/// frame. The counts and both marks stop at the largest number they can
/// hold: 255 for a mark.
#[derive(Debug, Copy, Clone, PartialEq, Eq, Structural)]
pub struct CountingEffect {
    pub pre_updates: u64,
    pub post_updates: u64,
}

/// `count` and one more, but no more than a `u64` holds.
pub open spec fn one_more(count: u64) -> u64 {
    if count < u64::MAX {
        (count + 1) as u64
    } else {
        count
    }
}

impl CountingEffect {
    /// The frames that have begun and not ended, as `update` writes them
    /// down: 255 stands for every larger number, 0 for none.
    pub open spec fn open_frames(&self) -> u8 {
        if self.pre_updates <= self.post_updates {
            0
        } else if self.pre_updates - self.post_updates > 255 {
            255
        } else {
            (self.pre_updates - self.post_updates) as u8
        }
    }

    /// The pixel `pixel` after one update.
    pub open spec fn marked(&self, pixel: Pixel) -> Pixel {
        [
            if pixel[0] < 255 {
                (pixel[0] + 1) as u8
            } else {
                255
            },
            self.open_frames(),
            pixel[2],
            pixel[3],
        ]
    }

    /// An effect that has not been called yet.
    pub fn new() -> (effect: CountingEffect)
        ensures
            effect == (CountingEffect { pre_updates: 0, post_updates: 0 }),
    {
        CountingEffect { pre_updates: 0, post_updates: 0 }
    }

    fn count_open_frames(&self) -> (open: u8)
        ensures
            open == self.open_frames(),
    {
        if self.pre_updates <= self.post_updates {
            0
        } else if self.pre_updates - self.post_updates > 255 {
            255
        } else {
            (self.pre_updates - self.post_updates) as u8
        }
    }
}

impl AbstractEffect for CountingEffect {
    open spec fn pre_updated(&self, analysis: &AudioAnalysis) -> Self {
        CountingEffect { pre_updates: one_more(self.pre_updates), post_updates: self.post_updates }
    }

    open spec fn rendered(&self, pixels: Seq<Pixel>, analysis: &AudioAnalysis) -> Seq<Pixel> {
        Seq::new(pixels.len(), |i: int| self.marked(pixels[i]))
    }

    open spec fn post_updated(&self, analysis: &AudioAnalysis) -> Self {
        CountingEffect { pre_updates: self.pre_updates, post_updates: one_more(self.post_updates) }
    }

    fn pre_update(&mut self, analysis: &AudioAnalysis) {
        if self.pre_updates < u64::MAX {
            self.pre_updates = self.pre_updates + 1;
        }
    }

    fn update(&self, channel: &mut LEDChannel, analysis: &AudioAnalysis) {
        let open = self.count_open_frames();
        let n = channel.len();
        let mut i: usize = 0;
        while i < n
            invariant
                n == channel@.len(),
                n == old(channel)@.len(),
                i <= n,
                open == self.open_frames(),
                channel.same_layout(old(channel)),
                forall|k: int| 0 <= k < i ==> channel@[k] == self.marked(old(channel)@[k]),
                forall|k: int| i <= k < n ==> channel@[k] == old(channel)@[k],
            decreases n - i,
        {
            let pixel = channel.pixel(i);
            let red: u8 = if pixel[0] < 255 {
                pixel[0] + 1
            } else {
                255
            };
            let marked: Pixel = [red, open, pixel[2], pixel[3]];
            assert(marked == self.marked(pixel));
            channel.set_pixel(i, marked);
            i += 1;
        }
    }

    fn post_update(&mut self, analysis: &AudioAnalysis) {
        if self.post_updates < u64::MAX {
            self.post_updates = self.post_updates + 1;
        }
    }
}

} // verus!
