use vstd::prelude::*;
use candela::Pixel;
use super::ledarray::LEDArray;
use super::ledcontroller::ControllerLocation;
use super::ledstrip::LEDStrip;
use super::mapping::LEDAddress;

verus! {

/// What one strip is sent: three bytes for every pixel that it shows, red,
/// green and blue, in virtual offset order.
#[derive(Debug, Clone, PartialEq, Eq)]
pub struct StripFrame {
    pub strip_id: LEDAddress,
    pub bytes: Vec<u8>,
}

/// What one controller is sent, strip by strip.
#[derive(Debug, Clone, PartialEq, Eq)]
pub struct ControllerFrame {
    pub controller_id: LEDAddress,
    pub location: ControllerLocation,
    pub strips: Vec<StripFrame>,
}

/// A controller that did not take what it was sent.
#[derive(Debug, Copy, Clone, PartialEq, Eq, Structural)]
pub struct DeliveryError {
    pub controller_id: LEDAddress,
}

/// The value of the lowest bit that a colour component keeps at bit depth
/// `depth`. From depth 8 on a component keeps all its bits.
pub open spec fn quantum(depth: usize) -> int {
    if depth >= 8 {
        1
    } else {
        vstd::arithmetic::power2::pow2((8 - depth) as nat) as int
    }
}

/// A colour component cut to bit depth `depth`: its `depth` highest bits, the
/// others cleared.
pub open spec fn quantise(component: u8, depth: usize) -> u8 {
    (component - (component as int) % quantum(depth)) as u8
}

/// The bytes that stand for `pixels` at bit depth `depth`: red, green and
/// blue of every pixel, each cut to that depth. The fourth element of a
/// pixel is not sent.
pub open spec fn encode(pixels: Seq<Pixel>, depth: usize) -> Seq<u8> {
    Seq::new(3 * pixels.len(), |b: int| quantise(pixels[b / 3][b % 3], depth))
}

pub fn quantise_component(component: u8, depth: usize) -> (cut: u8)
    ensures
        cut == quantise(component, depth),
{
    if depth >= 8 {
        return component;
    }
    let mut step: u16 = 1;
    let mut d: usize = depth;
    proof {
        vstd::arithmetic::power2::lemma2_to64();
    }
    while d < 8
        invariant
            depth <= d <= 8,
            step == vstd::arithmetic::power2::pow2((d - depth) as nat),
            step <= 256,
            1 <= step,
        decreases 8 - d,
    {
        proof {
            vstd::arithmetic::power2::lemma_pow2_unfold((d + 1 - depth) as nat);
            vstd::arithmetic::power2::lemma_pow2_strictly_increases((d + 1 - depth) as nat, 9);
            vstd::arithmetic::power2::lemma2_to64();
        }
        step = step * 2;
        d += 1;
    }
    let wide = component as u16;
    proof {
        vstd::arithmetic::div_mod::lemma_mod_decreases(wide as nat, step as nat);
    }
    (wide - wide % step) as u8
}

pub fn encode_pixels(pixels: &[Pixel], depth: usize) -> (bytes: Vec<u8>)
    ensures
        bytes@ == encode(pixels@, depth),
{
    let n = pixels.len();
    let mut bytes: Vec<u8> = Vec::new();
    let mut i: usize = 0;
    while i < n
        invariant
            n == pixels@.len(),
            i <= n,
            bytes@.len() == 3 * i,
            forall|b: int| 0 <= b < 3 * i ==> bytes@[b] == quantise(pixels@[b / 3][b % 3], depth),
        decreases n - i,
    {
        let pixel = pixels[i];
        bytes.push(quantise_component(pixel[0], depth));
        bytes.push(quantise_component(pixel[1], depth));
        bytes.push(quantise_component(pixel[2], depth));
        i += 1;
    }
    bytes
}

/// The flags `delivered` say that controller frame `k` was not taken: its
/// flag is `false`, or there is no flag for it.
pub open spec fn undelivered(delivered: Seq<bool>, k: int) -> bool {
    k >= delivered.len() || !delivered[k]
}

/// The delivery errors of a flush: one for every controller frame that was
/// not taken, in the order of the frames.
pub open spec fn failures(frames: Seq<ControllerFrame>, delivered: Seq<bool>) -> Seq<DeliveryError>
    decreases frames.len(),
{
    if frames.len() == 0 {
        Seq::empty()
    } else {
        let before = failures(frames.drop_last(), delivered);
        if undelivered(delivered, frames.len() - 1) {
            before.push(DeliveryError { controller_id: frames.last().controller_id })
        } else {
            before
        }
    }
}

/// Names the controllers that a flush did not reach. `delivered` holds one
/// flag for every frame of `frames`, `true` where the controller took all
/// that it was sent. Nothing is sent again.
pub fn delivery_errors(frames: &Vec<ControllerFrame>, delivered: &Vec<bool>) -> (errors: Vec<
    DeliveryError,
>)
    ensures
        errors@ == failures(frames@, delivered@),
{
    let n = frames.len();
    let mut errors: Vec<DeliveryError> = Vec::new();
    let mut k: usize = 0;
    assert(frames@.subrange(0, 0) =~= Seq::empty());
    while k < n
        invariant
            n == frames@.len(),
            k <= n,
            errors@ == failures(frames@.subrange(0, k as int), delivered@),
        decreases n - k,
    {
        proof {
            let next = frames@.subrange(0, k + 1);
            assert(next.drop_last() =~= frames@.subrange(0, k as int));
            assert(next.last() == frames@[k as int]);
        }
        if k >= delivered.len() || !delivered[k] {
            errors.push(DeliveryError { controller_id: frames[k].controller_id });
        }
        k += 1;
    }
    assert(frames@.subrange(0, n as int) =~= frames@);
    errors
}

impl LEDArray {
    /// The pixels that strip `strip` shows: the range of its channel's
    /// buffer that it views.
    pub open spec fn strip_view(&self, strip: LEDStrip) -> Seq<Pixel> {
        self.channel(strip.channel as int)@.subrange(strip.start as int, strip.end as int)
    }

    /// The bytes that strip `strip` is sent: the pixels that it shows, cut
    /// to the bit depth of its channel.
    pub open spec fn strip_bytes(&self, strip: LEDStrip) -> Seq<u8> {
        encode(self.strip_view(strip), self.channel(strip.channel as int).spec_precision())
    }

    /// Resolves strip `s` of controller `k` to the pixels that it shows, and
    /// gives the bit depth of their channel with them. The strip holds no
    /// pixels of its own: what it shows is read from its channel now.
    pub fn strip_pixels(&self, k: usize, s: usize) -> (shown: (&[Pixel], usize))
        requires
            self.wf(),
            k < self.controllers().len(),
            s < self.controllers()[k as int].strips@.len(),
        ensures
            shown.0@ == self.strip_view(self.controllers()[k as int].strips@[s as int]),
            shown.1 == self.channel(
                self.controllers()[k as int].strips@[s as int].channel as int,
            ).spec_precision(),
    {
        let strip = &self.get_controllers()[k].strips[s];
        proof {
            crate::control::ledarray::lemma_strip_in_range(self, k as int, s as int);
        }
        let channel = self.get_channel(strip.channel);
        (channel.range(strip.start as usize, strip.end as usize), channel.precision())
    }

    /// `frames` is what a flush of the array sends: one frame for every
    /// controller, in order, and in it one for every strip of the controller.
    pub open spec fn flushed(&self, frames: Seq<ControllerFrame>) -> bool {
        &&& frames.len() == self.controllers().len()
        &&& forall|k: int|
            0 <= k < frames.len() ==> {
                &&& (#[trigger] frames[k]).controller_id == self.controllers()[k].id
                &&& frames[k].location == self.controllers()[k].location
                &&& frames[k].strips@.len() == self.controllers()[k].strips@.len()
            }
        &&& forall|k: int, s: int|
            0 <= k < frames.len() && 0 <= s < frames[k].strips@.len() ==> {
                &&& (#[trigger] frames[k].strips@[s]).strip_id == self.controllers()[k].strips@[s].id
                &&& frames[k].strips@[s].bytes@ == self.strip_bytes(self.controllers()[k].strips@[s])
            }
    }

    /// Reads what every strip of every controller shows and puts it into the
    /// form in which it is sent. No buffer is changed.
    pub fn flush(&self) -> (frames: Vec<ControllerFrame>)
        requires
            self.wf(),
        ensures
            self.flushed(frames@),
    {
        let controllers = self.get_controllers();
        let n = controllers.len();
        let mut frames: Vec<ControllerFrame> = Vec::new();
        let mut k: usize = 0;
        while k < n
            invariant
                self.wf(),
                controllers@ == self.controllers(),
                n == controllers@.len(),
                k <= n,
                frames@.len() == k,
                forall|j: int|
                    0 <= j < k ==> {
                        &&& (#[trigger] frames@[j]).controller_id == self.controllers()[j].id
                        &&& frames@[j].location == self.controllers()[j].location
                        &&& frames@[j].strips@.len() == self.controllers()[j].strips@.len()
                    },
                forall|j: int, s: int|
                    0 <= j < k && 0 <= s < frames@[j].strips@.len() ==> {
                        &&& (#[trigger] frames@[j].strips@[s]).strip_id
                            == self.controllers()[j].strips@[s].id
                        &&& frames@[j].strips@[s].bytes@ == self.strip_bytes(
                            self.controllers()[j].strips@[s],
                        )
                    },
            decreases n - k,
        {
            let controller = &controllers[k];
            let count = controller.strips.len();
            let mut strips: Vec<StripFrame> = Vec::new();
            let mut s: usize = 0;
            while s < count
                invariant
                    self.wf(),
                    k < n,
                    n == self.controllers().len(),
                    *controller == self.controllers()[k as int],
                    count == controller.strips@.len(),
                    s <= count,
                    strips@.len() == s,
                    forall|t: int|
                        0 <= t < s ==> {
                            &&& (#[trigger] strips@[t]).strip_id == controller.strips@[t].id
                            &&& strips@[t].bytes@ == self.strip_bytes(controller.strips@[t])
                        },
                decreases count - s,
            {
                let (pixels, depth) = self.strip_pixels(k, s);
                let bytes = encode_pixels(pixels, depth);
                strips.push(StripFrame { strip_id: controller.strips[s].id, bytes });
                s += 1;
            }
            frames.push(
                ControllerFrame {
                    controller_id: controller.id,
                    location: controller.location,
                    strips,
                },
            );
            k += 1;
        }
        frames
    }
}

} // verus!
