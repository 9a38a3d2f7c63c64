use vstd::prelude::*;
use candela::Pixel;
use crate::control::ledarray::LEDArray;
use crate::effects::abstract_effect::AbstractEffect;
use crate::AudioAnalysis;

verus! {

/// `after` is what a frame makes of `before` when the effect `painter`
/// updates the channels: every active channel has been rendered once, in
/// place, and nothing else of the array has changed.
pub open spec fn painted<E: AbstractEffect>(
    before: &LEDArray,
    after: &LEDArray,
    painter: E,
    analysis: &AudioAnalysis,
) -> bool {
    &&& after.same_rest(before)
    &&& after.active().len() == before.active().len()
    &&& forall|p: int|
        0 <= p < before.active().len() ==> {
            &&& (#[trigger] after.active()[p]).same_layout(&before.active()[p])
            &&& after.active()[p]@ == painter.rendered(before.active()[p]@, analysis)
        }
}

/// `after` and `left` are the array and the effect that one frame leaves of
/// `before` and `effect`: the effect has gone through `pre_update`, has
/// rendered every active channel once, and has then gone through
/// `post_update`.
pub open spec fn framed<E: AbstractEffect>(
    before: &LEDArray,
    effect: E,
    analysis: &AudioAnalysis,
    after: &LEDArray,
    left: E,
) -> bool {
    &&& painted(before, after, effect.pre_updated(analysis), analysis)
    &&& left == effect.pre_updated(analysis).post_updated(analysis)
}

/// Renders one frame: `pre_update` once, then `update` once for every active
/// channel in the order of the active list, then `post_update` once.
/// Inactive channels and controllers are not touched.
pub fn update_channels<E: AbstractEffect>(
    array: &mut LEDArray,
    analysis: &AudioAnalysis,
    effect: &mut E,
)
    requires
        old(array).wf(),
    ensures
        final(array).wf(),
        framed(old(array), *old(effect), analysis, final(array), *final(effect)),
{
    effect.pre_update(analysis);
    let channels = array.get_channels_mut();
    let n = channels.len();
    let mut p: usize = 0;
    while p < n
        invariant
            n == channels@.len(),
            n == old(array).active().len(),
            p <= n,
            forall|q: int|
                0 <= q < p ==> {
                    &&& (#[trigger] channels@[q]).same_layout(&old(array).active()[q])
                    &&& channels@[q]@ == effect.rendered(old(array).active()[q]@, analysis)
                },
            forall|q: int| p <= q < n ==> channels@[q] == old(array).active()[q],
            old(array).wf(),
        decreases n - p,
    {
        effect.update(&mut channels[p], analysis);
        p += 1;
    }
    proof {
        crate::control::ledarray::lemma_repainted(old(array), array);
    }
    effect.post_update(analysis);
}

/// The effect `effect` after one frame on each of `analyses`, in order.
pub open spec fn effect_after<E: AbstractEffect>(effect: E, analyses: Seq<AudioAnalysis>) -> E
    decreases analyses.len(),
{
    if analyses.len() == 0 {
        effect
    } else {
        effect_after(effect, analyses.drop_last()).pre_updated(&analyses.last()).post_updated(
            &analyses.last(),
        )
    }
}

/// The content of an active channel's buffer that held `pixels`, after one
/// frame on each of `analyses`: one `update` for every frame, by the effect
/// as that frame's `pre_update` left it.
pub open spec fn buffer_after<E: AbstractEffect>(
    effect: E,
    pixels: Seq<Pixel>,
    analyses: Seq<AudioAnalysis>,
) -> Seq<Pixel>
    decreases analyses.len(),
{
    if analyses.len() == 0 {
        pixels
    } else {
        effect_after(effect, analyses.drop_last()).pre_updated(&analyses.last()).rendered(
            buffer_after(effect, pixels, analyses.drop_last()),
            &analyses.last(),
        )
    }
}

/// `after` and `left` are what one frame on each of `analyses`, one after
/// the other, leaves of `before` and `effect`.
pub open spec fn frames_ran<E: AbstractEffect>(
    before: &LEDArray,
    effect: E,
    analyses: Seq<AudioAnalysis>,
    after: &LEDArray,
    left: E,
) -> bool
    decreases analyses.len(),
{
    if analyses.len() == 0 {
        *after == *before && left == effect
    } else {
        exists|mid: LEDArray, kept: E|
            frames_ran(before, effect, analyses.drop_last(), &mid, kept) && #[trigger] framed(
                &mid,
                kept,
                &analyses.last(),
                after,
                left,
            )
    }
}

/// Any number of frames, one after the other, updates the buffer of every
/// active channel once for every frame, and takes the effect through
/// `pre_update` and `post_update` once for every frame, in the order
/// `pre_update`, the updates, `post_update`. Nothing else of the array
/// changes.
pub proof fn lemma_frames_update_once_each<E: AbstractEffect>(
    before: &LEDArray,
    effect: E,
    analyses: Seq<AudioAnalysis>,
    after: &LEDArray,
    left: E,
)
    requires
        before.wf(),
        frames_ran(before, effect, analyses, after, left),
    ensures
        after.wf(),
        left == effect_after(effect, analyses),
        after.same_rest(before),
        after.active().len() == before.active().len(),
        forall|p: int|
            0 <= p < before.active().len() ==> {
                &&& (#[trigger] after.active()[p]).same_layout(&before.active()[p])
                &&& after.active()[p]@ == buffer_after(effect, before.active()[p]@, analyses)
            },
    decreases analyses.len(),
{
    if analyses.len() > 0 {
        let (mid, kept): (LEDArray, E) = choose|mid: LEDArray, kept: E|
            frames_ran(before, effect, analyses.drop_last(), &mid, kept) && #[trigger] framed(
                &mid,
                kept,
                &analyses.last(),
                after,
                left,
            );
        lemma_frames_update_once_each(before, effect, analyses.drop_last(), &mid, kept);
        crate::control::ledarray::lemma_repainted(&mid, after);
        assert forall|p: int| 0 <= p < before.active().len() implies {
            &&& (#[trigger] after.active()[p]).same_layout(&before.active()[p])
            &&& after.active()[p]@ == buffer_after(effect, before.active()[p]@, analyses)
        } by {
            assert(after.active()[p].same_layout(&mid.active()[p]));
            assert(mid.active()[p].same_layout(&before.active()[p]));
        }
    }
}

/// A channel that is switched off takes no part in the frames that follow,
/// and keeps its buffer through them; when it is switched on again it is
/// active as before, with the buffer that it had when it was switched off.
/// Every other channel is active or inactive as it was.
pub proof fn lemma_switch_round_trip<E: AbstractEffect>(
    before: &LEDArray,
    id: usize,
    off: &LEDArray,
    effect: E,
    analyses: Seq<AudioAnalysis>,
    rendered: &LEDArray,
    left: E,
    on: &LEDArray,
)
    requires
        before.wf(),
        off.wf(),
        id < before.count(),
        before.is_active(id as int),
        before.turned_off(id, off),
        frames_ran(off, effect, analyses, rendered, left),
        rendered.turned_on(id, on),
    ensures
        !off.is_active(id as int),
        !rendered.is_active(id as int),
        rendered.channel(id as int) == before.channel(id as int),
        on.is_active(id as int),
        on.channel(id as int) == before.channel(id as int),
        on.count() == before.count(),
        forall|j: int| 0 <= j < before.count() ==> on.is_active(j) == before.is_active(j),
{
    lemma_frames_update_once_each(off, effect, analyses, rendered, left);
    assert(off.channel(id as int) == before.channel(id as int));
    assert(rendered.places() == off.places());
    assert(rendered.channel(id as int) == off.channel(id as int));
    assert forall|j: int| 0 <= j < before.count() implies on.is_active(j) == before.is_active(j) by {
        assert(off.channel(j) == before.channel(j));
        assert(on.channel(j) == rendered.channel(j));
    }
}

} // verus!
