use vstd::prelude::*;
use std::sync::mpsc::Receiver;
use crate::command::ControlMessage;
use crate::control::ledarray::LEDArray;
use crate::effects::abstract_effect::AbstractEffect;
use crate::pipeline::update_channels;
use crate::process_audio;
use crate::sound::{DeviceError, FakeSoundProvider, IrradianceSoundProvider};

verus! {

/// `after` is what acting on `message` between two frames makes of
/// `before`. Only a message that switches a channel changes the array.
pub open spec fn controlled(
    before: &LEDArray,
    message: Option<ControlMessage>,
    after: &LEDArray,
) -> bool {
    match message {
        Some(ControlMessage::Activate(id)) => before.turned_on(id, after),
        Some(ControlMessage::Deactivate(id)) => before.turned_off(id, after),
        _ => *after == *before,
    }
}

/// Acts on what the control role sent, at the boundary between two frames,
/// and says whether the loop goes on.
pub fn apply_control(array: &mut LEDArray, message: Option<ControlMessage>) -> (go_on: bool)
    requires
        old(array).wf(),
    ensures
        final(array).wf(),
        go_on == (message != Some(ControlMessage::Stop)),
        controlled(old(array), message, final(array)),
{
    match message {
        Some(ControlMessage::Stop) => false,
        Some(ControlMessage::Activate(id)) => {
            array.activate(id);
            true
        },
        Some(ControlMessage::Deactivate(id)) => {
            array.deactivate(id);
            true
        },
        None => true,
    }
}

/// Renders the frame of one window, or none where the sound source failed:
/// a frame is begun only with a whole window, so a failure leaves the array
/// and the effect as the last whole frame left them.
pub fn render_window<E: AbstractEffect>(
    array: &mut LEDArray,
    effect: &mut E,
    window: Result<Vec<u32>, DeviceError>,
) -> (done: Result<(), DeviceError>)
    requires
        old(array).wf(),
    ensures
        final(array).wf(),
        match window {
            Ok(samples) => {
                &&& done is Ok
                &&& crate::pipeline::framed(
                    old(array),
                    *old(effect),
                    &crate::analysis_of(samples@),
                    final(array),
                    *final(effect),
                )
            },
            Err(error) => {
                &&& done == Err::<(), DeviceError>(error)
                &&& *final(array) == *old(array)
                &&& *final(effect) == *old(effect)
            },
        },
{
    match window {
        Ok(samples) => {
            let analysis = process_audio(samples);
            update_channels(array, &analysis, effect);
            Ok(())
        },
        Err(error) => Err(error),
    }
}

/// Why the audio-processing loop was left.
#[derive(Debug, Copy, Clone, PartialEq, Eq, Structural)]
pub enum LoopExit {
    /// The control role asked for it.
    Stopped,
    /// The sound source failed; no frame was begun with the missing window.
    DeviceFailed(DeviceError),
    /// The frames that were asked for are done.
    OutOfFrames,
}

/// How a run of the audio-processing loop ended.
#[derive(Debug, Copy, Clone, PartialEq, Eq, Structural)]
pub struct RunReport {
    /// Number of frames that were rendered, each of them whole.
    pub frames: usize,
    pub exit: LoopExit,
}

/// One turn of the loop as it was lived: the window that was read, and what
/// the control role had sent when the frame was done.
pub type Round = (Seq<u32>, Option<ControlMessage>);

/// `after` and `left` are what one turn of the loop leaves of `before` and
/// `effect`: a whole frame on the analysis of the window, and then what the
/// message asks for. The array is well-formed before the frame, between the
/// frame and the message, and after the message.
pub open spec fn turned<E: AbstractEffect>(
    before: &LEDArray,
    effect: E,
    round: Round,
    after: &LEDArray,
    left: E,
) -> bool {
    &&& before.wf()
    &&& after.wf()
    &&& exists|mid: LEDArray|
        mid.wf() && #[trigger] crate::pipeline::framed(
            before,
            effect,
            &crate::analysis_of(round.0),
            &mid,
            left,
        ) && controlled(&mid, round.1, after)
}

/// `after` and `left` are what the turns `rounds`, one after the other,
/// leave of `before` and `effect`.
pub open spec fn ran<E: AbstractEffect>(
    before: &LEDArray,
    effect: E,
    rounds: Seq<Round>,
    after: &LEDArray,
    left: E,
) -> bool
    decreases rounds.len(),
{
    if rounds.len() == 0 {
        *after == *before && left == effect
    } else {
        exists|mid: LEDArray, kept: E|
            ran(before, effect, rounds.drop_last(), &mid, kept) && #[trigger] turned(
                &mid,
                kept,
                rounds.last(),
                after,
                left,
            )
    }
}

/// One more turn behind the turns `rounds` makes the turns `rounds` and then
/// that one.
pub proof fn lemma_one_more_turn<E: AbstractEffect>(
    before: &LEDArray,
    effect: E,
    rounds: Seq<Round>,
    mid: &LEDArray,
    kept: E,
    round: Round,
    after: &LEDArray,
    left: E,
)
    requires
        ran(before, effect, rounds, mid, kept),
        turned(mid, kept, round, after, left),
    ensures
        ran(before, effect, rounds.push(round), after, left),
{
    let longer = rounds.push(round);
    assert(longer.drop_last() =~= rounds);
    assert(longer.last() == round);
    assert(ran(before, effect, longer.drop_last(), mid, kept) && turned(
        mid,
        kept,
        longer.last(),
        after,
        left,
    ));
}

/// Through any number of turns the array keeps its channels and its
/// controllers: no channel is added or lost, every channel keeps its
/// length, its mappings and its precision, and no controller or strip
/// changes. Only buffers change, and which channels are active.
pub proof fn lemma_run_keeps_layout<E: AbstractEffect>(
    before: &LEDArray,
    effect: E,
    rounds: Seq<Round>,
    after: &LEDArray,
    left: E,
)
    requires
        before.wf(),
        ran(before, effect, rounds, after, left),
    ensures
        after.wf(),
        after.count() == before.count(),
        after.controllers() == before.controllers(),
        forall|id: int|
            0 <= id < before.count() ==> (#[trigger] after.channel(id)).same_layout(
                &before.channel(id),
            ),
    decreases rounds.len(),
{
    if rounds.len() > 0 {
        let (start, kept): (LEDArray, E) = choose|start: LEDArray, kept: E|
            ran(before, effect, rounds.drop_last(), &start, kept) && #[trigger] turned(
                &start,
                kept,
                rounds.last(),
                after,
                left,
            );
        lemma_run_keeps_layout(before, effect, rounds.drop_last(), &start, kept);
        let analysis = crate::analysis_of(rounds.last().0);
        let mid = choose|mid: LEDArray|
            mid.wf() && #[trigger] crate::pipeline::framed(&start, kept, &analysis, &mid, left)
                && controlled(&mid, rounds.last().1, after);
        crate::control::ledarray::lemma_repainted(&start, &mid);
        assert forall|id: int| 0 <= id < before.count() implies (#[trigger] after.channel(
            id,
        )).same_layout(&before.channel(id)) by {
            assert(mid.channel(id).same_layout(&start.channel(id)));
            assert(start.channel(id).same_layout(&before.channel(id)));
            assert(after.channel(id) == mid.channel(id));
        }
    }
}

/// A run that ended with `report` went through the turns `rounds`: as many
/// whole turns as the report counts frames, none but the last of them with a
/// stop message, and the last with one exactly where the run was stopped.
pub open spec fn lived<E: AbstractEffect>(
    before: &LEDArray,
    effect: E,
    rounds: Seq<Round>,
    report: RunReport,
    after: &LEDArray,
    left: E,
) -> bool {
    &&& rounds.len() == report.frames
    &&& ran(before, effect, rounds, after, left)
    &&& forall|i: int| 0 <= i < rounds.len() - 1 ==> (#[trigger] rounds[i]).1 != Some(ControlMessage::Stop)
    &&& report.exit == LoopExit::Stopped <==> rounds.len() > 0 && rounds.last().1 == Some(
        ControlMessage::Stop,
    )
}

/// A run over the turns `rounds` that ended with `report` read the source
/// `source` in windows of `length` milliseconds, once for every turn and
/// once more where it ended on a failed read: the window of every turn is
/// what the source handed out at that read; a run that ended with
/// `DeviceFailed(error)` ended on a read that gave `error`, behind its last
/// whole turn; and any other run read nothing behind its last turn. `left`
/// is the source as these reads leave it.
pub open spec fn sounded<P: IrradianceSoundProvider>(
    source: P,
    length: u32,
    rounds: Seq<Round>,
    report: RunReport,
    left: P,
) -> bool {
    &&& forall|i: int|
        0 <= i < rounds.len() ==> crate::sound::source_after(source, length, i as nat).next_window(
            length,
        ) == Ok::<Seq<u32>, DeviceError>((#[trigger] rounds[i]).0)
    &&& match report.exit {
        LoopExit::DeviceFailed(error) => {
            &&& crate::sound::source_after(source, length, rounds.len()).next_window(length)
                == Err::<Seq<u32>, DeviceError>(error)
            &&& left == crate::sound::source_after(source, length, rounds.len() + 1)
        },
        _ => left == crate::sound::source_after(source, length, rounds.len()),
    }
}

/// A run on the source without a device that loses its device after `good`
/// reads renders at most `good` frames, each on a window of the source's
/// level. Where the run is not stopped and may render more than `good`
/// frames, it renders exactly `good` whole frames and ends with the loss of
/// the device, on the read behind them.
pub proof fn lemma_lost_device_ends_run(
    source: FakeSoundProvider,
    good: usize,
    length: u32,
    max_frames: usize,
    rounds: Seq<Round>,
    report: RunReport,
    left: FakeSoundProvider,
)
    requires
        source.ready,
        source.reads_left == Some(good),
        sounded(source, length, rounds, report, left),
        rounds.len() == report.frames,
        report.exit == LoopExit::OutOfFrames ==> report.frames == max_frames,
    ensures
        report.frames <= good,
        forall|i: int| 0 <= i < rounds.len() ==> (#[trigger] rounds[i]).0 == source.window(length),
        report.exit matches LoopExit::DeviceFailed(error) ==> error == DeviceError::DeviceLost
            && report.frames == good,
        report.exit != LoopExit::Stopped && good < max_frames ==> report == (RunReport {
            frames: good,
            exit: LoopExit::DeviceFailed(DeviceError::DeviceLost),
        }),
        left == (FakeSoundProvider { reads_left: Some((good - report.frames) as usize), ..source }),
{
    assert forall|i: int| 0 <= i < rounds.len() implies i < good && (#[trigger] rounds[i]).0
        == source.window(length) by {
        if i < good {
            crate::sound::lemma_fake_source_after(source, length, i as nat);
        } else {
            crate::sound::lemma_fake_source_after(source, length, good as nat);
            // The read behind the last good one fails, so no turn has its window.
            let late = rounds[good as int];
            assert(crate::sound::source_after(source, length, good as nat).next_window(length)
                == Ok::<Seq<u32>, DeviceError>(late.0));
        }
    }
    assert(rounds.len() <= good) by {
        if rounds.len() > 0 {
            let last = rounds[rounds.len() - 1];
        }
    }
    crate::sound::lemma_fake_source_after(source, length, rounds.len());
    if report.exit is DeviceFailed {
        assert(crate::sound::source_after(source, length, rounds.len() + 1)
            == crate::sound::source_after(source, length, rounds.len()).after_window(length));
    }
}

/// Takes the message that waits in the control role's channel, if there is
/// one, by `std::sync::mpsc::Receiver::try_recv`, without waiting. An empty
/// channel and one whose sender is gone both give `None`. What comes back
/// depends on the control role, so the contract says nothing of it.
#[verifier::external_body]
fn poll_control(control: &Receiver<ControlMessage>) -> (message: Option<ControlMessage>) {
    control.try_recv().ok()
}

/// Runs the loop of the audio-processing role for at most `max_frames`
/// frames: read a window of `window_ms` milliseconds, analyse it, render one
/// frame, then look once for a message of the control role and act on it.
///
/// The loop is left between frames only. A stop message ends it once the
/// frame in which it arrived is done, and no window is read behind that
/// frame. A read that fails ends it at once: no frame is rendered for the
/// missing window, the source is not read again, and the error is handed to
/// the caller.
pub fn process_frames<P: IrradianceSoundProvider, E: AbstractEffect>(
    array: &mut LEDArray,
    provider: &mut P,
    effect: &mut E,
    control: &Receiver<ControlMessage>,
    window_ms: u32,
    max_frames: usize,
) -> (report: RunReport)
    requires
        old(array).wf(),
    ensures
        final(array).wf(),
        report.frames <= max_frames,
        report.exit == LoopExit::OutOfFrames ==> report.frames == max_frames,
        max_frames == 0 ==> report.exit == LoopExit::OutOfFrames,
        exists|rounds: Seq<Round>|
            {
                &&& #[trigger] lived(
                    old(array),
                    *old(effect),
                    rounds,
                    report,
                    final(array),
                    *final(effect),
                )
                &&& sounded(*old(provider), window_ms, rounds, report, *final(provider))
            },
{
    let mut frames: usize = 0;
    let ghost mut rounds: Seq<Round> = Seq::empty();
    while frames < max_frames
        invariant
            array.wf(),
            frames <= max_frames,
            rounds.len() == frames,
            ran(old(array), *old(effect), rounds, array, *effect),
            forall|i: int| 0 <= i < rounds.len() ==> (#[trigger] rounds[i]).1 != Some(ControlMessage::Stop),
            *provider == crate::sound::source_after(*old(provider), window_ms, frames as nat),
            forall|i: int|
                0 <= i < rounds.len() ==> crate::sound::source_after(
                    *old(provider),
                    window_ms,
                    i as nat,
                ).next_window(window_ms) == Ok::<Seq<u32>, DeviceError>((#[trigger] rounds[i]).0),
        decreases max_frames - frames,
    {
        let window = provider.read(window_ms);
        let ghost heard = if window is Ok {
            window->Ok_0@
        } else {
            Seq::empty()
        };
        let ghost before = *array;
        let ghost kept = *effect;
        let ghost earlier = rounds;
        match render_window(array, effect, window) {
            Ok(_) => {},
            Err(error) => {
                let report = RunReport { frames, exit: LoopExit::DeviceFailed(error) };
                assert(lived(old(array), *old(effect), rounds, report, array, *effect));
                assert(sounded(*old(provider), window_ms, rounds, report, *provider));
                return report;
            },
        }
        let ghost mid = *array;
        let message = poll_control(control);
        let go_on = apply_control(array, message);
        frames += 1;
        proof {
            rounds = rounds.push((heard, message));
            let round: Round = (heard, message);
            assert(crate::pipeline::framed(
                &before,
                kept,
                &crate::analysis_of(round.0),
                &mid,
                *effect,
            ) && controlled(&mid, round.1, array));
            lemma_one_more_turn(
                old(array),
                *old(effect),
                earlier,
                &before,
                kept,
                round,
                array,
                *effect,
            );
        }
        if !go_on {
            let report = RunReport { frames, exit: LoopExit::Stopped };
            assert(lived(old(array), *old(effect), rounds, report, array, *effect));
            assert(sounded(*old(provider), window_ms, rounds, report, *provider));
            return report;
        }
    }
    let report = RunReport { frames, exit: LoopExit::OutOfFrames };
    assert(lived(old(array), *old(effect), rounds, report, array, *effect));
    assert(sounded(*old(provider), window_ms, rounds, report, *provider));
    report
}

/// The length of the window that the audio-processing role analyses for one
/// frame, in milliseconds.
pub const WINDOW_MS: u32 = 16;

/// The audio-processing role: sets the sound source up, once, then runs the
/// loop of `process_frames` on windows of `WINDOW_MS` milliseconds.
///
/// Where the setup fails, the role ends with that error: the source is not
/// read, the effect is not called, and the array is as it was. Where it
/// succeeds, the run is that of `process_frames` on the source as the setup
/// left it.
pub fn audio_processing_thread<P: IrradianceSoundProvider, E: AbstractEffect>(
    array: &mut LEDArray,
    provider: &mut P,
    effect: &mut E,
    control: &Receiver<ControlMessage>,
    max_frames: usize,
) -> (report: RunReport)
    requires
        old(array).wf(),
    ensures
        final(array).wf(),
        match old(provider).set_up() {
            Err(error) => {
                &&& report == (RunReport { frames: 0, exit: LoopExit::DeviceFailed(error) })
                &&& *final(array) == *old(array)
                &&& *final(effect) == *old(effect)
                &&& *final(provider) == old(provider).after_set_up()
            },
            Ok(_) => {
                &&& report.frames <= max_frames
                &&& report.exit == LoopExit::OutOfFrames ==> report.frames == max_frames
                &&& max_frames == 0 ==> report.exit == LoopExit::OutOfFrames
                &&& exists|rounds: Seq<Round>|
                    {
                        &&& #[trigger] lived(
                            old(array),
                            *old(effect),
                            rounds,
                            report,
                            final(array),
                            *final(effect),
                        )
                        &&& sounded(
                            old(provider).after_set_up(),
                            WINDOW_MS,
                            rounds,
                            report,
                            *final(provider),
                        )
                    }
            },
        },
{
    match provider.init() {
        Err(error) => RunReport { frames: 0, exit: LoopExit::DeviceFailed(error) },
        Ok(_) => process_frames(array, provider, effect, control, WINDOW_MS, max_frames),
    }
}

/// `std::sync::mpsc::Receiver`, the channel end on which the
/// audio-processing role receives what the control role sends. It is carried
/// through as it is; nothing is said of what it holds.
#[verifier::external_type_specification]
#[verifier::external_body]
#[verifier::reject_recursive_types(T)]
pub struct ExReceiver<T>(std::sync::mpsc::Receiver<T>);

} // verus!
