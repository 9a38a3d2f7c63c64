use std::sync::mpsc::channel;

use irradiance::control::{
    ChannelConfig, ChannelMapping, ControllerConfig, ControllerLocation, LEDArray, LEDChannel,
    StripConfig, SwitchOutcome, Topology,
};
use irradiance::command::ControlMessage;
use irradiance::driver::{
    apply_control, audio_processing_thread, process_frames, render_window, LoopExit, RunReport,
};
use irradiance::sound::{DeviceError, FakeSoundProvider, IrradianceSoundProvider};
use irradiance::effects::CountingEffect;
use irradiance::{process_audio, update_channels, AbstractEffect, FakeEffect};

fn three_channels() -> LEDArray {
    let topology = Topology {
        controllers: vec![ControllerConfig {
            id: 1,
            location: ControllerLocation { ip: [10, 0, 0, 1], port: 7000 },
            strips: vec![StripConfig { id: 0, name: String::from("a") }],
        }],
        channels: vec![
            ChannelConfig {
                length: 3,
                precision: 8,
                mappings: vec![ChannelMapping { controller_id: 1, strip_id: 0, start: 0, end: 3 }],
            },
            ChannelConfig { length: 2, precision: 8, mappings: vec![] },
            ChannelConfig { length: 4, precision: 8, mappings: vec![] },
        ],
    };
    LEDArray::construct(&topology).unwrap()
}

fn greens(channel: &LEDChannel) -> Vec<u8> {
    channel.as_slice().iter().map(|pixel| pixel[1]).collect()
}

fn reds(channel: &LEDChannel) -> Vec<u8> {
    channel.as_slice().iter().map(|pixel| pixel[0]).collect()
}

#[test]
fn every_frame_runs_the_three_phases_in_order() {
    let mut array = three_channels();
    let mut probe = CountingEffect::new();
    let analysis = process_audio(vec![4, 8]);
    let frames = 5;
    for frame in 0..frames {
        update_channels(&mut array, &analysis, &mut probe);
        assert_eq!(
            probe,
            CountingEffect { pre_updates: frame as u64 + 1, post_updates: frame as u64 + 1 }
        );
        for channel in array.get_channels() {
            assert_eq!(reds(channel), vec![frame as u8 + 1; channel.len()]);
            assert_eq!(greens(channel), vec![1; channel.len()]);
        }
    }
    assert_eq!(probe, CountingEffect { pre_updates: 5, post_updates: 5 });
    for channel in array.get_channels() {
        // Every pixel was updated once in every frame,
        assert_eq!(reds(channel), vec![frames as u8; channel.len()]);
        // and every update stood between the two other phases of its frame.
        assert_eq!(greens(channel), vec![1; channel.len()]);
    }
}

#[test]
fn deactivated_channel_keeps_its_buffer_and_comes_back() {
    let mut array = three_channels();
    let mut probe = CountingEffect::new();
    let analysis = process_audio(vec![]);
    update_channels(&mut array, &analysis, &mut probe);
    assert_eq!(array.deactivate(0), SwitchOutcome::Moved);
    assert_eq!(array.get_channels().len(), 2);
    assert_eq!(array.get_inactive_channels().len(), 1);
    assert_eq!(reds(&array.get_inactive_channels()[0]), vec![1, 1, 1]);
    update_channels(&mut array, &analysis, &mut probe);
    update_channels(&mut array, &analysis, &mut probe);
    // The channel that was switched off has missed two frames.
    let (channel, active) = array.find_channel(0).unwrap();
    assert!(!active);
    assert_eq!(reds(channel), vec![1, 1, 1]);
    assert_eq!(reds(array.find_channel(1).unwrap().0), vec![3, 3]);
    assert_eq!(reds(array.find_channel(2).unwrap().0), vec![3, 3, 3, 3]);
    assert_eq!(array.activate(0), SwitchOutcome::Moved);
    let (channel, active) = array.find_channel(0).unwrap();
    assert!(active);
    assert_eq!(reds(channel), vec![1, 1, 1]);
    assert_eq!(array.get_channels().len(), 3);
    assert!(array.get_inactive_channels().is_empty());
    update_channels(&mut array, &analysis, &mut probe);
    assert_eq!(reds(array.find_channel(0).unwrap().0), vec![2, 2, 2]);
    assert_eq!(reds(array.find_channel(1).unwrap().0), vec![4, 4]);
}

#[test]
fn switching_twice_or_an_unknown_channel_changes_nothing() {
    let mut array = three_channels();
    assert_eq!(array.activate(1), SwitchOutcome::AlreadySet);
    assert_eq!(array.deactivate(3), SwitchOutcome::UnknownChannel);
    assert_eq!(array.activate(usize::MAX), SwitchOutcome::UnknownChannel);
    assert_eq!(array.get_channels().len(), 3);
    assert_eq!(array.deactivate(1), SwitchOutcome::Moved);
    assert_eq!(array.deactivate(1), SwitchOutcome::AlreadySet);
    assert_eq!(array.get_channels().len(), 2);
    assert_eq!(array.get_inactive_channels().len(), 1);
    assert_eq!(array.channel_count(), 3);
}

#[test]
fn deactivate_moves_the_last_active_channel_into_the_gap() {
    let mut array = three_channels();
    assert_eq!(array.deactivate(0), SwitchOutcome::Moved);
    let lengths: Vec<usize> = array.get_channels().iter().map(|c| c.len()).collect();
    assert_eq!(lengths, vec![4, 2]);
    assert_eq!(array.deactivate(1), SwitchOutcome::Moved);
    let lengths: Vec<usize> = array.get_channels().iter().map(|c| c.len()).collect();
    assert_eq!(lengths, vec![4]);
    let lengths: Vec<usize> = array.get_inactive_channels().iter().map(|c| c.len()).collect();
    assert_eq!(lengths, vec![3, 2]);
    assert_eq!(array.activate(0), SwitchOutcome::Moved);
    let lengths: Vec<usize> = array.get_channels().iter().map(|c| c.len()).collect();
    assert_eq!(lengths, vec![4, 3]);
    let lengths: Vec<usize> = array.get_inactive_channels().iter().map(|c| c.len()).collect();
    assert_eq!(lengths, vec![2]);
    for id in 0..3 {
        let expected = [3, 2, 4][id];
        assert_eq!(array.find_channel(id).unwrap().0.len(), expected);
    }
    assert!(array.find_channel(3).is_none());
}

#[test]
fn stop_lets_the_frame_in_flight_complete() {
    let mut array = three_channels();
    let mut probe = CountingEffect::new();
    let mut provider = FakeSoundProvider::new();
    let (sender, receiver) = channel();
    sender.send(ControlMessage::Stop).unwrap();
    provider.reads_left = Some(5);
    let report = audio_processing_thread(&mut array, &mut provider, &mut probe, &receiver, 10);
    assert_eq!(report, RunReport { frames: 1, exit: LoopExit::Stopped });
    // One window was read, and none behind the frame that was stopped.
    assert_eq!(provider.reads_left, Some(4));
    assert_eq!(probe, CountingEffect { pre_updates: 1, post_updates: 1 });
    for channel in array.get_channels() {
        assert_eq!(reds(channel), vec![1; channel.len()]);
        assert_eq!(greens(channel), vec![1; channel.len()]);
    }
}

#[test]
fn messages_are_taken_one_at_each_frame_boundary() {
    let mut array = three_channels();
    let mut probe = CountingEffect::new();
    let mut provider = FakeSoundProvider::new();
    let (sender, receiver) = channel();
    sender.send(ControlMessage::Deactivate(1)).unwrap();
    sender.send(ControlMessage::Deactivate(7)).unwrap();
    sender.send(ControlMessage::Activate(1)).unwrap();
    sender.send(ControlMessage::Stop).unwrap();
    sender.send(ControlMessage::Deactivate(0)).unwrap();
    let report = audio_processing_thread(&mut array, &mut provider, &mut probe, &receiver, 10);
    assert_eq!(report, RunReport { frames: 4, exit: LoopExit::Stopped });
    // Frame 1 renders all; channel 1 misses frames 2 and 3 and is back for frame 4.
    assert_eq!(reds(array.find_channel(0).unwrap().0), vec![4, 4, 4]);
    assert_eq!(reds(array.find_channel(1).unwrap().0), vec![2, 2]);
    assert_eq!(reds(array.find_channel(2).unwrap().0), vec![4, 4, 4, 4]);
    // What was sent behind the stop message is still waiting.
    assert_eq!(receiver.try_recv(), Ok(ControlMessage::Deactivate(0)));
    assert!(array.find_channel(0).unwrap().1);
}

#[test]
fn device_loss_on_the_third_read_ends_the_run_after_two_frames() {
    let mut array = three_channels();
    let mut probe = CountingEffect::new();
    let mut provider = FakeSoundProvider::failing_after(2);
    let (_sender, receiver) = channel();
    let report = audio_processing_thread(&mut array, &mut provider, &mut probe, &receiver, 10);
    assert_eq!(
        report,
        RunReport { frames: 2, exit: LoopExit::DeviceFailed(DeviceError::DeviceLost) }
    );
    // Two reads succeeded, the third failed, and there was no fourth.
    assert_eq!(
        provider,
        FakeSoundProvider { level: 0, reads_left: Some(0), broken: false, ready: true }
    );
    assert_eq!(probe, CountingEffect { pre_updates: 2, post_updates: 2 });
    for channel in array.get_channels() {
        assert_eq!(reds(channel), vec![2; channel.len()]);
    }
}

#[test]
fn failed_setup_renders_nothing() {
    let mut array = three_channels();
    let mut probe = CountingEffect::new();
    let mut provider = FakeSoundProvider::failing_setup();
    let (sender, receiver) = channel();
    sender.send(ControlMessage::Deactivate(0)).unwrap();
    let report = audio_processing_thread(&mut array, &mut provider, &mut probe, &receiver, 10);
    assert_eq!(
        report,
        RunReport { frames: 0, exit: LoopExit::DeviceFailed(DeviceError::InitFailed) }
    );
    // The source was not read and is not ready; no message was taken.
    assert_eq!(provider, FakeSoundProvider::failing_setup());
    assert_eq!(receiver.try_recv(), Ok(ControlMessage::Deactivate(0)));
    assert_eq!(array.get_channels().len(), 3);
    assert_eq!(probe, CountingEffect::new());
    assert_eq!(reds(&array.get_channels()[0]), vec![0, 0, 0]);
}

#[test]
fn the_run_ends_when_its_frames_are_done() {
    let mut array = three_channels();
    let mut probe = CountingEffect::new();
    let mut provider = FakeSoundProvider::new();
    provider.init().unwrap();
    let (sender, receiver) = channel::<ControlMessage>();
    provider.reads_left = Some(100);
    let report = process_frames(&mut array, &mut provider, &mut probe, &receiver, 16, 3);
    assert_eq!(report, RunReport { frames: 3, exit: LoopExit::OutOfFrames });
    // One read for every frame.
    assert_eq!(provider.reads_left, Some(97));
    let report = process_frames(&mut array, &mut provider, &mut probe, &receiver, 16, 0);
    assert_eq!(report, RunReport { frames: 0, exit: LoopExit::OutOfFrames });
    // A control role that has gone away sends nothing; the loop goes on.
    drop(sender);
    let report = process_frames(&mut array, &mut provider, &mut probe, &receiver, 16, 2);
    assert_eq!(report, RunReport { frames: 2, exit: LoopExit::OutOfFrames });
    assert_eq!(probe.pre_updates, 5);
}

#[test]
fn reading_before_setup_is_a_device_error() {
    let mut array = three_channels();
    let mut probe = CountingEffect::new();
    let mut provider = FakeSoundProvider::new();
    let (_sender, receiver) = channel::<ControlMessage>();
    let report = process_frames(&mut array, &mut provider, &mut probe, &receiver, 16, 3);
    assert_eq!(
        report,
        RunReport { frames: 0, exit: LoopExit::DeviceFailed(DeviceError::NotReady) }
    );
}

#[test]
fn render_window_skips_the_frame_of_a_failed_read() {
    let mut array = three_channels();
    let mut probe = CountingEffect::new();
    assert_eq!(render_window(&mut array, &mut probe, Err(DeviceError::DeviceLost)), Err(DeviceError::DeviceLost));
    assert_eq!(probe, CountingEffect::new());
    assert_eq!(reds(&array.get_channels()[0]), vec![0, 0, 0]);
    assert_eq!(render_window(&mut array, &mut probe, Ok(vec![1, 2, 3])), Ok(()));
    assert_eq!(probe, CountingEffect { pre_updates: 1, post_updates: 1 });
    assert_eq!(reds(&array.get_channels()[0]), vec![1, 1, 1]);
}

#[test]
fn apply_control_acts_on_each_message() {
    let mut array = three_channels();
    assert!(apply_control(&mut array, None));
    assert_eq!(array.get_channels().len(), 3);
    assert!(apply_control(&mut array, Some(ControlMessage::Deactivate(2))));
    assert_eq!(array.get_channels().len(), 2);
    assert!(!array.find_channel(2).unwrap().1);
    assert!(apply_control(&mut array, Some(ControlMessage::Activate(2))));
    assert!(array.find_channel(2).unwrap().1);
    assert!(apply_control(&mut array, Some(ControlMessage::Activate(9))));
    assert!(!apply_control(&mut array, Some(ControlMessage::Stop)));
    assert_eq!(array.get_channels().len(), 3);
}

#[test]
fn fake_effect_paints_its_colour() {
    let mut array = three_channels();
    let mut effect = FakeEffect::default();
    assert_eq!(effect.color, [255, 255, 255, 0]);
    let analysis = process_audio(vec![1]);
    array.deactivate(1);
    update_channels(&mut array, &analysis, &mut effect);
    assert_eq!(array.find_channel(0).unwrap().0.as_slice(), &[[255, 255, 255, 0]; 3]);
    assert_eq!(array.find_channel(1).unwrap().0.as_slice(), &[[0, 0, 0, 0]; 2]);
    assert_eq!(array.find_channel(2).unwrap().0.as_slice(), &[[255, 255, 255, 0]; 4]);
    assert_eq!(effect, FakeEffect { color: [255, 255, 255, 0] });
}

#[test]
fn get_channels_mut_gives_the_active_channels() {
    let mut array = three_channels();
    array.deactivate(0);
    for channel in array.get_channels_mut() {
        channel.fill([1, 2, 3, 0]);
    }
    assert_eq!(array.find_channel(0).unwrap().0.as_slice(), &[[0, 0, 0, 0]; 3]);
    assert_eq!(array.find_channel(1).unwrap().0.as_slice(), &[[1, 2, 3, 0]; 2]);
    assert_eq!(array.find_channel(2).unwrap().0.as_slice(), &[[1, 2, 3, 0]; 4]);
}

#[test]
fn counting_effect_marks_updates_outside_a_frame() {
    let mut channel = LEDChannel::new(2, 8, vec![]).unwrap();
    channel.set_pixel(0, [255, 9, 7, 3]);
    let analysis = process_audio(vec![]);
    let mut probe = CountingEffect::new();
    // No frame is open: green says 0. Red stops at 255.
    probe.update(&mut channel, &analysis);
    assert_eq!(channel.as_slice(), &[[255, 0, 7, 3], [1, 0, 0, 0]]);
    probe.pre_update(&analysis);
    probe.pre_update(&analysis);
    probe.update(&mut channel, &analysis);
    assert_eq!(channel.as_slice(), &[[255, 2, 7, 3], [2, 2, 0, 0]]);
    probe.post_update(&analysis);
    probe.update(&mut channel, &analysis);
    assert_eq!(channel.as_slice(), &[[255, 1, 7, 3], [3, 1, 0, 0]]);
    let mut full = CountingEffect { pre_updates: u64::MAX, post_updates: u64::MAX - 300 };
    full.pre_update(&analysis);
    assert_eq!(full.pre_updates, u64::MAX);
    full.update(&mut channel, &analysis);
    assert_eq!(channel.pixel(0), [255, 255, 7, 3]);
    assert_eq!(channel.pixel(1), [4, 255, 0, 0]);
}

#[test]
fn every_frame_renders_the_window_that_was_read_for_it() {
    // The level of the window shows in what the effect is given: an effect
    // that paints with the peak would need the analysis, so read it here.
    let mut provider = FakeSoundProvider { level: 9, reads_left: Some(3), broken: false, ready: false };
    provider.init().unwrap();
    let window = provider.read(16).unwrap();
    assert_eq!(window, vec![9; 16]);
    assert_eq!(process_audio(window).peak, 9);
    let mut array = three_channels();
    let mut probe = CountingEffect::new();
    let (_sender, receiver) = channel::<ControlMessage>();
    let report = process_frames(&mut array, &mut provider, &mut probe, &receiver, 16, 10);
    // Two reads were left: two frames, then the loss of the device.
    assert_eq!(
        report,
        RunReport { frames: 2, exit: LoopExit::DeviceFailed(DeviceError::DeviceLost) }
    );
    assert_eq!(reds(&array.get_channels()[0]), vec![2, 2, 2]);
}
