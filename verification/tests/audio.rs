use irradiance::command::{handle_command_line, parse_command, ControlMessage};
use irradiance::sound::{DeviceError, FakeSoundProvider, IrradianceSoundProvider};
use irradiance::{process_audio, AudioAnalysis};

#[test]
fn analysis_of_a_window() {
    assert_eq!(
        process_audio(vec![3, 9, 4, 1]),
        AudioAnalysis { samples: 4, peak: 9, level: 4 }
    );
    assert_eq!(process_audio(vec![7]), AudioAnalysis { samples: 1, peak: 7, level: 7 });
    assert_eq!(process_audio(vec![1, 2]), AudioAnalysis { samples: 2, peak: 2, level: 1 });
}

#[test]
fn analysis_of_an_empty_window() {
    assert_eq!(process_audio(vec![]), AudioAnalysis { samples: 0, peak: 0, level: 0 });
}

#[test]
fn analysis_of_the_loudest_window() {
    assert_eq!(
        process_audio(vec![u32::MAX; 1000]),
        AudioAnalysis { samples: 1000, peak: u32::MAX, level: u32::MAX }
    );
}

#[test]
fn analysis_depends_on_the_samples_alone() {
    let window = vec![5, 1, 8, 8, 2];
    assert_eq!(process_audio(window.clone()), process_audio(window));
}

#[test]
fn fake_provider_reads_one_sample_for_each_millisecond() {
    let mut provider = FakeSoundProvider { level: 42, reads_left: None, broken: false, ready: false };
    assert_eq!(provider.read(16), Err(DeviceError::NotReady));
    assert_eq!(provider.init(), Ok(()));
    assert!(provider.ready);
    assert_eq!(provider.read(16), Ok(vec![42; 16]));
    assert_eq!(provider.read(0), Ok(vec![]));
    assert_eq!(provider, FakeSoundProvider { level: 42, reads_left: None, broken: false, ready: true });
}

#[test]
fn fake_provider_loses_its_device_when_told() {
    let mut provider = FakeSoundProvider::failing_after(2);
    assert_eq!(provider, FakeSoundProvider { level: 0, reads_left: Some(2), broken: false, ready: false });
    provider.init().unwrap();
    assert_eq!(provider.read(3), Ok(vec![0, 0, 0]));
    assert_eq!(provider.reads_left, Some(1));
    assert_eq!(provider.read(3), Ok(vec![0, 0, 0]));
    assert_eq!(provider.read(3), Err(DeviceError::DeviceLost));
    assert_eq!(provider.read(3), Err(DeviceError::DeviceLost));
    assert_eq!(provider.reads_left, Some(0));
}

#[test]
fn fake_provider_starts_silent() {
    let provider = FakeSoundProvider::new();
    assert_eq!(provider, FakeSoundProvider { level: 0, reads_left: None, broken: false, ready: false });
}

#[test]
fn operator_lines_that_ask_for_a_message() {
    assert_eq!(handle_command_line("stop"), Some(ControlMessage::Stop));
    assert_eq!(handle_command_line("activate 0"), Some(ControlMessage::Activate(0)));
    assert_eq!(handle_command_line("activate 17"), Some(ControlMessage::Activate(17)));
    assert_eq!(handle_command_line("deactivate 3"), Some(ControlMessage::Deactivate(3)));
    assert_eq!(handle_command_line("deactivate 007"), Some(ControlMessage::Deactivate(7)));
    assert_eq!(
        handle_command_line(&format!("activate {}", usize::MAX)),
        Some(ControlMessage::Activate(usize::MAX))
    );
    assert_eq!(parse_command(b"stop"), Some(ControlMessage::Stop));
}

#[test]
fn operator_lines_that_ask_for_nothing() {
    for line in [
        "",
        "sto",
        "stop ",
        " stop",
        "STOP",
        "stopp",
        "activate",
        "activate ",
        "activate x",
        "activate 1x",
        "activate -1",
        "activate  1",
        "activate 1 ",
        "deactivate",
        "deactivate ",
        "deactivate 1.5",
        "reactivate 1",
        "activate 99999999999999999999999999",
    ] {
        assert_eq!(handle_command_line(line), None);
    }
    let too_large = format!("deactivate {}0", usize::MAX);
    assert_eq!(handle_command_line(&too_large), None);
    let one_more = format!("{}", usize::MAX as u128 + 1);
    assert_eq!(handle_command_line(&format!("activate {}", one_more)), None);
}

#[test]
fn fake_provider_can_fail_its_setup() {
    let mut provider = FakeSoundProvider::failing_setup();
    assert_eq!(
        provider,
        FakeSoundProvider { level: 0, reads_left: None, broken: true, ready: false }
    );
    assert_eq!(provider.init(), Err(DeviceError::InitFailed));
    assert!(!provider.ready);
    assert_eq!(provider.read(4), Err(DeviceError::NotReady));
    assert_eq!(provider, FakeSoundProvider::failing_setup());
}
