use irradiance::control::flush::{delivery_errors, encode_pixels, quantise_component};
use irradiance::control::{
    ChannelConfig, ChannelMapping, ControllerConfig, ControllerFrame, ControllerLocation,
    DeliveryError, LEDArray, StripConfig, StripFrame, Topology,
};

#[test]
fn quantise_keeps_the_high_bits() {
    assert_eq!(quantise_component(0xab, 8), 0xab);
    assert_eq!(quantise_component(0xab, 4), 0xa0);
    assert_eq!(quantise_component(0xff, 1), 0x80);
    assert_eq!(quantise_component(0x7f, 1), 0x00);
    assert_eq!(quantise_component(0xff, 7), 0xfe);
    assert_eq!(quantise_component(0xff, 0), 0x00);
    assert_eq!(quantise_component(0xab, 9), 0xab);
    assert_eq!(quantise_component(0xab, usize::MAX), 0xab);
    assert_eq!(quantise_component(0x00, 3), 0x00);
    assert_eq!(quantise_component(0xc7, 5), 0xc0);
}

#[test]
fn quantise_agrees_with_masking_for_every_component() {
    for depth in 0..=8usize {
        let mask: u16 = (0xff00u16 >> depth) & 0xff;
        for component in 0..=255u8 {
            assert_eq!(quantise_component(component, depth), component & mask as u8);
        }
    }
}

#[test]
fn encode_sends_red_green_blue() {
    let pixels = [[1, 2, 3, 4], [255, 128, 64, 9]];
    assert_eq!(encode_pixels(&pixels, 8), vec![1, 2, 3, 255, 128, 64]);
    assert_eq!(encode_pixels(&pixels, 2), vec![0, 0, 0, 192, 128, 64]);
    assert_eq!(encode_pixels(&[], 8), Vec::<u8>::new());
}

fn two_controllers() -> LEDArray {
    let topology = Topology {
        controllers: vec![
            ControllerConfig {
                id: 1,
                location: ControllerLocation { ip: [10, 0, 0, 1], port: 7000 },
                strips: vec![StripConfig { id: 0, name: String::from("a") }],
            },
            ControllerConfig {
                id: 2,
                location: ControllerLocation { ip: [10, 0, 0, 2], port: 7000 },
                strips: vec![],
            },
            ControllerConfig {
                id: 3,
                location: ControllerLocation { ip: [10, 0, 0, 3], port: 7000 },
                strips: vec![],
            },
        ],
        channels: vec![
            ChannelConfig {
                length: 4,
                precision: 4,
                mappings: vec![
                    ChannelMapping { controller_id: 2, strip_id: 0, start: 0, end: 1 },
                    ChannelMapping { controller_id: 1, strip_id: 0, start: 2, end: 4 },
                ],
            },
            ChannelConfig {
                length: 2,
                precision: 8,
                mappings: vec![ChannelMapping { controller_id: 2, strip_id: 1, start: 0, end: 2 }],
            },
        ],
    };
    LEDArray::construct(&topology).unwrap()
}

#[test]
fn flush_reads_every_strip_from_its_channel() {
    let mut array = two_controllers();
    {
        let channels = array.get_channels_mut();
        channels[0].write(0, &[[0x11, 0x22, 0x33, 0], [0x44, 0x55, 0x66, 0], [0x77, 0x88, 0x99, 0], [0xaa, 0xbb, 0xcc, 0]]);
        channels[1].write(0, &[[1, 2, 3, 0], [4, 5, 6, 0]]);
    }
    // A channel that is switched off is still shown, as it was left.
    array.deactivate(0);
    let frames = array.flush();
    assert_eq!(
        frames,
        vec![
            ControllerFrame {
                controller_id: 1,
                location: ControllerLocation { ip: [10, 0, 0, 1], port: 7000 },
                strips: vec![StripFrame {
                    strip_id: 0,
                    bytes: vec![0x70, 0x80, 0x90, 0xa0, 0xb0, 0xc0],
                }],
            },
            ControllerFrame {
                controller_id: 2,
                location: ControllerLocation { ip: [10, 0, 0, 2], port: 7000 },
                strips: vec![
                    StripFrame { strip_id: 0, bytes: vec![0x10, 0x20, 0x30] },
                    StripFrame { strip_id: 1, bytes: vec![1, 2, 3, 4, 5, 6] },
                ],
            },
            ControllerFrame {
                controller_id: 3,
                location: ControllerLocation { ip: [10, 0, 0, 3], port: 7000 },
                strips: vec![],
            },
        ]
    );
    // Flushing reads only.
    assert_eq!(array.flush(), frames);
}

#[test]
fn delivery_errors_name_the_controllers_that_failed() {
    let frames = two_controllers().flush();
    assert_eq!(delivery_errors(&frames, &vec![true, true, true]), vec![]);
    assert_eq!(
        delivery_errors(&frames, &vec![false, true, false]),
        vec![DeliveryError { controller_id: 1 }, DeliveryError { controller_id: 3 }]
    );
    // A frame without a flag counts as not delivered.
    assert_eq!(
        delivery_errors(&frames, &vec![true]),
        vec![DeliveryError { controller_id: 2 }, DeliveryError { controller_id: 3 }]
    );
    assert_eq!(delivery_errors(&vec![], &vec![false]), vec![]);
}

#[test]
fn relocate_changes_the_location_only() {
    let mut array = two_controllers();
    let moved = ControllerLocation { ip: [172, 16, 0, 9], port: 1234 };
    assert!(array.relocate(2, moved));
    assert!(!array.relocate(9, moved));
    let controllers = array.get_controllers();
    assert_eq!(controllers[0].location, ControllerLocation { ip: [10, 0, 0, 1], port: 7000 });
    assert_eq!(controllers[1].location, moved);
    assert_eq!(controllers[1].strips.len(), 2);
    assert_eq!(array.flush()[1].location, moved);
}

#[test]
fn a_strip_shows_its_range_of_its_channel() {
    let mut array = two_controllers();
    array.get_channels_mut()[0].write(1, &[[5, 6, 7, 0], [8, 9, 10, 0], [11, 12, 13, 0]]);
    // Controller 1 has one strip, on the offsets 2..4 of channel 0, which is cut to 4 bits.
    assert_eq!(array.strip_pixels(0, 0), (&[[8, 9, 10, 0], [11, 12, 13, 0]][..], 4));
    // Controller 2 has two: offset 0 of channel 0, and all of channel 1.
    assert_eq!(array.strip_pixels(1, 0), (&[[0, 0, 0, 0]][..], 4));
    assert_eq!(array.strip_pixels(1, 1), (&[[0, 0, 0, 0], [0, 0, 0, 0]][..], 8));
    assert_eq!(array.get_channel(1).len(), 2);
}
