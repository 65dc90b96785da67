use std::path::PathBuf;

use colorctl::rgb::{
    descriptor_has_vendor_page, uevent_is_controller, Channel, ChannelConfig,
    RgbController, RgbState, TOTAL_LEDS,
};

fn controller() -> RgbController {
    RgbController::new(
        PathBuf::from("/dev/hidraw3"),
        PathBuf::from("/tmp/rgb.state"),
        RgbState::default(),
    )
}

#[test]
fn controller_keeps_paths() {
    let c = controller();
    assert_eq!(c.device_path(), &PathBuf::from("/dev/hidraw3"));
    assert_eq!(c.state_path(), &PathBuf::from("/tmp/rgb.state"));
}

#[test]
fn set_channel_color_reads_back_and_preserves_others() {
    let mut c = controller();
    c.set_channel_color(Channel::Argb2, [10, 20, 30], 100);
    c.set_channel_color(Channel::Led, [255, 255, 255], 50);
    assert_eq!(
        c.get_channel_config(Channel::Argb2),
        ChannelConfig { color: [10, 20, 30], brightness: 100, enabled: true }
    );
    assert_eq!(
        c.get_channel_config(Channel::Led),
        ChannelConfig { color: [255, 255, 255], brightness: 50, enabled: true }
    );
    assert_eq!(c.get_channel_config(Channel::Rgb1), ChannelConfig::default());
    c.turn_off_channel(Channel::Argb2);
    assert_eq!(c.get_channel_config(Channel::Argb2), ChannelConfig::default());
    assert_eq!(
        c.get_channel_config(Channel::Led),
        ChannelConfig { color: [255, 255, 255], brightness: 50, enabled: true }
    );
}

#[test]
fn state_bytes_follow_controller_state() {
    let mut c = controller();
    c.set_channel_color(Channel::Rgb1, [1, 2, 3], 77);
    let bytes = c.state_bytes();
    assert_eq!(bytes.len(), 35);
    assert_eq!(&bytes[10..15], &[1, 2, 3, 77, 1]);
    let back = RgbState::from_bytes(&bytes).unwrap();
    assert_eq!(
        *back.channels.get(&Channel::Rgb1).unwrap(),
        ChannelConfig { color: [1, 2, 3], brightness: 77, enabled: true }
    );
}

#[test]
fn scale_color_rounds_down_and_caps_brightness() {
    assert_eq!(RgbController::scale_color([255, 128, 1], 50), [127, 64, 0]);
    assert_eq!(RgbController::scale_color([255, 128, 1], 100), [255, 128, 1]);
    assert_eq!(RgbController::scale_color([255, 128, 1], 250), [255, 128, 1]);
    assert_eq!(RgbController::scale_color([255, 128, 1], 0), [0, 0, 0]);
    assert_eq!(RgbController::scale_color([0, 0, 255], 80), [0, 0, 204]);
}

#[test]
fn frames_carry_all_leds_with_report_id() {
    let mut c = controller();
    c.set_channel_color(Channel::Argb1, [1, 2, 3], 100);
    c.set_channel_color(Channel::Argb3, [4, 5, 6], 100);
    c.set_channel_color(Channel::Led, [9, 9, 9], 100);
    c.set_channel_color(Channel::Rgb2, [7, 0, 7], 100);
    let frames = c.frames(true);
    assert_eq!(frames.len(), 11);
    for (k, f) in frames.iter().enumerate() {
        assert_eq!(f.len(), 65);
        assert_eq!(&f[0..4], &[0, 1, 0, 0x88]);
        if k < 10 {
            assert_eq!(f[4] as usize, k);
            for led in 0..20 {
                let i = k * 20 + led;
                let expected: [u8; 3] = if i < 18 {
                    [9, 9, 9]
                } else if i == 19 {
                    [7, 0, 7]
                } else if (20..80).contains(&i) {
                    [1, 2, 3]
                } else if (140..200).contains(&i) {
                    [4, 5, 6]
                } else {
                    [0, 0, 0]
                };
                assert_eq!(&f[5 + led * 3..8 + led * 3], &expected);
            }
        } else {
            assert_eq!(f[4], 0xff);
            assert!(f[5..].iter().all(|b| *b == 0));
        }
    }
}

#[test]
fn frames_without_report_id_drop_the_first_byte() {
    let mut c = controller();
    c.set_channel_color(Channel::Argb2, [7, 8, 9], 100);
    let with = c.frames(true);
    let without = c.frames(false);
    assert_eq!(without.len(), 11);
    for k in 0..11 {
        assert_eq!(without[k].len(), 64);
        assert_eq!(&with[k][1..], &without[k][..]);
    }
    assert_eq!(&without[0][0..4], &[1, 0, 0x88, 0]);
}

#[test]
fn led_ranges_cover_all_leds_once() {
    let mut seen = [0u8; TOTAL_LEDS];
    for ch in Channel::all() {
        for i in ch.led_range() {
            seen[i] += 1;
        }
    }
    assert!(seen.iter().all(|n| *n == 1));
    assert_eq!(Channel::Led.led_range(), 0..18);
    assert_eq!(Channel::Argb3.led_range(), 140..200);
}

#[test]
fn channel_names() {
    assert_eq!(Channel::Led.name(), "LED (Onboard)");
    assert_eq!(Channel::Rgb2.name(), "12V_2 (12V RGB Header 2)");
    assert_eq!(Channel::Argb3.name(), "5V_3 (ARGB Header 3)");
    assert_eq!(Channel::all().len(), 6);
}

#[test]
fn uevent_identifies_controller() {
    let u = "DRIVER=hid-generic\nHID_ID=0003:00002F4C:00001000\nHID_NAME=RGB\n";
    assert!(uevent_is_controller(u));
    assert!(uevent_is_controller("HID_ID=0003:12f4c:1000\r\n"));
    assert!(!uevent_is_controller("HID_ID=0003:00002F4C:00001001\n"));
    assert!(!uevent_is_controller("HID_ID=0003:00002F4C\n"));
    assert!(!uevent_is_controller("XHID_ID=0003:00002F4C:00001000\n"));
    assert!(!uevent_is_controller(""));
    assert!(!uevent_is_controller("HID_ID=0003:zz:00001000\n"));
}

#[test]
fn descriptor_vendor_page() {
    assert!(descriptor_has_vendor_page(&[0x05, 0x06, 0x01, 0xff, 0x09]));
    assert!(descriptor_has_vendor_page(&[0x06, 0x01, 0xff]));
    assert!(!descriptor_has_vendor_page(&[0x06, 0x01]));
    assert!(!descriptor_has_vendor_page(&[0x06, 0x00, 0xff, 0x01]));
    assert!(!descriptor_has_vendor_page(&[]));
}

#[test]
fn last_command_on_each_channel_wins() {
    let mut c = RgbController::new(
        PathBuf::from("/dev/hidraw0"),
        PathBuf::from("/tmp/rgb.state"),
        RgbState::from_bytes(&{
            let mut s = RgbState::default();
            s.channels.insert(
                Channel::Rgb1,
                ChannelConfig { color: [5, 5, 5], brightness: 5, enabled: true },
            );
            s.to_bytes()
        })
        .unwrap(),
    );
    c.set_channel_color(Channel::Led, [1, 1, 1], 10);
    c.turn_off_channel(Channel::Argb1);
    c.set_channel_color(Channel::Argb1, [2, 2, 2], 20);
    c.set_channel_color(Channel::Led, [3, 3, 3], 30);
    c.turn_off_channel(Channel::Argb2);
    assert_eq!(
        c.get_channel_config(Channel::Led),
        ChannelConfig { color: [3, 3, 3], brightness: 30, enabled: true }
    );
    assert_eq!(
        c.get_channel_config(Channel::Argb1),
        ChannelConfig { color: [2, 2, 2], brightness: 20, enabled: true }
    );
    assert_eq!(c.get_channel_config(Channel::Argb2), ChannelConfig::default());
    assert_eq!(
        c.get_channel_config(Channel::Rgb1),
        ChannelConfig { color: [5, 5, 5], brightness: 5, enabled: true }
    );
    let leds = c.frames(true);
    assert_eq!(&leds[0][5..8], &[0, 0, 0]); // 3 * 30 / 100 rounds down to 0
}

#[test]
fn set_and_turn_off_several_channels() {
    let mut c = controller();
    c.set_channels_color(&vec![Channel::Led, Channel::Argb2, Channel::Led], [4, 5, 6], 100);
    assert_eq!(
        c.get_channel_config(Channel::Argb2),
        ChannelConfig { color: [4, 5, 6], brightness: 100, enabled: true }
    );
    assert_eq!(
        c.get_channel_config(Channel::Led),
        ChannelConfig { color: [4, 5, 6], brightness: 100, enabled: true }
    );
    assert_eq!(c.get_channel_config(Channel::Rgb1), ChannelConfig::default());
    c.turn_off_channels(&vec![Channel::Led]);
    assert_eq!(c.get_channel_config(Channel::Led), ChannelConfig::default());
    assert_eq!(
        c.get_channel_config(Channel::Argb2),
        ChannelConfig { color: [4, 5, 6], brightness: 100, enabled: true }
    );
    let frames = c.frames(true);
    assert_eq!(&frames[0][5..8], &[0, 0, 0]);
    assert_eq!(&frames[4][5..8], &[4, 5, 6]);
}

#[test]
fn state_magic_and_version() {
    assert_eq!(&RgbState::MAGIC, b"CCTL");
    assert_eq!(RgbState::VERSION, 1);
    let bytes = RgbState::default().to_bytes();
    assert_eq!(&bytes[0..4], &RgbState::MAGIC);
    assert_eq!(bytes[4], RgbState::VERSION);
}
