use colorctl::rgb::{Channel, ChannelConfig, RgbController, RgbState};

#[test]
fn test_rgb_state_channel_preservation() {
    let mut state = RgbState::default();
    for ch in Channel::all() {
        assert!(!state.channels.get(ch).unwrap().enabled);
    }

    // Set 5V_1 to red
    state.channels.insert(
        Channel::Argb1,
        ChannelConfig {
            color: [255, 0, 0],
            brightness: 100,
            enabled: true,
        },
    );

    // Set 5V_2 to blue
    state.channels.insert(
        Channel::Argb2,
        ChannelConfig {
            color: [0, 0, 255],
            brightness: 80,
            enabled: true,
        },
    );

    // 5V_1 must still be red and enabled
    let argb1 = state.channels.get(&Channel::Argb1).unwrap();
    assert!(argb1.enabled);
    assert_eq!(argb1.color, [255, 0, 0]);

    // 5V_2 must be blue and enabled
    let argb2 = state.channels.get(&Channel::Argb2).unwrap();
    assert!(argb2.enabled);
    assert_eq!(argb2.color, [0, 0, 255]);

    // Check the generated LED buffer
    let leds = state.to_leds();
    for i in Channel::Argb1.led_range() {
        assert_eq!(leds[i], [255, 0, 0]);
    }
    let expected_blue = RgbController::scale_color([0, 0, 255], 80);
    for i in Channel::Argb2.led_range() {
        assert_eq!(leds[i], expected_blue);
    }
    for i in Channel::Led.led_range() {
        assert_eq!(leds[i], [0, 0, 0]);
    }
}

#[test]
fn test_rgb_state_binary_serialization() {
    let mut state = RgbState::default();
    state.channels.insert(
        Channel::Argb1,
        ChannelConfig {
            color: [255, 0, 0],
            brightness: 100,
            enabled: true,
        },
    );
    let bytes = state.to_bytes();
    assert_eq!(bytes.len(), 35);
    assert_eq!(&bytes[0..4], b"CCTL");
    assert_eq!(bytes[4], 1);

    let deserialized = RgbState::from_bytes(&bytes).unwrap();
    let cfg = deserialized.channels.get(&Channel::Argb1).unwrap();
    assert!(cfg.enabled);
    assert_eq!(cfg.color, [255, 0, 0]);
    assert_eq!(cfg.brightness, 100);

    // Invalid magic / truncated bytes return None
    assert!(RgbState::from_bytes(&[0, 1, 2]).is_none());
    assert!(RgbState::from_bytes(&[b'X', b'X', b'X', b'X', 1]).is_none());
}

#[test]
fn state_bytes_layout_is_exact() {
    let mut state = RgbState::default();
    state.channels.insert(
        Channel::Rgb2,
        ChannelConfig { color: [1, 2, 3], brightness: 40, enabled: true },
    );
    let bytes = state.to_bytes();
    let mut expected = vec![b'C', b'C', b'T', b'L', 1];
    for ch in Channel::all() {
        if *ch == Channel::Rgb2 {
            expected.extend_from_slice(&[1, 2, 3, 40, 1]);
        } else {
            expected.extend_from_slice(&[0, 0, 0, 0, 0]);
        }
    }
    assert_eq!(bytes, expected);
}

#[test]
fn state_bytes_roundtrip_fills_missing_channels() {
    let mut state = RgbState { channels: colorctl::rgb::ChannelMap::new() };
    state.channels.insert(
        Channel::Led,
        ChannelConfig { color: [9, 8, 7], brightness: 55, enabled: true },
    );
    let back = RgbState::from_bytes(&state.to_bytes()).unwrap();
    for ch in Channel::all() {
        let cfg = back.channels.get(ch).unwrap();
        if *ch == Channel::Led {
            assert_eq!(*cfg, ChannelConfig { color: [9, 8, 7], brightness: 55, enabled: true });
        } else {
            assert_eq!(*cfg, ChannelConfig::default());
        }
    }
}

#[test]
fn bytes_state_roundtrip_normalizes_enabled_and_drops_tail() {
    let mut bytes = vec![b'C', b'C', b'T', b'L', 1];
    for k in 0..6u8 {
        bytes.extend_from_slice(&[k, k + 1, k + 2, 10 * k, if k % 2 == 0 { 7 } else { 0 }]);
    }
    bytes.extend_from_slice(&[42, 42]);
    let state = RgbState::from_bytes(&bytes).unwrap();
    let out = state.to_bytes();
    assert_eq!(out.len(), 35);
    for i in 0..35 {
        if i >= 5 && (i - 5) % 5 == 4 {
            assert_eq!(out[i], if bytes[i] != 0 { 1 } else { 0 });
        } else {
            assert_eq!(out[i], bytes[i]);
        }
    }
    assert_eq!(RgbState::from_bytes(&out), Some(state));
}

#[test]
fn from_bytes_rejects_short_bad_magic_and_bad_version() {
    let good = RgbState::default().to_bytes();
    assert!(RgbState::from_bytes(&good[..34]).is_none());
    let mut bad_magic = good.clone();
    bad_magic[2] = b'X';
    assert!(RgbState::from_bytes(&bad_magic).is_none());
    let mut bad_version = good.clone();
    bad_version[4] = 2;
    assert!(RgbState::from_bytes(&bad_version).is_none());
    assert!(RgbState::from_bytes(&good).is_some());
}

#[test]
fn to_leds_disabled_and_missing_channels_are_black() {
    let mut state = RgbState { channels: colorctl::rgb::ChannelMap::new() };
    state.channels.insert(
        Channel::Argb3,
        ChannelConfig { color: [200, 100, 50], brightness: 50, enabled: false },
    );
    state.channels.insert(
        Channel::Rgb1,
        ChannelConfig { color: [200, 100, 50], brightness: 50, enabled: true },
    );
    let leds = state.to_leds();
    assert_eq!(leds.len(), 200);
    for (i, led) in leds.iter().enumerate() {
        if i == 18 {
            assert_eq!(*led, [100, 50, 25]);
        } else {
            assert_eq!(*led, [0, 0, 0]);
        }
    }
}

#[test]
fn channel_map_insert_returns_previous() {
    let mut m = colorctl::rgb::ChannelMap::new();
    assert!(!m.contains_key(&Channel::Led));
    let a = ChannelConfig { color: [1, 1, 1], brightness: 1, enabled: true };
    let b = ChannelConfig { color: [2, 2, 2], brightness: 2, enabled: false };
    assert_eq!(m.insert(Channel::Led, a), None);
    assert_eq!(m.insert(Channel::Led, b), Some(a));
    assert_eq!(m.get(&Channel::Led), Some(&b));
    assert!(m.contains_key(&Channel::Led));
    assert_eq!(m.get(&Channel::Rgb1), None);
}
