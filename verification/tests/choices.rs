use colorctl::cli::{
    curve_for, manual_pwm, select_channels, CurveChoiceError, FanProfile, FanTarget, RgbTarget,
    SpeedChoiceError,
};
use colorctl::fan::FanHeader;
use colorctl::rgb::Channel;
use colorctl::utils::{
    pct, pwm_to_pct, state_file_path, state_path_first, state_path_next, StateLocation, StatePathStep, StateProbe,
};

#[test]
fn targets_map_to_channels_and_headers() {
    assert_eq!(RgbTarget::All.channels(), Channel::all());
    assert_eq!(RgbTarget::Argb2.channels(), &[Channel::Argb2]);
    assert_eq!(RgbTarget::Led.channels(), &[Channel::Led]);
    assert_eq!(FanTarget::All.headers(), FanHeader::all());
    assert_eq!(FanTarget::Pump.headers(), &[FanHeader::Pump]);
    assert_eq!(FanTarget::ChaFan3.headers(), &[FanHeader::ChaFan3]);
}

#[test]
fn channel_selection() {
    assert_eq!(select_channels(&vec![RgbTarget::All]), (Channel::all().to_vec(), true));
    assert_eq!(
        select_channels(&vec![RgbTarget::Rgb2, RgbTarget::All]),
        (Channel::all().to_vec(), true)
    );
    assert_eq!(
        select_channels(&vec![RgbTarget::Led, RgbTarget::Argb1, RgbTarget::Led]),
        (vec![Channel::Led, Channel::Argb1], false)
    );
    assert_eq!(select_channels(&vec![]), (vec![], false));
}

#[test]
fn profiles() {
    assert_eq!(FanProfile::Quiet.points_for(false), [(20, 51), (40, 77), (60, 128), (80, 217)]);
    assert_eq!(FanProfile::Quiet.points_for(true), [(0, 204), (70, 204), (75, 255), (100, 255)]);
    assert_eq!(FanProfile::Standard.points_for(false), [(20, 51), (40, 102), (60, 153), (80, 255)]);
    assert_eq!(FanProfile::Standard.points_for(true), [(0, 204), (65, 204), (70, 255), (100, 255)]);
    assert_eq!(FanProfile::Full.points_for(false), [(30, 255), (50, 255), (70, 255), (100, 255)]);
    assert_eq!(FanProfile::Full.points_for(true), FanProfile::Full.points_for(false));
    for p in [FanProfile::Quiet, FanProfile::Standard, FanProfile::Full] {
        for pump in [false, true] {
            let pts = p.points_for(pump);
            for i in 1..4 {
                assert!(pts[i - 1].0 < pts[i].0 && pts[i - 1].1 <= pts[i].1);
            }
        }
    }
}

#[test]
fn speed_choice() {
    assert_eq!(manual_pwm(Some(60), None), Ok(153));
    assert_eq!(manual_pwm(None, Some(180)), Ok(180));
    assert_eq!(manual_pwm(Some(1), Some(2)), Err(SpeedChoiceError::Both));
    assert_eq!(manual_pwm(None, None), Err(SpeedChoiceError::Neither));
}

#[test]
fn curve_choice() {
    let pts = [(30, 51), (50, 102), (70, 179), (85, 255)];
    assert_eq!(curve_for(Some(pts), None, FanHeader::Cpu), Ok(pts));
    assert_eq!(
        curve_for(None, Some(FanProfile::Quiet), FanHeader::Pump),
        Ok(FanProfile::Quiet.points_for(true))
    );
    assert_eq!(
        curve_for(None, Some(FanProfile::Quiet), FanHeader::ChaFan1),
        Ok(FanProfile::Quiet.points_for(false))
    );
    assert_eq!(curve_for(Some(pts), Some(FanProfile::Full), FanHeader::Cpu), Err(CurveChoiceError::Both));
    assert_eq!(curve_for(None, None, FanHeader::Cpu), Err(CurveChoiceError::Neither));
}

#[test]
fn percent_and_pwm() {
    assert_eq!(pct(0), 0);
    assert_eq!(pct(1), 3);
    assert_eq!(pct(50), 128);
    assert_eq!(pct(100), 255);
    assert_eq!(pct(200), 255);
    assert_eq!(pwm_to_pct(0), 0);
    assert_eq!(pwm_to_pct(128), 50);
    assert_eq!(pwm_to_pct(255), 100);
    for p in 0..=255u8 {
        assert_eq!(pwm_to_pct(pct(p)), p.min(100));
        if p < 255 {
            assert!(pct(p) <= pct(p + 1));
        }
    }
}

#[test]
fn state_path_order() {
    assert_eq!(state_path_first(), StatePathStep::Ask(StateProbe::EnvStateFile));
    let order = [
        StateProbe::EnvStateFile,
        StateProbe::EnvStateDir,
        StateProbe::SystemFileWritable,
        StateProbe::RootCreatedSystemDir,
        StateProbe::SystemFileCreated,
        StateProbe::EnvXdgStateHome,
        StateProbe::EnvHome,
    ];
    for i in 0..6 {
        assert_eq!(state_path_next(order[i], false), StatePathStep::Ask(order[i + 1]));
    }
    assert_eq!(state_path_next(StateProbe::EnvHome, false), StatePathStep::Use(StateLocation::Tmp));
    assert_eq!(state_path_next(StateProbe::EnvStateDir, true), StatePathStep::Use(StateLocation::EnvDir));
    assert_eq!(
        state_path_next(StateProbe::RootCreatedSystemDir, true),
        StatePathStep::Use(StateLocation::SystemFile)
    );
    assert_eq!(state_path_next(StateProbe::EnvHome, true), StatePathStep::Use(StateLocation::Home));
    // the first yes wins
    let answers = [false, false, false, true, true, false, true];
    let mut step = state_path_first();
    let mut k = 0;
    let loc = loop {
        match step {
            StatePathStep::Ask(p) => {
                step = state_path_next(p, answers[k]);
                k += 1;
            }
            StatePathStep::Use(l) => break l,
        }
    };
    assert_eq!(loc, StateLocation::SystemFile);
    assert_eq!(k, 4);
}

#[test]
fn state_file_paths() {
    let n = "rgb.state";
    assert_eq!(state_file_path(StateLocation::EnvFile, "/x/y.bin", n), "/x/y.bin");
    assert_eq!(state_file_path(StateLocation::EnvDir, "/srv/cc", n), "/srv/cc/rgb.state");
    assert_eq!(state_file_path(StateLocation::EnvDir, "/srv/cc/", n), "/srv/cc/rgb.state");
    assert_eq!(state_file_path(StateLocation::EnvDir, "", n), "rgb.state");
    assert_eq!(state_file_path(StateLocation::SystemFile, "", n), "/var/lib/colorctl/rgb.state");
    assert_eq!(
        state_file_path(StateLocation::XdgStateHome, "/home/u/.state", n),
        "/home/u/.state/colorctl/rgb.state"
    );
    assert_eq!(
        state_file_path(StateLocation::Home, "/home/u", n),
        "/home/u/.local/state/colorctl/rgb.state"
    );
    assert_eq!(state_file_path(StateLocation::Tmp, "", n), "/tmp/colorctl/rgb.state");
    assert_eq!(state_file_path(StateLocation::EnvDir, "/a", "/abs"), "/abs");
    // the same text as std's Path::join
    for (base, part) in [("/a", "b"), ("/a/", "b"), ("", "b"), ("a", "/b"), ("/", "b")] {
        assert_eq!(
            state_file_path(StateLocation::EnvDir, base, part),
            std::path::Path::new(base).join(part).to_str().unwrap()
        );
    }
}
