//! What the command line selects: RGB targets, fan targets, built-in and
//! custom SmartFan curves, and the choices that the commands make from their
//! arguments.
use vstd::prelude::*;

use crate::fan::{all_headers, FanHeader};
use crate::rgb::{all_channels, Channel};
use crate::text::{
    chars_of, parse_unsigned, parse_unsigned_range, split, split_ranges, substring, trim,
    trim_range, IntErrorKind,
};
use crate::utils::{pct, spec_pct};

verus! {

/// The RGB channels that a command addresses.
#[derive(Clone, Copy, Debug, PartialEq, Eq, Structural)]
pub enum RgbTarget {
    All,
    Led,
    Rgb1,
    Rgb2,
    Argb1,
    Argb2,
    Argb3,
}

/// The channels of a target.
pub open spec fn target_channels(t: RgbTarget) -> Seq<Channel> {
    match t {
        RgbTarget::All => all_channels(),
        RgbTarget::Led => seq![Channel::Led],
        RgbTarget::Rgb1 => seq![Channel::Rgb1],
        RgbTarget::Rgb2 => seq![Channel::Rgb2],
        RgbTarget::Argb1 => seq![Channel::Argb1],
        RgbTarget::Argb2 => seq![Channel::Argb2],
        RgbTarget::Argb3 => seq![Channel::Argb3],
    }
}

impl RgbTarget {
    /// The channels that the target addresses.
    pub fn channels(&self) -> (r: &'static [Channel])
        ensures
            r@ == target_channels(*self),
    {
        match self {
            RgbTarget::All => Channel::all(),
            RgbTarget::Led => &[Channel::Led],
            RgbTarget::Rgb1 => &[Channel::Rgb1],
            RgbTarget::Rgb2 => &[Channel::Rgb2],
            RgbTarget::Argb1 => &[Channel::Argb1],
            RgbTarget::Argb2 => &[Channel::Argb2],
            RgbTarget::Argb3 => &[Channel::Argb3],
        }
    }
}

/// Arguments of the RGB command.
#[derive(Debug)]
pub struct RgbArgs {
    pub action: RgbAction,
}

/// What the RGB command does.
#[derive(Debug)]
pub enum RgbAction {
    /// Detect and show the RGB controller.
    Status,
    /// Set a colour (hex or name) at a brightness (0-100) on channels.
    SetColor { color: String, channel: Vec<RgbTarget>, brightness: u8 },
    /// Turn channels off.
    Off { channel: Vec<RgbTarget> },
}

/// Arguments of the fan command.
#[derive(Debug)]
pub struct FanArgs {
    pub action: FanAction,
}

/// The fan headers that a command addresses.
#[derive(Clone, Copy, Debug, PartialEq, Eq, Structural)]
pub enum FanTarget {
    All,
    Cpu,
    ChaFan1,
    ChaFan2,
    ChaFan3,
    Pump,
}

/// The headers of a target.
pub open spec fn target_headers(t: FanTarget) -> Seq<FanHeader> {
    match t {
        FanTarget::All => all_headers(),
        FanTarget::Cpu => seq![FanHeader::Cpu],
        FanTarget::ChaFan1 => seq![FanHeader::ChaFan1],
        FanTarget::ChaFan2 => seq![FanHeader::ChaFan2],
        FanTarget::ChaFan3 => seq![FanHeader::ChaFan3],
        FanTarget::Pump => seq![FanHeader::Pump],
    }
}

impl FanTarget {
    /// The headers that the target addresses.
    pub fn headers(&self) -> (r: &'static [FanHeader])
        ensures
            r@ == target_headers(*self),
    {
        match self {
            FanTarget::All => FanHeader::all(),
            FanTarget::Cpu => &[FanHeader::Cpu],
            FanTarget::ChaFan1 => &[FanHeader::ChaFan1],
            FanTarget::ChaFan2 => &[FanHeader::ChaFan2],
            FanTarget::ChaFan3 => &[FanHeader::ChaFan3],
            FanTarget::Pump => &[FanHeader::Pump],
        }
    }
}

/// A built-in SmartFan curve.
#[derive(Clone, Copy, Debug, PartialEq, Eq, Structural)]
pub enum FanProfile {
    /// Quiet curve for low noise (20°C:20%, 40°C:30%, 60°C:50%, 80°C:85%).
    Quiet,
    /// Balanced standard curve (20°C:20%, 40°C:40%, 60°C:60%, 80°C:100%).
    Standard,
    /// Maximum cooling performance (100% across all temperatures).
    Full,
}

/// The four (°C, duty) points of a built-in curve; pumps get their own
/// quiet and standard curves.
pub open spec fn profile_points(p: FanProfile, is_pump: bool) -> Seq<(u8, u8)> {
    match p {
        FanProfile::Quiet => if is_pump {
            seq![(0u8, spec_pct(80)), (70u8, spec_pct(80)), (75u8, spec_pct(100)), (100u8, spec_pct(100))]
        } else {
            seq![(20u8, spec_pct(20)), (40u8, spec_pct(30)), (60u8, spec_pct(50)), (80u8, spec_pct(85))]
        },
        FanProfile::Standard => if is_pump {
            seq![(0u8, spec_pct(80)), (65u8, spec_pct(80)), (70u8, spec_pct(100)), (100u8, spec_pct(100))]
        } else {
            seq![(20u8, spec_pct(20)), (40u8, spec_pct(40)), (60u8, spec_pct(60)), (80u8, spec_pct(100))]
        },
        FanProfile::Full => seq![
            (30u8, spec_pct(100)),
            (50u8, spec_pct(100)),
            (70u8, spec_pct(100)),
            (100u8, spec_pct(100)),
        ],
    }
}

impl FanProfile {
    /// The four (°C, duty) points of the profile for a fan or a pump.
    pub fn points_for(&self, is_pump: bool) -> (r: [(u8, u8); 4])
        ensures
            r@ == profile_points(*self, is_pump),
    {
        let r = match self {
            FanProfile::Quiet => if is_pump {
                [(0, pct(80)), (70, pct(80)), (75, pct(100)), (100, pct(100))]
            } else {
                [(20, pct(20)), (40, pct(30)), (60, pct(50)), (80, pct(85))]
            },
            FanProfile::Standard => if is_pump {
                [(0, pct(80)), (65, pct(80)), (70, pct(100)), (100, pct(100))]
            } else {
                [(20, pct(20)), (40, pct(40)), (60, pct(60)), (80, pct(100))]
            },
            FanProfile::Full => [(30, pct(100)), (50, pct(100)), (70, pct(100)), (100, pct(100))],
        };
        assert(r@ =~= profile_points(*self, is_pump));
        r
    }
}

/// Whether a curve rises: temperatures strictly increasing, duties never
/// decreasing.
pub open spec fn curve_rises(pts: Seq<(u8, u8)>) -> bool {
    forall|i: int, j: int| 0 <= i < j < pts.len() ==> #[trigger] pts[i].0 < #[trigger] pts[j].0 && pts[i].1 <= pts[j].1
}

/// Every built-in curve has four points, rises, and the full curve is the
/// same for fans and pumps.
pub proof fn lemma_profiles_rise(p: FanProfile, is_pump: bool)
    ensures
        profile_points(p, is_pump).len() == 4,
        curve_rises(profile_points(p, is_pump)),
        profile_points(FanProfile::Full, true) == profile_points(FanProfile::Full, false),
{
    assert(spec_pct(20) == 51);
    assert(spec_pct(30) == 77);
    assert(spec_pct(40) == 102);
    assert(spec_pct(50) == 128);
    assert(spec_pct(60) == 153);
    assert(spec_pct(80) == 204);
    assert(spec_pct(85) == 217);
    assert(spec_pct(100) == 255);
}

/// What the fan command does.
#[derive(Debug)]
pub enum FanAction {
    /// Show RPMs, the board temperature and the chip.
    Status,
    /// Set a fixed duty by percentage (0-100) or raw PWM (0-255).
    SetSpeed { fan: FanTarget, percent: Option<u8>, pwm: Option<u8> },
    /// Program a 4-point curve or a built-in profile.
    SetCurve { fan: FanTarget, points: Option<[(u8, u8); 4]>, profile: Option<FanProfile> },
}

/// Why a text is not a 4-point curve.
#[derive(Debug, Clone, PartialEq, Eq)]
pub enum CurveError {
    /// Only this many points were given.
    TooFewPoints(usize),
    /// A point (trimmed) is not `Temp:SpeedPercent`.
    InvalidPoint(String),
    /// The temperature of a point (trimmed) is not a byte.
    InvalidTemperature(String, IntErrorKind),
    /// The speed percentage of a point (trimmed) is not a byte.
    InvalidSpeed(String, IntErrorKind),
    /// More than four points were given.
    TooManyPoints,
}

/// `CurveError` with its texts as characters.
pub enum CurveErrorView {
    TooFewPoints(nat),
    InvalidPoint(Seq<char>),
    InvalidTemperature(Seq<char>, IntErrorKind),
    InvalidSpeed(Seq<char>, IntErrorKind),
    TooManyPoints,
}

impl View for CurveError {
    type V = CurveErrorView;

    open spec fn view(&self) -> CurveErrorView {
        match self {
            CurveError::TooFewPoints(n) => CurveErrorView::TooFewPoints(*n as nat),
            CurveError::InvalidPoint(s) => CurveErrorView::InvalidPoint(s@),
            CurveError::InvalidTemperature(s, e) => CurveErrorView::InvalidTemperature(s@, *e),
            CurveError::InvalidSpeed(s, e) => CurveErrorView::InvalidSpeed(s@, *e),
            CurveError::TooManyPoints => CurveErrorView::TooManyPoints,
        }
    }
}

/// A trimmed point `Temp:SpeedPercent` as (°C, duty); the two fields are
/// trimmed and read as decimal bytes, the percentage turned into a duty.
pub open spec fn spec_parse_point(part: Seq<char>) -> Result<(u8, u8), CurveErrorView> {
    let pair = split(part, ':');
    if pair.len() != 2 {
        Err(CurveErrorView::InvalidPoint(part))
    } else {
        let t = trim(pair[0]);
        let p = trim(pair[1]);
        match parse_unsigned(t, 10, 255) {
            Err(e) => Err(CurveErrorView::InvalidTemperature(t, e)),
            Ok(tv) => match parse_unsigned(p, 10, 255) {
                Err(e) => Err(CurveErrorView::InvalidSpeed(p, e)),
                Ok(pv) => Ok((tv as u8, spec_pct(pv as u8))),
            },
        }
    }
}

/// The points from position `i` of the comma-separated parts on: four in
/// all, the first failing part deciding the error, and more than four
/// parts refused once all four are read.
pub open spec fn points_from(parts: Seq<Seq<char>>, i: nat) -> Result<
    Seq<(u8, u8)>,
    CurveErrorView,
>
    decreases 4 - i,
{
    if i >= 4 {
        if parts.len() > 4 {
            Err(CurveErrorView::TooManyPoints)
        } else {
            Ok(Seq::empty())
        }
    } else if i >= parts.len() {
        Err(CurveErrorView::TooFewPoints(i))
    } else {
        match spec_parse_point(trim(parts[i as int])) {
            Err(e) => Err(e),
            Ok(pt) => match points_from(parts, i + 1) {
                Ok(rest) => Ok(seq![pt] + rest),
                Err(e) => Err(e),
            },
        }
    }
}

/// The curve that a text `T1:P1,T2:P2,T3:P3,T4:P4` stands for.
pub open spec fn spec_parse_curve_points(s: Seq<char>) -> Result<Seq<(u8, u8)>, CurveErrorView> {
    points_from(split(s, ','), 0)
}

/// Points already read put in front of the rest of a parse.
pub open spec fn after_points(
    acc: Seq<(u8, u8)>,
    r: Result<Seq<(u8, u8)>, CurveErrorView>,
) -> Result<Seq<(u8, u8)>, CurveErrorView> {
    match r {
        Ok(rest) => Ok(acc + rest),
        Err(e) => Err(e),
    }
}

/// A curve result with its error seen as characters.
pub open spec fn curve_result_view(r: Result<[(u8, u8); 4], CurveError>) -> Result<
    Seq<(u8, u8)>,
    CurveErrorView,
> {
    match r {
        Ok(a) => Ok(a@),
        Err(e) => Err(e@),
    }
}

/// Reads the trimmed point `v[lo..hi]` (the characters of `s`).
fn parse_point(s: &str, v: &Vec<char>, lo: usize, hi: usize) -> (r: Result<(u8, u8), CurveError>)
    requires
        v@ == s@,
        lo <= hi <= v.len(),
    ensures
        match r {
            Ok(p) => spec_parse_point(v@.subrange(lo as int, hi as int)) == Ok::<
                (u8, u8),
                CurveErrorView,
            >(p),
            Err(e) => spec_parse_point(v@.subrange(lo as int, hi as int)) == Err::<
                (u8, u8),
                CurveErrorView,
            >(e@),
        },
{
    let ghost part = v@.subrange(lo as int, hi as int);
    let pair = split_ranges(v, lo, hi, ':');
    assert(crate::text::ranges_text(v@, pair@).len() == pair@.len());
    if pair.len() != 2 {
        return Err(CurveError::InvalidPoint(substring(s, lo, hi)));
    }
    let (tlo, thi) = trim_range(v, pair[0].0, pair[0].1);
    let (plo, phi) = trim_range(v, pair[1].0, pair[1].1);
    assert(split(part, ':')[0] == v@.subrange(pair[0].0 as int, pair[0].1 as int));
    assert(split(part, ':')[1] == v@.subrange(pair[1].0 as int, pair[1].1 as int));
    proof {
        crate::text::lemma_parse_unsigned_bound(v@.subrange(tlo as int, thi as int), 10, 255);
        crate::text::lemma_parse_unsigned_bound(v@.subrange(plo as int, phi as int), 10, 255);
    }
    let t = match parse_unsigned_range(v, tlo, thi, 10, 255) {
        Ok(n) => n as u8,
        Err(e) => {
            return Err(CurveError::InvalidTemperature(substring(s, tlo, thi), e));
        },
    };
    let p = match parse_unsigned_range(v, plo, phi, 10, 255) {
        Ok(n) => n as u8,
        Err(e) => {
            return Err(CurveError::InvalidSpeed(substring(s, plo, phi), e));
        },
    };
    Ok((t, pct(p)))
}

/// Parses a 4-point curve `T1:P1,T2:P2,T3:P3,T4:P4` (°C and speed
/// percentages, whitespace around each part ignored) into (°C, duty) points.
pub fn parse_curve_points(s: &str) -> (r: Result<[(u8, u8); 4], CurveError>)
    ensures
        curve_result_view(r) == spec_parse_curve_points(s@),
{
    let v = chars_of(s);
    let parts = split_ranges(&v, 0, v.len(), ',');
    assert(v@.subrange(0, v@.len() as int) =~= s@);
    let ghost texts = split(s@, ',');
    assert(crate::text::ranges_text(v@, parts@).len() == parts@.len());
    let mut pts: Vec<(u8, u8)> = Vec::new();
    let mut i: usize = 0;
    assert(pts@ + Seq::<(u8, u8)>::empty() =~= Seq::<(u8, u8)>::empty());
    while i < 4
        invariant
            v@ == s@,
            texts == split(s@, ','),
            parts.len() == texts.len(),
            forall|j: int| 0 <= j < parts.len() ==> (#[trigger] parts[j]).0 <= parts[j].1 <= v.len(),
            forall|j: int| 0 <= j < parts.len() ==> #[trigger] texts[j] == v@.subrange(parts[j].0 as int, parts[j].1 as int),
            i <= 4,
            pts.len() == i,
            spec_parse_curve_points(s@) == after_points(pts@, points_from(texts, i as nat)),
        decreases 4 - i,
    {
        if i >= parts.len() {
            return Err(CurveError::TooFewPoints(i));
        }
        let (lo, hi) = trim_range(&v, parts[i].0, parts[i].1);
        match parse_point(s, &v, lo, hi) {
            Err(e) => {
                return Err(e);
            },
            Ok(p) => {
                let ghost before = pts@;
                pts.push(p);
                assert(after_points(before, points_from(texts, i as nat)) == after_points(
                    pts@,
                    points_from(texts, (i + 1) as nat),
                )) by {
                    match points_from(texts, (i + 1) as nat) {
                        Ok(rest) => {
                            assert(before + (seq![p] + rest) =~= pts@ + rest);
                        },
                        Err(_) => {},
                    }
                }
            },
        }
        i = i + 1;
    }
    if parts.len() > 4 {
        return Err(CurveError::TooManyPoints);
    }
    let r = [pts[0], pts[1], pts[2], pts[3]];
    assert(r@ =~= pts@ + Seq::<(u8, u8)>::empty());
    Ok(r)
}

/// The channels that `targets` address, and whether `All` is among them:
/// all channels in their order if so, else each addressed channel once, in
/// the order first addressed.
pub open spec fn spec_select_channels(targets: Seq<RgbTarget>) -> (Seq<Channel>, bool) {
    if targets.contains(RgbTarget::All) {
        (all_channels(), true)
    } else {
        (dedup(flatten_targets(targets)), false)
    }
}

/// The channels of each target, one after the other.
pub open spec fn flatten_targets(targets: Seq<RgbTarget>) -> Seq<Channel>
    decreases targets.len(),
{
    if targets.len() == 0 {
        Seq::empty()
    } else {
        flatten_targets(targets.drop_last()) + target_channels(targets.last())
    }
}

/// `s` with every element after its first occurrence removed.
pub open spec fn dedup(s: Seq<Channel>) -> Seq<Channel>
    decreases s.len(),
{
    if s.len() == 0 {
        Seq::empty()
    } else {
        let d = dedup(s.drop_last());
        if d.contains(s.last()) {
            d
        } else {
            d.push(s.last())
        }
    }
}

/// Whether `list` holds `ch`.
fn holds_channel(list: &Vec<Channel>, ch: Channel) -> (b: bool)
    ensures
        b == list@.contains(ch),
{
    let mut k: usize = 0;
    while k < list.len()
        invariant
            k <= list.len(),
            forall|j: int| 0 <= j < k ==> list@[j] != ch,
        decreases list.len() - k,
    {
        if list[k] == ch {
            return true;
        }
        k = k + 1;
    }
    false
}

/// Whether `targets` holds `All`.
fn holds_all(targets: &Vec<RgbTarget>) -> (b: bool)
    ensures
        b == targets@.contains(RgbTarget::All),
{
    let mut k: usize = 0;
    while k < targets.len()
        invariant
            k <= targets.len(),
            forall|j: int| 0 <= j < k ==> targets@[j] != RgbTarget::All,
        decreases targets.len() - k,
    {
        if targets[k] == RgbTarget::All {
            return true;
        }
        k = k + 1;
    }
    false
}

/// The channels that a list of targets addresses, and whether it addresses
/// all of them through `All`.
pub fn select_channels(targets: &Vec<RgbTarget>) -> (r: (Vec<Channel>, bool))
    ensures
        (r.0@, r.1) == spec_select_channels(targets@),
{
    if holds_all(targets) {
        let all = Channel::all();
        let mut list: Vec<Channel> = Vec::new();
        let mut k: usize = 0;
        while k < all.len()
            invariant
                all@ == all_channels(),
                k <= all.len(),
                list@ == all_channels().take(k as int),
            decreases all.len() - k,
        {
            list.push(all[k]);
            k = k + 1;
            assert(list@ =~= all_channels().take(k as int));
        }
        assert(all_channels().take(6) =~= all_channels());
        return (list, true);
    }
    let mut list: Vec<Channel> = Vec::new();
    let mut t: usize = 0;
    while t < targets.len()
        invariant
            t <= targets.len(),
            !targets@.contains(RgbTarget::All),
            list@ == dedup(flatten_targets(targets@.take(t as int))),
        decreases targets.len() - t,
    {
        let target = targets[t];
        let chs = target.channels();
        assert(target != RgbTarget::All);
        assert(chs@.len() == 1);
        let ch = chs[0];
        let ghost before = targets@.take(t as int);
        assert(targets@.take(t as int + 1).drop_last() =~= before);
        assert(flatten_targets(targets@.take(t as int + 1)) =~= flatten_targets(before).push(ch));
        assert(flatten_targets(before).push(ch).drop_last() =~= flatten_targets(before));
        if !holds_channel(&list, ch) {
            list.push(ch);
        }
        t = t + 1;
    }
    assert(targets@.take(targets.len() as int) =~= targets@);
    (list, false)
}

/// Why no fixed duty was chosen.
#[derive(Debug, Clone, Copy, PartialEq, Eq, Structural)]
pub enum SpeedChoiceError {
    /// Both a percentage and a raw PWM value were given.
    Both,
    /// Neither was given.
    Neither,
}

/// The fixed duty that a percentage or a raw PWM value asks for.
pub fn manual_pwm(percent: Option<u8>, pwm: Option<u8>) -> (r: Result<u8, SpeedChoiceError>)
    ensures
        r == match (percent, pwm) {
            (Some(p), None) => Ok(spec_pct(p)),
            (None, Some(v)) => Ok(v),
            (Some(_), Some(_)) => Err(SpeedChoiceError::Both),
            (None, None) => Err(SpeedChoiceError::Neither),
        },
{
    match (percent, pwm) {
        (Some(p), None) => Ok(pct(p)),
        (None, Some(v)) => Ok(v),
        (Some(_), Some(_)) => Err(SpeedChoiceError::Both),
        (None, None) => Err(SpeedChoiceError::Neither),
    }
}

/// Why no curve was chosen.
#[derive(Debug, Clone, Copy, PartialEq, Eq, Structural)]
pub enum CurveChoiceError {
    /// Both custom points and a profile were given.
    Both,
    /// Neither was given.
    Neither,
}

/// The curve for a header from custom points or a built-in profile (whose
/// pump variant goes to the pump header).
pub fn curve_for(points: Option<[(u8, u8); 4]>, profile: Option<FanProfile>, header: FanHeader) -> (r:
    Result<[(u8, u8); 4], CurveChoiceError>)
    ensures
        match (points, profile) {
            (Some(p), None) => r == Ok::<[(u8, u8); 4], CurveChoiceError>(p),
            (None, Some(prof)) => r matches Ok(c) && c@ == profile_points(
                prof,
                header == FanHeader::Pump,
            ),
            (Some(_), Some(_)) => r == Err::<[(u8, u8); 4], CurveChoiceError>(
                CurveChoiceError::Both,
            ),
            (None, None) => r == Err::<[(u8, u8); 4], CurveChoiceError>(CurveChoiceError::Neither),
        },
{
    match (points, profile) {
        (Some(p), None) => Ok(p),
        (None, Some(prof)) => Ok(prof.points_for(header == FanHeader::Pump)),
        (Some(_), Some(_)) => Err(CurveChoiceError::Both),
        (None, None) => Err(CurveChoiceError::Neither),
    }
}


/// Each single-channel RGB target addresses exactly its own channel, and
/// `All` addresses the six channels in their order; a list of one target
/// selects that target's channels alone.
pub proof fn lemma_rgb_targets_address_their_channels(t: RgbTarget)
    ensures
        target_channels(RgbTarget::Led) == seq![Channel::Led],
        target_channels(RgbTarget::Rgb1) == seq![Channel::Rgb1],
        target_channels(RgbTarget::Rgb2) == seq![Channel::Rgb2],
        target_channels(RgbTarget::Argb1) == seq![Channel::Argb1],
        target_channels(RgbTarget::Argb2) == seq![Channel::Argb2],
        target_channels(RgbTarget::Argb3) == seq![Channel::Argb3],
        target_channels(RgbTarget::All) == seq![
            Channel::Led,
            Channel::Rgb1,
            Channel::Rgb2,
            Channel::Argb1,
            Channel::Argb2,
            Channel::Argb3,
        ],
        t != RgbTarget::All ==> spec_select_channels(seq![t]) == (target_channels(t), false),
{
    if t != RgbTarget::All {
        let ts = seq![t];
        assert(!ts.contains(RgbTarget::All)) by {
            if ts.contains(RgbTarget::All) {
                assert(ts[0] == RgbTarget::All);
            }
        }
        assert(ts.drop_last() =~= Seq::<RgbTarget>::empty());
        assert(ts.last() == t);
        assert(flatten_targets(ts.drop_last()) == Seq::<Channel>::empty());
        assert(flatten_targets(ts) =~= target_channels(t));
        let f = flatten_targets(ts);
        assert(f.drop_last() =~= Seq::<Channel>::empty());
        assert(dedup(f.drop_last()) =~= Seq::<Channel>::empty());
        assert(dedup(f) =~= f);
    }
}

/// Each single-header fan target addresses exactly its own header, and
/// `All` addresses the five headers in their order.
pub proof fn lemma_fan_targets_address_their_headers()
    ensures
        target_headers(FanTarget::Cpu) == seq![FanHeader::Cpu],
        target_headers(FanTarget::ChaFan1) == seq![FanHeader::ChaFan1],
        target_headers(FanTarget::ChaFan2) == seq![FanHeader::ChaFan2],
        target_headers(FanTarget::ChaFan3) == seq![FanHeader::ChaFan3],
        target_headers(FanTarget::Pump) == seq![FanHeader::Pump],
        target_headers(FanTarget::All) == seq![
            FanHeader::Cpu,
            FanHeader::ChaFan1,
            FanHeader::ChaFan2,
            FanHeader::ChaFan3,
            FanHeader::Pump,
        ],
{
}
} // verus!
