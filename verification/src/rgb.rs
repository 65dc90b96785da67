//! RGB lighting: the channels of the onboard controller, their configuration,
//! the state kept between runs and its binary form, the LED buffer, the HID
//! frames that carry it, and colour parsing.
use std::path::PathBuf;
use vstd::prelude::*;

use crate::text::{
    ascii_lower, ascii_lowercase, byte_index, byte_position, chars_of, digit_value, lower_eq,
    parse_unsigned, parse_unsigned_range, skip_0x, skip_hashes, split_ranges, strip_0x,
    strip_hashes, substring, trim, trim_range, unicode_white_space, utf8_len, utf8_len_is,
    IntErrorKind,
};

verus! {

/// USB vendor id of the RGB controller.
pub const COLORFUL_VID: u16 = 0x2f4c;

/// USB product id of the RGB controller.
pub const COLORFUL_PID: u16 = 0x1000;

/// Number of LEDs that the controller drives over all channels.
pub const TOTAL_LEDS: usize = 200;

/// An RGB output of the controller.
#[derive(Debug, Clone, Copy, PartialEq, Eq, Hash, Structural)]
pub enum Channel {
    /// Onboard motherboard RGB (18 LEDs, index 0..17).
    Led,
    /// 12V_1 (1 LED, index 18).
    Rgb1,
    /// 12V_2 (1 LED, index 19).
    Rgb2,
    /// 5V_1 (60 LEDs, index 20..79).
    Argb1,
    /// 5V_2 (60 LEDs, index 80..139).
    Argb2,
    /// 5V_3 (60 LEDs, index 140..199).
    Argb3,
}

/// Position of a channel in `Channel::all()` and in the state file.
pub open spec fn channel_index(c: Channel) -> nat {
    match c {
        Channel::Led => 0,
        Channel::Rgb1 => 1,
        Channel::Rgb2 => 2,
        Channel::Argb1 => 3,
        Channel::Argb2 => 4,
        Channel::Argb3 => 5,
    }
}

/// The channels in their fixed order.
pub open spec fn all_channels() -> Seq<Channel> {
    seq![
        Channel::Led,
        Channel::Rgb1,
        Channel::Rgb2,
        Channel::Argb1,
        Channel::Argb2,
        Channel::Argb3,
    ]
}

/// First LED index of a channel.
pub open spec fn led_start(c: Channel) -> nat {
    match c {
        Channel::Led => 0,
        Channel::Rgb1 => 18,
        Channel::Rgb2 => 19,
        Channel::Argb1 => 20,
        Channel::Argb2 => 80,
        Channel::Argb3 => 140,
    }
}

/// One past the last LED index of a channel.
pub open spec fn led_end(c: Channel) -> nat {
    match c {
        Channel::Led => 18,
        Channel::Rgb1 => 19,
        Channel::Rgb2 => 20,
        Channel::Argb1 => 80,
        Channel::Argb2 => 140,
        Channel::Argb3 => 200,
    }
}

/// The channel that drives LED `i` (for `i < 200`).
pub open spec fn channel_of_led(i: int) -> Channel {
    if i < 18 {
        Channel::Led
    } else if i < 19 {
        Channel::Rgb1
    } else if i < 20 {
        Channel::Rgb2
    } else if i < 80 {
        Channel::Argb1
    } else if i < 140 {
        Channel::Argb2
    } else {
        Channel::Argb3
    }
}

/// Display name of a channel.
pub open spec fn channel_name(c: Channel) -> Seq<char> {
    match c {
        Channel::Led => "LED (Onboard)"@,
        Channel::Rgb1 => "12V_1 (12V RGB Header 1)"@,
        Channel::Rgb2 => "12V_2 (12V RGB Header 2)"@,
        Channel::Argb1 => "5V_1 (ARGB Header 1)"@,
        Channel::Argb2 => "5V_2 (ARGB Header 2)"@,
        Channel::Argb3 => "5V_3 (ARGB Header 3)"@,
    }
}

impl Channel {
    /// Display name of the channel.
    pub fn name(&self) -> (r: &'static str)
        ensures
            r@ == channel_name(*self),
    {
        match self {
            Channel::Led => "LED (Onboard)",
            Channel::Rgb1 => "12V_1 (12V RGB Header 1)",
            Channel::Rgb2 => "12V_2 (12V RGB Header 2)",
            Channel::Argb1 => "5V_1 (ARGB Header 1)",
            Channel::Argb2 => "5V_2 (ARGB Header 2)",
            Channel::Argb3 => "5V_3 (ARGB Header 3)",
        }
    }

    /// The LED indices that the channel drives.
    pub fn led_range(&self) -> (r: std::ops::Range<usize>)
        ensures
            r.start == led_start(*self),
            r.end == led_end(*self),
    {
        match self {
            Channel::Led => 0..18,
            Channel::Rgb1 => 18..19,
            Channel::Rgb2 => 19..20,
            Channel::Argb1 => 20..80,
            Channel::Argb2 => 80..140,
            Channel::Argb3 => 140..200,
        }
    }

    /// All channels, in their fixed order.
    pub fn all() -> (r: &'static [Channel])
        ensures
            r@ == all_channels(),
    {
        &[
            Channel::Led,
            Channel::Rgb1,
            Channel::Rgb2,
            Channel::Argb1,
            Channel::Argb2,
            Channel::Argb3,
        ]
    }
}

/// Configuration of one channel.
#[derive(Debug, Clone, Copy, PartialEq, Eq)]
pub struct ChannelConfig {
    pub color: [u8; 3],
    pub brightness: u8,
    pub enabled: bool,
}

/// The configuration of a channel that was never set: black, 0%, off.
pub open spec fn default_config() -> ChannelConfig {
    ChannelConfig { color: [0u8, 0u8, 0u8], brightness: 0, enabled: false }
}

impl Default for ChannelConfig {
    fn default() -> (r: Self)
        ensures
            r == default_config(),
    {
        ChannelConfig { color: [0, 0, 0], brightness: 0, enabled: false }
    }
}

/// The configuration of each channel that has one.
#[derive(Debug, Clone, Copy, PartialEq, Eq)]
pub struct ChannelMap {
    led: Option<ChannelConfig>,
    rgb1: Option<ChannelConfig>,
    rgb2: Option<ChannelConfig>,
    argb1: Option<ChannelConfig>,
    argb2: Option<ChannelConfig>,
    argb3: Option<ChannelConfig>,
}

impl ChannelMap {
    /// The slot that holds the configuration of `c`.
    pub closed spec fn slot(self, c: Channel) -> Option<ChannelConfig> {
        match c {
            Channel::Led => self.led,
            Channel::Rgb1 => self.rgb1,
            Channel::Rgb2 => self.rgb2,
            Channel::Argb1 => self.argb1,
            Channel::Argb2 => self.argb2,
            Channel::Argb3 => self.argb3,
        }
    }
}

impl View for ChannelMap {
    type V = Map<Channel, ChannelConfig>;

    closed spec fn view(&self) -> Map<Channel, ChannelConfig> {
        Map::new(|c: Channel| self.slot(c) is Some, |c: Channel| self.slot(c)->0)
    }
}

impl ChannelMap {
    /// The map of `self` as seen through its slots.
    proof fn lemma_view(self)
        ensures
            forall|c: Channel| #[trigger] self@.get(c) == self.slot(c),
    {
        assert forall|c: Channel| #[trigger] self@.get(c) == self.slot(c) by {
            if self.slot(c) is Some {
                assert(self@.dom().contains(c));
            } else {
                assert(!self@.dom().contains(c));
            }
        }
    }

    /// A map with no configuration.
    pub fn new() -> (r: Self)
        ensures
            r@ == Map::<Channel, ChannelConfig>::empty(),
    {
        let r = ChannelMap { led: None, rgb1: None, rgb2: None, argb1: None, argb2: None, argb3: None };
        assert(r@ =~= Map::<Channel, ChannelConfig>::empty());
        r
    }

    /// The configuration of `c`, if it has one.
    pub fn get(&self, c: &Channel) -> (r: Option<&ChannelConfig>)
        ensures
            match r {
                Some(cfg) => self@.get(*c) == Some(*cfg),
                None => self@.get(*c) is None,
            },
    {
        proof {
            self.lemma_view();
        }
        match c {
            Channel::Led => self.led.as_ref(),
            Channel::Rgb1 => self.rgb1.as_ref(),
            Channel::Rgb2 => self.rgb2.as_ref(),
            Channel::Argb1 => self.argb1.as_ref(),
            Channel::Argb2 => self.argb2.as_ref(),
            Channel::Argb3 => self.argb3.as_ref(),
        }
    }

    /// Whether `c` has a configuration.
    pub fn contains_key(&self, c: &Channel) -> (b: bool)
        ensures
            b == self@.contains_key(*c),
    {
        proof {
            self.lemma_view();
        }
        self.get(c).is_some()
    }

    /// Sets the configuration of `c` and returns the one it had.
    pub fn insert(&mut self, c: Channel, cfg: ChannelConfig) -> (r: Option<ChannelConfig>)
        ensures
            final(self)@ == old(self)@.insert(c, cfg),
            r == old(self)@.get(c),
    {
        proof {
            old(self).lemma_view();
        }
        let prev = match c {
            Channel::Led => {
                let prev = self.led;
                self.led = Some(cfg);
                prev
            },
            Channel::Rgb1 => {
                let prev = self.rgb1;
                self.rgb1 = Some(cfg);
                prev
            },
            Channel::Rgb2 => {
                let prev = self.rgb2;
                self.rgb2 = Some(cfg);
                prev
            },
            Channel::Argb1 => {
                let prev = self.argb1;
                self.argb1 = Some(cfg);
                prev
            },
            Channel::Argb2 => {
                let prev = self.argb2;
                self.argb2 = Some(cfg);
                prev
            },
            Channel::Argb3 => {
                let prev = self.argb3;
                self.argb3 = Some(cfg);
                prev
            },
        };
        proof {
            self.lemma_view();
        }
        assert(self@ =~= old(self)@.insert(c, cfg));
        prev
    }
}

/// A colour component at a brightness: `c * min(b, 100) / 100`.
pub open spec fn scale_component(c: u8, b: u8) -> u8 {
    let f: int = if b > 100 { 100 } else { b as int };
    ((c as int * f) / 100) as u8
}

/// A colour at a brightness, component by component.
pub open spec fn scale(color: [u8; 3], b: u8) -> [u8; 3] {
    [scale_component(color[0], b), scale_component(color[1], b), scale_component(color[2], b)]
}

/// A scaled component never exceeds the component, is unchanged at 100% or
/// more, and is 0 at 0%.
pub proof fn lemma_scale_component(c: u8, b: u8)
    ensures
        scale_component(c, b) <= c,
        b >= 100 ==> scale_component(c, b) == c,
        b == 0 ==> scale_component(c, b) == 0,
{
    let f: int = if b > 100 { 100 } else { b as int };
    assert((c as int * f) / 100 <= c) by (nonlinear_arith)
        requires
            0 <= f <= 100,
            0 <= c,
    ;
    assert(f == 100 ==> (c as int * f) / 100 == c) by (nonlinear_arith);
    assert(f == 0 ==> (c as int * f) / 100 == 0) by (nonlinear_arith);
}

/// Multiplies `c` by `f / 100`.
fn scale_one(c: u8, f: u16) -> (r: u8)
    requires
        f <= 100,
    ensures
        r == (c as int * f as int) / 100,
{
    assert(c as int * f as int <= 25500) by (nonlinear_arith)
        requires
            c <= 255,
            f <= 100,
    ;
    assert((c as int * f as int) / 100 <= 255);
    ((c as u16 * f) / 100) as u8
}

/// Black.
pub open spec fn black() -> [u8; 3] {
    [0u8, 0u8, 0u8]
}

/// A component of a hex colour.
#[derive(Debug, Clone, Copy, PartialEq, Eq, Structural)]
pub enum ColorComponent {
    Red,
    Green,
    Blue,
}

/// Why a text is not a colour.
#[derive(Debug, Clone, PartialEq, Eq)]
pub enum ColorError {
    /// One of the two-digit hex components is not a number.
    InvalidHex(ColorComponent, IntErrorKind),
    /// Neither a colour name nor six bytes of hex; holds the trimmed text.
    InvalidFormat(String),
}

/// `ColorError` with its text as characters.
pub enum ColorErrorView {
    InvalidHex(ColorComponent, IntErrorKind),
    InvalidFormat(Seq<char>),
}

impl View for ColorError {
    type V = ColorErrorView;

    open spec fn view(&self) -> ColorErrorView {
        match self {
            ColorError::InvalidHex(c, e) => ColorErrorView::InvalidHex(*c, *e),
            ColorError::InvalidFormat(s) => ColorErrorView::InvalidFormat(s@),
        }
    }
}

/// The colour that a lower-case name stands for.
pub open spec fn named_color(l: Seq<char>) -> Option<[u8; 3]> {
    if l == seq!['r', 'e', 'd'] {
        Some([255u8, 0u8, 0u8])
    } else if l == seq!['g', 'r', 'e', 'e', 'n'] {
        Some([0u8, 255u8, 0u8])
    } else if l == seq!['b', 'l', 'u', 'e'] {
        Some([0u8, 0u8, 255u8])
    } else if l == seq!['w', 'h', 'i', 't', 'e'] {
        Some([255u8, 255u8, 255u8])
    } else if l == seq!['b', 'l', 'a', 'c', 'k'] || l == seq!['o', 'f', 'f'] {
        Some([0u8, 0u8, 0u8])
    } else if l == seq!['y', 'e', 'l', 'l', 'o', 'w'] {
        Some([255u8, 255u8, 0u8])
    } else if l == seq!['c', 'y', 'a', 'n'] {
        Some([0u8, 255u8, 255u8])
    } else if l == seq!['m', 'a', 'g', 'e', 'n', 't', 'a'] || l == seq![
        'p',
        'u',
        'r',
        'p',
        'l',
        'e',
    ] {
        Some([255u8, 0u8, 255u8])
    } else if l == seq!['o', 'r', 'a', 'n', 'g', 'e'] {
        Some([255u8, 128u8, 0u8])
    } else {
        None
    }
}

/// The hex digits of a trimmed colour text: without leading `#`s, then
/// without leading `"0x"`s.
pub open spec fn hex_part(t: Seq<char>) -> Seq<char> {
    strip_0x(strip_hashes(t))
}

/// Two hex digits as a byte.
pub open spec fn hex_pair(s: Seq<char>) -> Option<u8> {
    if s.len() == 2 && digit_value(s[0], 16) is Some && digit_value(s[1], 16) is Some {
        Some((digit_value(s[0], 16)->0 * 16 + digit_value(s[1], 16)->0) as u8)
    } else {
        None
    }
}

/// A component of a hex colour as a byte, or the error that names it: the
/// component must be two hex digits.
pub open spec fn hex_component(s: Seq<char>, which: ColorComponent) -> Result<u8, ColorErrorView> {
    match hex_pair(s) {
        Some(n) => Ok(n),
        None => Err(ColorErrorView::InvalidHex(which, IntErrorKind::InvalidDigit)),
    }
}

/// The colour a text stands for: a name (any ASCII case, surrounding
/// whitespace ignored), or six bytes of hex after optional `#`s and `0x`s,
/// read as three two-digit components. Text whose components cannot be cut
/// on character boundaries is not a colour; each component is cut and read
/// in turn, so the first that fails decides the error.
pub open spec fn spec_parse_color(s: Seq<char>) -> Result<[u8; 3], ColorErrorView> {
    let t = trim(s);
    match named_color(ascii_lowercase(t)) {
        Some(c) => Ok(c),
        None => {
            let h = hex_part(t);
            if utf8_len(h) != 6 {
                Err(ColorErrorView::InvalidFormat(t))
            } else {
                match byte_index(h, 2) {
                    None => Err(ColorErrorView::InvalidFormat(t)),
                    Some(k2) => match hex_component(h.take(k2 as int), ColorComponent::Red) {
                        Err(e) => Err(e),
                        Ok(r) => match byte_index(h, 4) {
                            None => Err(ColorErrorView::InvalidFormat(t)),
                            Some(k4) => match hex_component(
                                h.subrange(k2 as int, k4 as int),
                                ColorComponent::Green,
                            ) {
                                Err(e) => Err(e),
                                Ok(g) => match hex_component(h.skip(k4 as int), ColorComponent::Blue) {
                                    Err(e) => Err(e),
                                    Ok(b) => Ok([r, g, b]),
                                },
                            },
                        },
                    },
                }
            }
        },
    }
}

/// A colour result with its error seen as characters.
pub open spec fn color_result_view(r: Result<[u8; 3], ColorError>) -> Result<
    [u8; 3],
    ColorErrorView,
> {
    match r {
        Ok(c) => Ok(c),
        Err(e) => Err(e@),
    }
}

/// The colour named by `v[lo..hi]` (already folded or not), if any.
fn lookup_color_name(v: &Vec<char>, lo: usize, hi: usize) -> (r: Option<[u8; 3]>)
    requires
        lo <= hi <= v.len(),
    ensures
        r == named_color(ascii_lowercase(v@.subrange(lo as int, hi as int))),
{
    if lower_eq(v, lo, hi, &['r', 'e', 'd']) {
        return Some([255, 0, 0]);
    }
    if lower_eq(v, lo, hi, &['g', 'r', 'e', 'e', 'n']) {
        return Some([0, 255, 0]);
    }
    if lower_eq(v, lo, hi, &['b', 'l', 'u', 'e']) {
        return Some([0, 0, 255]);
    }
    if lower_eq(v, lo, hi, &['w', 'h', 'i', 't', 'e']) {
        return Some([255, 255, 255]);
    }
    if lower_eq(v, lo, hi, &['b', 'l', 'a', 'c', 'k']) || lower_eq(v, lo, hi, &['o', 'f', 'f']) {
        return Some([0, 0, 0]);
    }
    if lower_eq(v, lo, hi, &['y', 'e', 'l', 'l', 'o', 'w']) {
        return Some([255, 255, 0]);
    }
    if lower_eq(v, lo, hi, &['c', 'y', 'a', 'n']) {
        return Some([0, 255, 255]);
    }
    if lower_eq(v, lo, hi, &['m', 'a', 'g', 'e', 'n', 't', 'a']) || lower_eq(
        v,
        lo,
        hi,
        &['p', 'u', 'r', 'p', 'l', 'e'],
    ) {
        return Some([255, 0, 255]);
    }
    if lower_eq(v, lo, hi, &['o', 'r', 'a', 'n', 'g', 'e']) {
        return Some([255, 128, 0]);
    }
    None
}

/// Reads the hex component `v[lo..hi]`.
fn read_hex_component(v: &Vec<char>, lo: usize, hi: usize, which: ColorComponent) -> (r: Result<
    u8,
    ColorError,
>)
    requires
        lo <= hi <= v.len(),
    ensures
        match r {
            Ok(b) => hex_component(v@.subrange(lo as int, hi as int), which) == Ok::<
                u8,
                ColorErrorView,
            >(b),
            Err(e) => hex_component(v@.subrange(lo as int, hi as int), which) == Err::<
                u8,
                ColorErrorView,
            >(e@),
        },
{
    let ghost s = v@.subrange(lo as int, hi as int);
    if hi - lo != 2 {
        return Err(ColorError::InvalidHex(which, IntErrorKind::InvalidDigit));
    }
    assert(s[0] == v@[lo as int] && s[1] == v@[lo + 1]);
    match (crate::text::to_digit(v[lo], 16), crate::text::to_digit(v[lo + 1], 16)) {
        (Some(d1), Some(d0)) => Ok((d1 * 16 + d0) as u8),
        _ => Err(ColorError::InvalidHex(which, IntErrorKind::InvalidDigit)),
    }
}

/// The hex digit of `d < 16`, in upper or lower case.
pub open spec fn hex_digit_char(d: int, upper: bool) -> char {
    ((if d < 10 {
        48int
    } else if upper {
        55int
    } else {
        87int
    }) + d) as char
}

/// A byte as two hex digits.
pub open spec fn hex_byte_text(b: u8, upper: bool) -> Seq<char> {
    seq![hex_digit_char(b as int / 16, upper), hex_digit_char(b as int % 16, upper)]
}

/// A colour as six hex digits.
pub open spec fn hex_color_text(c: [u8; 3], upper: bool) -> Seq<char> {
    hex_byte_text(c[0], upper) + hex_byte_text(c[1], upper) + hex_byte_text(c[2], upper)
}

/// The prefixes that a hex colour may carry: none, `#` or `0x`.
pub open spec fn hex_prefix_ok(p: Seq<char>) -> bool {
    p == Seq::<char>::empty() || p == seq!['#'] || p == seq!['0', 'x']
}

/// What a hex digit is: an ASCII digit of its value, neither whitespace nor
/// `#` nor `x`.
proof fn lemma_hex_digit(d: int, upper: bool)
    requires
        0 <= d < 16,
    ensures
        digit_value(hex_digit_char(d, upper), 16) == Some(d as nat),
        (hex_digit_char(d, upper) as u32) < 0x80,
        !unicode_white_space(hex_digit_char(d, upper)),
        hex_digit_char(d, upper) != '#',
        hex_digit_char(d, upper) != 'x',
        hex_digit_char(d, upper) != '+',
        ({
            let l = ascii_lower(hex_digit_char(d, upper)) as u32;
            (48 <= l <= 57) || (97 <= l <= 102)
        }),
{
}

/// Two hex digits read back as their byte.
proof fn lemma_hex_byte(b: u8, upper: bool)
    ensures
        hex_pair(hex_byte_text(b, upper)) == Some(b),
{
    lemma_hex_digit(b as int / 16, upper);
    lemma_hex_digit(b as int % 16, upper);
    assert((b as int / 16) * 16 + b as int % 16 == b);
}

/// A colour written as six hex digits (upper or lower case), after no
/// prefix, `#` or `0x`, with whitespace around, parses back to the colour.
pub proof fn lemma_hex_color_roundtrip(
    c: [u8; 3],
    upper: bool,
    prefix: Seq<char>,
    lead: Seq<char>,
    trail: Seq<char>,
)
    requires
        hex_prefix_ok(prefix),
        crate::text::all_white_space(lead),
        crate::text::all_white_space(trail),
    ensures
        spec_parse_color(lead + prefix + hex_color_text(c, upper) + trail) == Ok::<
            [u8; 3],
            ColorErrorView,
        >(c),
{
    let h = hex_color_text(c, upper);
    let body = prefix + h;
    let s = lead + prefix + h + trail;
    assert(s =~= lead + body + trail);
    assert forall|k: int| 0 <= k < 3 implies #[trigger] h.subrange(2 * k, 2 * k + 2)
        == hex_byte_text(c[k], upper) by {
        assert(h.subrange(2 * k, 2 * k + 2) =~= hex_byte_text(c[k], upper));
    }
    assert forall|i: int| 0 <= i < 6 implies ({
        let d = if i % 2 == 0 {
            c[i / 2] as int / 16
        } else {
            c[i / 2] as int % 16
        };
        #[trigger] h[i] == hex_digit_char(d, upper)
    }) by {
        assert(h[i] == h.subrange(2 * (i / 2), 2 * (i / 2) + 2)[i % 2]);
    }
    assert forall|i: int| 0 <= i < 6 implies {
        &&& (#[trigger] h[i] as u32) < 0x80
        &&& !unicode_white_space(h[i])
        &&& h[i] != '#'
        &&& h[i] != 'x'
        &&& (48 <= ascii_lower(h[i]) as u32 <= 57) || (97 <= ascii_lower(h[i]) as u32 <= 102)
    } by {
        if i % 2 == 0 {
            lemma_hex_digit(c[i / 2] as int / 16, upper);
        } else {
            lemma_hex_digit(c[i / 2] as int % 16, upper);
        }
    }
    assert(h.len() == 6);
    // trimming leaves the prefix and the digits
    assert(body.last() == h[5]);
    assert(body[0] == if prefix.len() > 0 {
        prefix[0]
    } else {
        h[0]
    });
    crate::text::lemma_trim_around(lead, body, trail);
    // no colour name
    let l = ascii_lowercase(body);
    assert(l[0] == ascii_lower(body[0]));
    assert(l.len() == body.len());
    assert(named_color(l) is None) by {
        assert(l.len() == 6 || l.len() == 7 || l.len() == 8);
        if l.len() == 6 {
            assert(l[0] != 'y' && l[0] != 'p' && l[0] != 'o');
        }
        if l.len() == 7 {
            assert(l[0] == '#');
        }
    }
    // the prefix is stripped and only the digits remain
    if prefix.len() == 1 {
        assert(body.drop_first() =~= h);
        assert(strip_hashes(h) == h);
    } else if prefix.len() == 2 {
        assert(strip_hashes(body) == body);
        assert(body.skip(2) =~= h);
    } else {
        assert(body =~= h);
    }
    assert(strip_hashes(h) == h);
    assert(strip_0x(h) == h);
    assert(hex_part(body) == h);
    crate::text::lemma_ascii_bytes(h, 2);
    crate::text::lemma_ascii_bytes(h, 4);
    assert(h.take(2) =~= hex_byte_text(c[0], upper));
    assert(h.subrange(2, 4) =~= hex_byte_text(c[1], upper));
    assert(h.skip(4) =~= hex_byte_text(c[2], upper));
    lemma_hex_byte(c[0], upper);
    lemma_hex_byte(c[1], upper);
    lemma_hex_byte(c[2], upper);
    assert(hex_component(h.take(2), ColorComponent::Red) == Ok::<u8, ColorErrorView>(c[0]));
    assert(hex_component(h.subrange(2, 4), ColorComponent::Green) == Ok::<u8, ColorErrorView>(
        c[1],
    ));
    assert(hex_component(h.skip(4), ColorComponent::Blue) == Ok::<u8, ColorErrorView>(c[2]));
    assert([c[0], c[1], c[2]] =~= c);
}

/// Parses a colour: a name such as `red` or `Cyan`, or hex such as
/// `ff0088`, `#00ff88` or `0x00ff88`.
#[verifier::rlimit(40)]
pub fn parse_color(s: &str) -> (r: Result<[u8; 3], ColorError>)
    ensures
        color_result_view(r) == spec_parse_color(s@),
{
    let v = chars_of(s);
    let (lo, hi) = trim_range(&v, 0, v.len());
    assert(v@.subrange(0, v@.len() as int) =~= s@);
    let ghost t = v@.subrange(lo as int, hi as int);
    if let Some(c) = lookup_color_name(&v, lo, hi) {
        return Ok(c);
    }
    let a = skip_hashes(&v, lo, hi);
    let a = skip_0x(&v, a, hi);
    let ghost h = v@.subrange(a as int, hi as int);
    assert(h == hex_part(t));
    if !utf8_len_is(&v, a, hi, 6) {
        return Err(ColorError::InvalidFormat(substring(s, lo, hi)));
    }
    let p2 = match byte_position(&v, a, hi, 2) {
        Some(p2) => p2,
        None => {
            return Err(ColorError::InvalidFormat(substring(s, lo, hi)));
        },
    };
    let ghost k2 = byte_index(h, 2)->0 as int;
    proof {
        crate::text::lemma_byte_index_bound(h, 2);
    }
    assert(h.take(k2) =~= v@.subrange(a as int, p2 as int));
    let r = read_hex_component(&v, a, p2, ColorComponent::Red)?;
    let p4 = match byte_position(&v, a, hi, 4) {
        Some(p4) => p4,
        None => {
            return Err(ColorError::InvalidFormat(substring(s, lo, hi)));
        },
    };
    let ghost k4 = byte_index(h, 4)->0 as int;
    proof {
        crate::text::lemma_byte_index_bound(h, 4);
        crate::text::lemma_byte_index_order(h, 2, 4);
    }
    assert(h.subrange(k2, k4) =~= v@.subrange(p2 as int, p4 as int));
    assert(h.skip(k4) =~= v@.subrange(p4 as int, hi as int));
    let g = read_hex_component(&v, p2, p4, ColorComponent::Green)?;
    let b = read_hex_component(&v, p4, hi, ColorComponent::Blue)?;
    Ok([r, g, b])
}

/// The configuration that a state gives a channel: its own, or the default.
pub open spec fn config_or_default(m: Map<Channel, ChannelConfig>, c: Channel) -> ChannelConfig {
    match m.get(c) {
        Some(cfg) => cfg,
        None => default_config(),
    }
}

/// The five bytes of a channel in the state file: R, G, B, brightness,
/// enabled (1 or 0).
pub open spec fn config_bytes(cfg: ChannelConfig) -> Seq<u8> {
    seq![
        cfg.color[0],
        cfg.color[1],
        cfg.color[2],
        cfg.brightness,
        if cfg.enabled {
            1u8
        } else {
            0u8
        },
    ]
}

/// The bytes of the first `k` channels in the state file.
pub open spec fn channels_bytes(m: Map<Channel, ChannelConfig>, k: nat) -> Seq<u8>
    decreases k,
{
    if k == 0 {
        Seq::empty()
    } else {
        channels_bytes(m, (k - 1) as nat) + config_bytes(
            config_or_default(m, all_channels()[k - 1]),
        )
    }
}

/// The magic bytes `CCTL` that open the state file.
pub open spec fn state_magic() -> Seq<u8> {
    seq![0x43u8, 0x43u8, 0x54u8, 0x4cu8]
}

/// Length of the state file: magic, version, six channels of five bytes.
pub const STATE_LEN: usize = 35;

/// The state file of a state: `CCTL`, version 1, then each channel in the
/// order of `Channel::all()`.
pub open spec fn spec_to_bytes(m: Map<Channel, ChannelConfig>) -> Seq<u8> {
    state_magic() + seq![1u8] + channels_bytes(m, 6)
}

/// The configuration stored at byte `off` of a state file.
pub open spec fn decode_config(b: Seq<u8>, off: nat) -> ChannelConfig {
    ChannelConfig {
        color: [b[off as int], b[off as int + 1], b[off as int + 2]],
        brightness: b[off as int + 3],
        enabled: b[off as int + 4] != 0,
    }
}

/// The state that a state file holds: none if it is shorter than 35 bytes or
/// does not start with `CCTL` and version 1; bytes after the 35th are ignored.
pub open spec fn spec_from_bytes(b: Seq<u8>) -> Option<Map<Channel, ChannelConfig>> {
    if b.len() < 35 || b.take(4) != state_magic() || b[4] != 1 {
        None
    } else {
        Some(
            Map::new(
                |c: Channel| true,
                |c: Channel| decode_config(b, 5 + 5 * channel_index(c)),
            ),
        )
    }
}

/// A state with every channel configured.
pub open spec fn full_map(f: spec_fn(Channel) -> ChannelConfig) -> Map<Channel, ChannelConfig> {
    Map::new(|c: Channel| true, f)
}

/// The colour of LED `i` under a state: its channel's colour scaled by its
/// brightness if the channel is configured and enabled, else black.
pub open spec fn led_color(m: Map<Channel, ChannelConfig>, i: int) -> [u8; 3] {
    match m.get(channel_of_led(i)) {
        Some(cfg) => if cfg.enabled {
            scale(cfg.color, cfg.brightness)
        } else {
            black()
        },
        None => black(),
    }
}

/// The 200 LED colours of a state.
pub open spec fn spec_to_leds(m: Map<Channel, ChannelConfig>) -> Seq<[u8; 3]> {
    Seq::new(200, |i: int| led_color(m, i))
}

/// The configuration of every channel, kept between runs.
#[derive(Debug, Clone, PartialEq, Eq)]
pub struct RgbState {
    pub channels: ChannelMap,
}

impl View for RgbState {
    type V = Map<Channel, ChannelConfig>;

    open spec fn view(&self) -> Map<Channel, ChannelConfig> {
        self.channels@
    }
}

impl Default for RgbState {
    /// Every channel configured as black, 0%, off.
    fn default() -> (r: Self)
        ensures
            r@ == full_map(|c: Channel| default_config()),
    {
        let mut channels = ChannelMap::new();
        let all = Channel::all();
        let mut k: usize = 0;
        while k < all.len()
            invariant
                all@ == all_channels(),
                k <= all.len(),
                channels@ == Map::new(
                    |c: Channel| channel_index(c) < k,
                    |c: Channel| default_config(),
                ),
            decreases all.len() - k,
        {
            let ch = all[k];
            channels.insert(ch, ChannelConfig::default());
            k = k + 1;
            assert(channels@ =~= Map::new(
                |c: Channel| channel_index(c) < k,
                |c: Channel| default_config(),
            ));
        }
        assert(channels@ =~= full_map(|c: Channel| default_config()));
        RgbState { channels }
    }
}

/// `channels_bytes` grows by five bytes per channel.
pub proof fn lemma_channels_bytes(m: Map<Channel, ChannelConfig>, k: nat)
    requires
        k <= 6,
    ensures
        channels_bytes(m, k).len() == 5 * k,
        forall|i: int, j: int|
            0 <= i < k && 0 <= j < 5 ==> #[trigger] channels_bytes(m, k)[5 * i + j]
                == config_bytes(config_or_default(m, all_channels()[i]))[j],
    decreases k,
{
    if k > 0 {
        lemma_channels_bytes(m, (k - 1) as nat);
        let prev = channels_bytes(m, (k - 1) as nat);
        let last = config_bytes(config_or_default(m, all_channels()[k - 1]));
        assert forall|i: int, j: int|
            0 <= i < k && 0 <= j < 5 implies #[trigger] channels_bytes(m, k)[5 * i + j]
            == config_bytes(config_or_default(m, all_channels()[i]))[j] by {
            if i < k - 1 {
                assert(channels_bytes(m, k)[5 * i + j] == prev[5 * i + j]);
            } else {
                assert(channels_bytes(m, k)[5 * i + j] == last[j]);
            }
        }
    }
}

impl RgbState {
    /// The magic bytes `CCTL` that open the state file.
    pub const MAGIC: [u8; 4] = [0x43, 0x43, 0x54, 0x4c];

    /// Version of the state file format.
    pub const VERSION: u8 = 1;

    /// Serializes the state into its 35-byte binary form: `CCTL`, version 1,
    /// then R, G, B, brightness and enabled for each channel in the order of
    /// `Channel::all()` (a channel without configuration counts as default).
    pub fn to_bytes(&self) -> (r: Vec<u8>)
        ensures
            r@ == spec_to_bytes(self@),
            r.len() == STATE_LEN,
    {
        let mut bytes: Vec<u8> = Vec::new();
        let magic = Self::MAGIC;
        assert(magic@ =~= state_magic());
        bytes.push(magic[0]);
        bytes.push(magic[1]);
        bytes.push(magic[2]);
        bytes.push(magic[3]);
        bytes.push(Self::VERSION);
        let all = Channel::all();
        let mut k: usize = 0;
        assert(bytes@ =~= state_magic() + seq![1u8] + channels_bytes(self@, 0));
        while k < all.len()
            invariant
                all@ == all_channels(),
                k <= all.len(),
                bytes@ == state_magic() + seq![1u8] + channels_bytes(self@, k as nat),
            decreases all.len() - k,
        {
            let ch = all[k];
            let cfg = match self.channels.get(&ch) {
                Some(c) => *c,
                None => ChannelConfig::default(),
            };
            assert(cfg == config_or_default(self@, all_channels()[k as int]));
            bytes.push(cfg.color[0]);
            bytes.push(cfg.color[1]);
            bytes.push(cfg.color[2]);
            bytes.push(cfg.brightness);
            bytes.push(
                if cfg.enabled {
                    1
                } else {
                    0
                },
            );
            k = k + 1;
            assert(bytes@ =~= state_magic() + seq![1u8] + channels_bytes(self@, k as nat));
        }
        proof {
            lemma_channels_bytes(self@, 6);
        }
        bytes
    }

    /// Reads a state back from its binary form; `None` if the bytes are too
    /// short or do not start with `CCTL` and version 1.
    pub fn from_bytes(bytes: &[u8]) -> (r: Option<Self>)
        ensures
            match r {
                Some(s) => spec_from_bytes(bytes@) == Some(s@),
                None => spec_from_bytes(bytes@) is None,
            },
    {
        if bytes.len() < STATE_LEN {
            return None;
        }
        let magic = Self::MAGIC;
        assert(magic@ =~= state_magic());
        if bytes[0] != magic[0] || bytes[1] != magic[1] || bytes[2] != magic[2] || bytes[3]
            != magic[3] || bytes[4] != Self::VERSION {
            assert(bytes@.take(4) != state_magic() || bytes@[4] != 1) by {
                if bytes@.take(4) == state_magic() {
                    assert(bytes@.take(4)[0] == bytes@[0]);
                    assert(bytes@.take(4)[1] == bytes@[1]);
                    assert(bytes@.take(4)[2] == bytes@[2]);
                    assert(bytes@.take(4)[3] == bytes@[3]);
                }
            }
            return None;
        }
        assert(bytes@.take(4) =~= state_magic());
        let mut channels = ChannelMap::new();
        let all = Channel::all();
        let mut offset: usize = 5;
        let mut k: usize = 0;
        while k < all.len()
            invariant
                all@ == all_channels(),
                k <= all.len(),
                offset == 5 + 5 * k,
                bytes@.len() >= 35,
                channels@ == Map::new(
                    |c: Channel| channel_index(c) < k,
                    |c: Channel| decode_config(bytes@, 5 + 5 * channel_index(c)),
                ),
            decreases all.len() - k,
        {
            let ch = all[k];
            let cfg = ChannelConfig {
                color: [bytes[offset], bytes[offset + 1], bytes[offset + 2]],
                brightness: bytes[offset + 3],
                enabled: bytes[offset + 4] != 0,
            };
            assert(cfg.color =~= decode_config(bytes@, 5 + 5 * channel_index(ch)).color);
            channels.insert(ch, cfg);
            offset = offset + 5;
            k = k + 1;
            assert(channels@ =~= Map::new(
                |c: Channel| channel_index(c) < k,
                |c: Channel| decode_config(bytes@, 5 + 5 * channel_index(c)),
            ));
        }
        let r = RgbState { channels };
        assert(r@ =~= spec_from_bytes(bytes@)->0);
        Some(r)
    }

    /// The 200 LED colours of the state.
    pub fn to_leds(&self) -> (r: Vec<[u8; 3]>)
        ensures
            r@ == spec_to_leds(self@),
    {
        let mut leds: Vec<[u8; 3]> = Vec::new();
        while leds.len() < TOTAL_LEDS
            invariant
                leds.len() <= TOTAL_LEDS,
                forall|i: int| 0 <= i < leds.len() ==> leds[i] == black(),
            decreases TOTAL_LEDS - leds.len(),
        {
            leds.push([0, 0, 0]);
        }
        let all = Channel::all();
        let mut k: usize = 0;
        while k < all.len()
            invariant
                all@ == all_channels(),
                k <= all.len(),
                leds.len() == TOTAL_LEDS,
                forall|i: int|
                    0 <= i < 200 ==> #[trigger] leds[i] == if channel_index(channel_of_led(i))
                        < k {
                        led_color(self@, i)
                    } else {
                        black()
                    },
            decreases all.len() - k,
        {
            let ch = all[k];
            let ghost before = leds@;
            match self.channels.get(&ch) {
                Some(cfg) => {
                    if cfg.enabled {
                        let scaled = RgbController::scale_color(cfg.color, cfg.brightness);
                        fill_range(&mut leds, ch, scaled);
                    } else {
                        fill_range(&mut leds, ch, [0, 0, 0]);
                    }
                },
                None => {
                    fill_range(&mut leds, ch, [0, 0, 0]);
                },
            }
            k = k + 1;
            assert forall|i: int| 0 <= i < 200 implies #[trigger] leds[i] == if channel_index(
                channel_of_led(i),
            ) < k {
                led_color(self@, i)
            } else {
                black()
            } by {
                lemma_channel_of_led(i);
                if channel_of_led(i) == ch {
                    assert(led_start(ch) <= i < led_end(ch));
                } else {
                    assert(leds[i] == before[i]);
                }
            }
        }
        assert(leds@ =~= spec_to_leds(self@)) by {
            assert forall|i: int| 0 <= i < 200 implies leds@[i] == led_color(self@, i) by {
                lemma_channel_of_led(i);
                assert(leds[i] == led_color(self@, i));
            }
        }
        leds
    }
}

/// The channels in their order, indexed by `channel_index`.
pub proof fn lemma_all_channels_index(c: Channel)
    ensures
        channel_index(c) < 6,
        all_channels()[channel_index(c) as int] == c,
        all_channels().len() == 6,
{
}

/// Writing a state and reading it back gives the state, with every channel
/// that had no configuration given the default one.
pub proof fn lemma_state_bytes_roundtrip(m: Map<Channel, ChannelConfig>)
    ensures
        spec_from_bytes(spec_to_bytes(m)) == Some(
            full_map(|c: Channel| config_or_default(m, c)),
        ),
{
    lemma_channels_bytes(m, 6);
    let b = spec_to_bytes(m);
    assert(b.len() == 35);
    assert(b.take(4) =~= state_magic());
    let got = spec_from_bytes(b)->0;
    assert forall|c: Channel| #[trigger] got[c] == config_or_default(m, c) by {
        lemma_all_channels_index(c);
        let i = channel_index(c) as int;
        let cfg = config_or_default(m, c);
        assert(b[5 + 5 * i + 0] == channels_bytes(m, 6)[5 * i + 0]);
        assert(b[5 + 5 * i + 1] == channels_bytes(m, 6)[5 * i + 1]);
        assert(b[5 + 5 * i + 2] == channels_bytes(m, 6)[5 * i + 2]);
        assert(b[5 + 5 * i + 3] == channels_bytes(m, 6)[5 * i + 3]);
        assert(b[5 + 5 * i + 4] == channels_bytes(m, 6)[5 * i + 4]);
        assert(decode_config(b, (5 + 5 * i) as nat).color =~= cfg.color);
    }
    assert(got =~= full_map(|c: Channel| config_or_default(m, c)));
}

/// The first 35 bytes of a state file with each enabled byte read as 1 or 0.
pub open spec fn normalized_state_bytes(b: Seq<u8>) -> Seq<u8> {
    Seq::new(
        35,
        |i: int|
            if i >= 5 && (i - 5) % 5 == 4 {
                if b[i] != 0 {
                    1u8
                } else {
                    0u8
                }
            } else {
                b[i]
            },
    )
}

/// Reading a state file and writing the state again gives back its first 35
/// bytes, with each enabled byte written as 1 or 0.
pub proof fn lemma_bytes_state_roundtrip(b: Seq<u8>)
    requires
        spec_from_bytes(b) is Some,
    ensures
        spec_to_bytes(spec_from_bytes(b)->0) == normalized_state_bytes(b),
{
    let m = spec_from_bytes(b)->0;
    lemma_channels_bytes(m, 6);
    let out = spec_to_bytes(m);
    assert(b.take(4)[0] == b[0] && b.take(4)[1] == b[1] && b.take(4)[2] == b[2] && b.take(4)[3]
        == b[3]);
    assert forall|i: int| 0 <= i < 35 implies out[i] == normalized_state_bytes(b)[i] by {
        if i >= 5 {
            let k = (i - 5) / 5;
            let j = (i - 5) % 5;
            assert(i == 5 + 5 * k + j);
            let c = all_channels()[k];
            assert(channel_index(c) == k);
            assert(m.get(c) == Some(decode_config(b, (5 + 5 * k) as nat)));
            assert(out[i] == channels_bytes(m, 6)[5 * k + j]);
        }
    }
    assert(out =~= normalized_state_bytes(b));
}

/// A state read from a file is read back unchanged after it is written.
pub proof fn lemma_state_file_stable(b: Seq<u8>)
    requires
        spec_from_bytes(b) is Some,
    ensures
        spec_from_bytes(spec_to_bytes(spec_from_bytes(b)->0)) == spec_from_bytes(b),
{
    let m = spec_from_bytes(b)->0;
    lemma_state_bytes_roundtrip(m);
    assert(full_map(|c: Channel| config_or_default(m, c)) =~= m);
}

/// LED `i` lies in the range of its channel, which is one of the six.
pub proof fn lemma_channel_of_led(i: int)
    requires
        0 <= i < 200,
    ensures
        led_start(channel_of_led(i)) <= i < led_end(channel_of_led(i)),
        channel_index(channel_of_led(i)) < 6,
        forall|c: Channel| #[trigger] led_start(c) <= i < led_end(c) ==> c == channel_of_led(i),
{
}

/// Sets every LED of channel `ch` to `color`, leaving the others.
fn fill_range(leds: &mut Vec<[u8; 3]>, ch: Channel, color: [u8; 3])
    requires
        old(leds).len() == TOTAL_LEDS,
    ensures
        final(leds).len() == TOTAL_LEDS,
        forall|i: int|
            0 <= i < 200 ==> #[trigger] final(leds)[i] == if led_start(ch) <= i < led_end(ch) {
                color
            } else {
                old(leds)[i]
            },
{
    let range = ch.led_range();
    let mut i = range.start;
    while i < range.end
        invariant
            range.start == led_start(ch),
            range.end == led_end(ch),
            led_start(ch) <= i <= led_end(ch),
            leds.len() == TOTAL_LEDS,
            forall|j: int|
                0 <= j < 200 ==> #[trigger] leds[j] == if led_start(ch) <= j < i {
                    color
                } else {
                    old(leds)[j]
                },
        decreases range.end - i,
    {
        leds.set(i, color);
        i = i + 1;
    }
}


/// A change that the controller makes to one channel.
#[derive(Debug, Clone, Copy, PartialEq, Eq)]
pub enum ChannelCommand {
    /// `set_channel_color(channel, color, brightness)`.
    SetColor { channel: Channel, color: [u8; 3], brightness: u8 },
    /// `turn_off_channel(channel)`.
    TurnOff { channel: Channel },
}

/// The channel that a command changes.
pub open spec fn command_channel(c: ChannelCommand) -> Channel {
    match c {
        ChannelCommand::SetColor { channel, .. } => channel,
        ChannelCommand::TurnOff { channel } => channel,
    }
}

/// The configuration that a command gives its channel.
pub open spec fn command_config(c: ChannelCommand) -> ChannelConfig {
    match c {
        ChannelCommand::SetColor { color, brightness, .. } => ChannelConfig {
            color,
            brightness,
            enabled: true,
        },
        ChannelCommand::TurnOff { .. } => default_config(),
    }
}

/// The channel configurations after a command.
pub open spec fn apply_command(m: Map<Channel, ChannelConfig>, c: ChannelCommand) -> Map<
    Channel,
    ChannelConfig,
> {
    m.insert(command_channel(c), command_config(c))
}

/// The channel configurations after commands, applied in order.
pub open spec fn apply_commands(m: Map<Channel, ChannelConfig>, cmds: Seq<ChannelCommand>) -> Map<
    Channel,
    ChannelConfig,
>
    decreases cmds.len(),
{
    if cmds.len() == 0 {
        m
    } else {
        apply_command(apply_commands(m, cmds.drop_last()), cmds.last())
    }
}

/// The configuration of `ch` that the last command on `ch` gives, or the
/// one it had before the commands if none touches it.
pub open spec fn last_config(
    m: Map<Channel, ChannelConfig>,
    cmds: Seq<ChannelCommand>,
    ch: Channel,
) -> ChannelConfig
    decreases cmds.len(),
{
    if cmds.len() == 0 {
        config_or_default(m, ch)
    } else if command_channel(cmds.last()) == ch {
        command_config(cmds.last())
    } else {
        last_config(m, cmds.drop_last(), ch)
    }
}

/// The commands that set each of `chs`, in order, to a colour.
pub open spec fn set_color_commands(chs: Seq<Channel>, color: [u8; 3], brightness: u8) -> Seq<
    ChannelCommand,
> {
    chs.map_values(|c: Channel| ChannelCommand::SetColor { channel: c, color, brightness })
}

/// The commands that turn each of `chs` off, in order.
pub open spec fn turn_off_commands(chs: Seq<Channel>) -> Seq<ChannelCommand> {
    chs.map_values(|c: Channel| ChannelCommand::TurnOff { channel: c })
}

/// After any sequence of colour and turn-off commands, each channel reads
/// back what the last command on it set (the default after turning it off),
/// or what it had before if no command touched it.
pub proof fn lemma_last_command_wins(
    m: Map<Channel, ChannelConfig>,
    cmds: Seq<ChannelCommand>,
    ch: Channel,
)
    ensures
        config_or_default(apply_commands(m, cmds), ch) == last_config(m, cmds, ch),
    decreases cmds.len(),
{
    if cmds.len() > 0 {
        lemma_last_command_wins(m, cmds.drop_last(), ch);
    }
}

/// `std::path::PathBuf`: an owned file system path, carried through unread.
#[verifier::external_type_specification]
#[verifier::external_body]
pub struct ExPathBuf(PathBuf);

/// The RGB controller: where it is, where its state is kept, the state, and
/// the LED buffer that the state gives.
pub struct RgbController {
    dev_path: PathBuf,
    state_path: PathBuf,
    state: RgbState,
    leds: Vec<[u8; 3]>,
}

impl RgbController {
    /// The configuration of each channel.
    pub closed spec fn channels(&self) -> Map<Channel, ChannelConfig> {
        self.state@
    }

    /// The LED buffer.
    pub closed spec fn leds(&self) -> Seq<[u8; 3]> {
        self.leds@
    }

    /// The path of the HID device.
    pub closed spec fn device(&self) -> PathBuf {
        self.dev_path
    }

    /// The path of the state file.
    pub closed spec fn state_file(&self) -> PathBuf {
        self.state_path
    }

    /// The LED buffer holds what the state gives.
    pub closed spec fn wf(&self) -> bool {
        self.leds@ == spec_to_leds(self.state@)
    }

    /// What `wf` means for the buffer.
    pub proof fn lemma_wf(&self)
        requires
            self.wf(),
        ensures
            self.leds() == spec_to_leds(self.channels()),
            self.leds().len() == TOTAL_LEDS,
    {
    }

    /// A controller for the device at `dev_path`, with the state loaded from
    /// `state_path`; its LED buffer shows that state.
    pub fn new(dev_path: PathBuf, state_path: PathBuf, state: RgbState) -> (r: Self)
        ensures
            r.wf(),
            r.channels() == state@,
            r.device() == dev_path,
            r.state_file() == state_path,
    {
        let leds = state.to_leds();
        RgbController { dev_path, state_path, state, leds }
    }

    /// The path of the HID device.
    pub fn device_path(&self) -> (r: &PathBuf)
        ensures
            *r == self.device(),
    {
        &self.dev_path
    }

    /// The path of the state file.
    pub fn state_path(&self) -> (r: &PathBuf)
        ensures
            *r == self.state_file(),
    {
        &self.state_path
    }

    /// The configuration of `channel`, or the default if it has none.
    pub fn get_channel_config(&self, channel: Channel) -> (r: ChannelConfig)
        ensures
            r == config_or_default(self.channels(), channel),
    {
        match self.state.channels.get(&channel) {
            Some(c) => *c,
            None => ChannelConfig::default(),
        }
    }

    /// The state in its binary form, as it is saved.
    pub fn state_bytes(&self) -> (r: Vec<u8>)
        ensures
            r@ == spec_to_bytes(self.channels()),
    {
        self.state.to_bytes()
    }

    /// Sets `channel` to `color` at `brightness` and turns it on, in the state
    /// and in the LED buffer.
    pub fn set_channel_color(&mut self, channel: Channel, color: [u8; 3], brightness: u8)
        requires
            old(self).wf(),
        ensures
            final(self).wf(),
            final(self).channels() == old(self).channels().insert(
                channel,
                ChannelConfig { color, brightness, enabled: true },
            ),
            final(self).channels() == apply_command(
                old(self).channels(),
                ChannelCommand::SetColor { channel, color, brightness },
            ),
            final(self).device() == old(self).device(),
            final(self).state_file() == old(self).state_file(),
    {
        self.state.channels.insert(channel, ChannelConfig { color, brightness, enabled: true });
        let scaled = Self::scale_color(color, brightness);
        let ghost before = self.leds@;
        fill_range(&mut self.leds, channel, scaled);
        proof {
            self.lemma_refill(before, old(self).state@, channel);
        }
    }

    /// Turns `channel` off (black, 0%), in the state and in the LED buffer.
    pub fn turn_off_channel(&mut self, channel: Channel)
        requires
            old(self).wf(),
        ensures
            final(self).wf(),
            final(self).channels() == old(self).channels().insert(channel, default_config()),
            final(self).channels() == apply_command(
                old(self).channels(),
                ChannelCommand::TurnOff { channel },
            ),
            final(self).device() == old(self).device(),
            final(self).state_file() == old(self).state_file(),
    {
        self.state.channels.insert(
            channel,
            ChannelConfig { color: [0, 0, 0], brightness: 0, enabled: false },
        );
        assert(ChannelConfig { color: [0u8, 0u8, 0u8], brightness: 0, enabled: false }
            == default_config());
        let ghost before = self.leds@;
        fill_range(&mut self.leds, channel, [0, 0, 0]);
        proof {
            self.lemma_refill(before, old(self).state@, channel);
        }
    }

    /// Sets every channel of `channels`, in order, to `color` at
    /// `brightness` and turns it on.
    pub fn set_channels_color(&mut self, channels: &Vec<Channel>, color: [u8; 3], brightness: u8)
        requires
            old(self).wf(),
        ensures
            final(self).wf(),
            final(self).channels() == apply_commands(
                old(self).channels(),
                set_color_commands(channels@, color, brightness),
            ),
            final(self).device() == old(self).device(),
            final(self).state_file() == old(self).state_file(),
    {
        let mut i: usize = 0;
        while i < channels.len()
            invariant
                i <= channels.len(),
                self.wf(),
                self.channels() == apply_commands(
                    old(self).channels(),
                    set_color_commands(channels@.take(i as int), color, brightness),
                ),
                self.device() == old(self).device(),
                self.state_file() == old(self).state_file(),
            decreases channels.len() - i,
        {
            let ghost before = set_color_commands(channels@.take(i as int), color, brightness);
            self.set_channel_color(channels[i], color, brightness);
            assert(set_color_commands(channels@.take(i as int + 1), color, brightness) =~= before.push(
                ChannelCommand::SetColor { channel: channels@[i as int], color, brightness },
            ));
            assert(before.push(
                ChannelCommand::SetColor { channel: channels@[i as int], color, brightness },
            ).drop_last() =~= before);
            i = i + 1;
        }
        assert(channels@.take(channels.len() as int) =~= channels@);
    }

    /// Turns every channel of `channels` off, in order.
    pub fn turn_off_channels(&mut self, channels: &Vec<Channel>)
        requires
            old(self).wf(),
        ensures
            final(self).wf(),
            final(self).channels() == apply_commands(
                old(self).channels(),
                turn_off_commands(channels@),
            ),
            final(self).device() == old(self).device(),
            final(self).state_file() == old(self).state_file(),
    {
        let mut i: usize = 0;
        while i < channels.len()
            invariant
                i <= channels.len(),
                self.wf(),
                self.channels() == apply_commands(
                    old(self).channels(),
                    turn_off_commands(channels@.take(i as int)),
                ),
                self.device() == old(self).device(),
                self.state_file() == old(self).state_file(),
            decreases channels.len() - i,
        {
            let ghost before = turn_off_commands(channels@.take(i as int));
            self.turn_off_channel(channels[i]);
            assert(turn_off_commands(channels@.take(i as int + 1)) =~= before.push(
                ChannelCommand::TurnOff { channel: channels@[i as int] },
            ));
            assert(before.push(ChannelCommand::TurnOff { channel: channels@[i as int] }).drop_last()
                =~= before);
            i = i + 1;
        }
        assert(channels@.take(channels.len() as int) =~= channels@);
    }

    /// After the configuration of `channel` changed and its LEDs were set to
    /// what the new configuration gives, the buffer shows the new state.
    proof fn lemma_refill(&self, before: Seq<[u8; 3]>, old_state: Map<Channel, ChannelConfig>, channel: Channel)
        requires
            before == spec_to_leds(old_state),
            self.state@ == old_state.insert(channel, self.state@[channel]),
            self.leds.len() == TOTAL_LEDS,
            forall|i: int|
                0 <= i < 200 ==> #[trigger] self.leds[i] == if led_start(channel) <= i < led_end(
                    channel,
                ) {
                    led_color(self.state@, led_start(channel) as int)
                } else {
                    before[i]
                },
        ensures
            self.wf(),
    {
        assert forall|i: int| 0 <= i < 200 implies self.leds@[i] == led_color(self.state@, i) by {
            lemma_channel_of_led(i);
            lemma_channel_of_led(led_start(channel) as int);
            if led_start(channel) <= i < led_end(channel) {
            } else {
                assert(channel_of_led(i) != channel);
                assert(self.state@.get(channel_of_led(i)) == old_state.get(channel_of_led(i)));
            }
        }
        assert(self.leds@ =~= spec_to_leds(self.state@));
    }

    /// Scales each component of `color` by `min(brightness, 100) / 100`,
    /// rounding down.
    pub fn scale_color(color: [u8; 3], brightness: u8) -> (r: [u8; 3])
        ensures
            r == scale(color, brightness),
    {
        let factor: u16 = if brightness > 100 {
            100
        } else {
            brightness as u16
        };
        let r = [scale_one(color[0], factor), scale_one(color[1], factor), scale_one(color[2], factor)];
        assert(r =~= scale(color, brightness));
        r
    }
}


/// The 60 bytes that carry LEDs `20 * idx .. 20 * idx + 20`, three per LED.
pub open spec fn led_payload(leds: Seq<[u8; 3]>, idx: int) -> Seq<u8> {
    Seq::new(60, |j: int| leds[idx * 20 + j / 3][j % 3])
}

/// The header of a packet after its report id: `01 00 88` and a tag.
pub open spec fn packet_header(tag: u8) -> Seq<u8> {
    seq![1u8, 0u8, 0x88u8, tag]
}

/// A frame as written to the device: the report id 0 first where the driver
/// expects one.
pub open spec fn with_report_id(body: Seq<u8>, use_report_id: bool) -> Seq<u8> {
    if use_report_id {
        seq![0u8] + body
    } else {
        body
    }
}

/// The frame that carries LED packet `idx`.
pub open spec fn spec_led_frame(leds: Seq<[u8; 3]>, idx: int, use_report_id: bool) -> Seq<u8> {
    with_report_id(packet_header(idx as u8) + led_payload(leds, idx), use_report_id)
}

/// The frame that commits the LEDs sent before it.
pub open spec fn spec_flush_frame(use_report_id: bool) -> Seq<u8> {
    with_report_id(packet_header(0xff) + Seq::new(60, |j: int| 0u8), use_report_id)
}

/// The frames that write the LED buffer: LED packets 0 to 9, packet `k`
/// carrying LEDs `20 * k .. 20 * k + 20`, then the flush that commits them.
/// The first frame also tells whether the driver takes a report id.
pub open spec fn spec_frames(leds: Seq<[u8; 3]>, use_report_id: bool) -> Seq<Seq<u8>> {
    Seq::new(
        11,
        |k: int|
            if k < 10 {
                spec_led_frame(leds, k, use_report_id)
            } else {
                spec_flush_frame(use_report_id)
            },
    )
}

/// A new frame, holding the report id if the driver expects one.
fn frame_start(use_report_id: bool) -> (r: Vec<u8>)
    ensures
        r@ == with_report_id(Seq::empty(), use_report_id),
{
    let mut f: Vec<u8> = Vec::new();
    if use_report_id {
        f.push(0);
    }
    assert(f@ =~= with_report_id(Seq::empty(), use_report_id));
    f
}

/// The frame of LED packet `idx`.
fn led_frame(leds: &Vec<[u8; 3]>, idx: usize, use_report_id: bool) -> (r: Vec<u8>)
    requires
        leds.len() == TOTAL_LEDS,
        idx < 10,
    ensures
        r@ == spec_led_frame(leds@, idx as int, use_report_id),
{
    let mut f = frame_start(use_report_id);
    f.push(1);
    f.push(0);
    f.push(0x88);
    f.push(idx as u8);
    let ghost base = with_report_id(Seq::empty(), use_report_id) + packet_header(idx as u8);
    assert(f@ =~= base);
    let mut j: usize = 0;
    while j < 60
        invariant
            j <= 60,
            idx < 10,
            leds.len() == TOTAL_LEDS,
            f@ == base + led_payload(leds@, idx as int).take(j as int),
        decreases 60 - j,
    {
        let led = leds[idx * 20 + j / 3];
        f.push(led[j % 3]);
        j = j + 1;
        assert(f@ =~= base + led_payload(leds@, idx as int).take(j as int));
    }
    assert(led_payload(leds@, idx as int).take(60) =~= led_payload(leds@, idx as int));
    assert(f@ =~= spec_led_frame(leds@, idx as int, use_report_id));
    f
}

/// The flush frame.
fn flush_frame(use_report_id: bool) -> (r: Vec<u8>)
    ensures
        r@ == spec_flush_frame(use_report_id),
{
    let mut f = frame_start(use_report_id);
    f.push(1);
    f.push(0);
    f.push(0x88);
    f.push(0xff);
    let ghost base = with_report_id(Seq::empty(), use_report_id) + packet_header(0xff);
    assert(f@ =~= base);
    let mut j: usize = 0;
    while j < 60
        invariant
            j <= 60,
            f@ == base + Seq::new(j as nat, |i: int| 0u8),
        decreases 60 - j,
    {
        f.push(0);
        j = j + 1;
        assert(f@ =~= base + Seq::new(j as nat, |i: int| 0u8));
    }
    assert(f@ =~= spec_flush_frame(use_report_id));
    f
}

impl RgbController {
    /// The frames that write the LED buffer to the device: packets 0 to 9
    /// of 20 LEDs each, then the flush.
    pub fn frames(&self, use_report_id: bool) -> (r: Vec<Vec<u8>>)
        requires
            self.wf(),
        ensures
            r.len() == 11,
            forall|k: int| 0 <= k < 11 ==> #[trigger] r[k]@ == spec_frames(self.leds(), use_report_id)[k],
    {
        let mut out: Vec<Vec<u8>> = Vec::new();
        let mut idx: usize = 0;
        while idx < 10
            invariant
                idx <= 10,
                self.leds.len() == TOTAL_LEDS,
                out.len() == idx,
                forall|k: int| 0 <= k < out.len() ==> #[trigger] out[k]@ == spec_frames(self.leds@, use_report_id)[k],
            decreases 10 - idx,
        {
            out.push(led_frame(&self.leds, idx, use_report_id));
            idx = idx + 1;
        }
        out.push(flush_frame(use_report_id));
        out
    }
}

/// The `HID_ID=` key of a uevent line.
pub open spec fn hid_id_key() -> Seq<char> {
    seq!['H', 'I', 'D', '_', 'I', 'D', '=']
}

/// A hex field of a uevent line as a number: its trimmed text read in base
/// 16 as a `u32`, or 0 if that fails.
pub open spec fn hex_field(f: Seq<char>) -> nat {
    match parse_unsigned(trim(f), 16, 0xffff_ffff) {
        Ok(n) => n,
        Err(_) => 0,
    }
}

/// Whether a uevent line is `HID_ID=bus:vendor:product` with the vendor and
/// product ids of the RGB controller (each taken modulo 2^16).
pub open spec fn line_names_controller(line: Seq<char>) -> bool {
    let parts = crate::text::split(line, ':');
    &&& line.len() >= 7
    &&& line.take(7) == hid_id_key()
    &&& parts.len() >= 3
    &&& hex_field(parts[1]) % 0x10000 == COLORFUL_VID
    &&& hex_field(parts[2]) % 0x10000 == COLORFUL_PID
}

/// Whether some line of a uevent file names the RGB controller.
pub open spec fn uevent_names_controller(u: Seq<char>) -> bool {
    let lines = crate::text::split(u, '\n');
    exists|k: int| 0 <= k < lines.len() && line_names_controller(#[trigger] lines[k])
}

/// Whether a report descriptor holds the vendor usage page item `06 01 FF`.
pub open spec fn has_vendor_usage_page(d: Seq<u8>) -> bool {
    exists|i: int| 0 <= i && i + 3 <= d.len() && d[i] == 6 && d[i + 1] == 1 && #[trigger] d[i + 2] == 0xff
}

/// Reads field `v[lo..hi]` of a uevent line as a 16-bit id.
fn hex_field_id(v: &Vec<char>, lo: usize, hi: usize) -> (r: u16)
    requires
        lo <= hi <= v.len(),
    ensures
        r == hex_field(v@.subrange(lo as int, hi as int)) % 0x10000,
{
    let (a, b) = trim_range(v, lo, hi);
    proof {
        crate::text::lemma_parse_unsigned_bound(v@.subrange(a as int, b as int), 16, 0xffff_ffff);
    }
    let n: u32 = match parse_unsigned_range(v, a, b, 16, 0xffff_ffff) {
        Ok(n) => n,
        Err(_) => 0,
    };
    assert((n as u16) == n % 0x10000) by (bit_vector);
    n as u16
}

/// Whether line `v[lo..hi]` names the RGB controller.
fn line_is_controller(v: &Vec<char>, lo: usize, hi: usize) -> (b: bool)
    requires
        lo <= hi <= v.len(),
    ensures
        b == line_names_controller(v@.subrange(lo as int, hi as int)),
{
    let ghost line = v@.subrange(lo as int, hi as int);
    if hi - lo < 7 {
        return false;
    }
    let key = ['H', 'I', 'D', '_', 'I', 'D', '='];
    let mut k: usize = 0;
    while k < 7
        invariant
            lo + 7 <= hi <= v.len(),
            line == v@.subrange(lo as int, hi as int),
            key@ == hid_id_key(),
            k <= 7,
            forall|m: int| 0 <= m < k ==> line[m] == hid_id_key()[m],
        decreases 7 - k,
    {
        if v[lo + k] != key[k] {
            assert(line.take(7)[k as int] != hid_id_key()[k as int]);
            return false;
        }
        k = k + 1;
    }
    assert(line.take(7) =~= hid_id_key());
    let parts = split_ranges(v, lo, hi, ':');
    proof {
        assert(crate::text::ranges_text(v@, parts@).len() == parts@.len());
    }
    if parts.len() < 3 {
        return false;
    }
    let (p1lo, p1hi) = parts[1];
    let (p2lo, p2hi) = parts[2];
    assert(crate::text::split(line, ':')[1] == v@.subrange(p1lo as int, p1hi as int));
    assert(crate::text::split(line, ':')[2] == v@.subrange(p2lo as int, p2hi as int));
    hex_field_id(v, p1lo, p1hi) == COLORFUL_VID && hex_field_id(v, p2lo, p2hi) == COLORFUL_PID
}

/// Whether a uevent file names the RGB controller: some line
/// `HID_ID=bus:vendor:product` carries its vendor and product ids in hex.
pub fn uevent_is_controller(uevent: &str) -> (b: bool)
    ensures
        b == uevent_names_controller(uevent@),
{
    let v = chars_of(uevent);
    let lines = split_ranges(&v, 0, v.len(), '\n');
    assert(v@.subrange(0, v@.len() as int) =~= uevent@);
    let ghost text_lines = crate::text::split(uevent@, '\n');
    assert(crate::text::ranges_text(v@, lines@).len() == lines@.len());
    let mut k: usize = 0;
    while k < lines.len()
        invariant
            k <= lines.len(),
            text_lines == crate::text::split(uevent@, '\n'),
            lines.len() == text_lines.len(),
            forall|j: int| 0 <= j < lines.len() ==> 0 <= (#[trigger] lines[j]).0 <= lines[j].1 <= v.len(),
            forall|j: int| 0 <= j < lines.len() ==> #[trigger] text_lines[j] == v@.subrange(lines[j].0 as int, lines[j].1 as int),
            forall|j: int| 0 <= j < k ==> !line_names_controller(#[trigger] text_lines[j]),
        decreases lines.len() - k,
    {
        let (lo, hi) = lines[k];
        if line_is_controller(&v, lo, hi) {
            assert(line_names_controller(text_lines[k as int]));
            return true;
        }
        k = k + 1;
    }
    false
}

/// Whether a HID report descriptor holds the vendor usage page `0xFF01`
/// (the item bytes `06 01 FF`).
pub fn descriptor_has_vendor_page(desc: &[u8]) -> (b: bool)
    ensures
        b == has_vendor_usage_page(desc@),
{
    let n = desc.len();
    if n < 3 {
        return false;
    }
    let mut i: usize = 0;
    while i < n - 2
        invariant
            n == desc@.len(),
            n >= 3,
            i <= n - 2,
            forall|j: int| 0 <= j < i ==> !(desc@[j] == 6 && desc@[j + 1] == 1 && #[trigger] desc@[j + 2] == 0xff),
        decreases n - i,
    {
        if desc[i] == 6 && desc[i + 1] == 1 && desc[i + 2] == 0xff {
            return true;
        }
        i = i + 1;
    }
    false
}


/// The LED ranges of the channels are non-empty, lie within the 200 LEDs,
/// do not overlap, and together cover every LED.
pub proof fn lemma_led_ranges_partition()
    ensures
        forall|c: Channel| led_start(c) < #[trigger] led_end(c) <= TOTAL_LEDS,
        forall|a: Channel, b: Channel|
            a != b ==> #[trigger] led_end(a) <= #[trigger] led_start(b) || led_end(b) <= led_start(a),
        forall|i: int| 0 <= i < 200 ==> led_start(#[trigger] channel_of_led(i)) <= i < led_end(channel_of_led(i)),
{
}

/// Setting one channel's configuration changes what that channel reads
/// back and shows, and nothing else: every other channel keeps its
/// configuration and its LEDs.
pub proof fn lemma_channel_preservation(
    m: Map<Channel, ChannelConfig>,
    ch: Channel,
    cfg: ChannelConfig,
    other: Channel,
    i: int,
)
    requires
        0 <= i < 200,
    ensures
        config_or_default(m.insert(ch, cfg), ch) == cfg,
        other != ch ==> config_or_default(m.insert(ch, cfg), other) == config_or_default(m, other),
        !(led_start(ch) <= i < led_end(ch)) ==> spec_to_leds(m.insert(ch, cfg))[i]
            == spec_to_leds(m)[i],
        led_start(ch) <= i < led_end(ch) ==> spec_to_leds(m.insert(ch, cfg))[i] == if cfg.enabled {
            scale(cfg.color, cfg.brightness)
        } else {
            black()
        },
{
    lemma_channel_of_led(i);
}

/// The frames carry every LED, twenty per frame in order, three bytes each
/// after the four header bytes (and the report id where one is sent); every
/// frame is 65 bytes with a report id and 64 without.
pub proof fn lemma_frames_carry_leds(leds: Seq<[u8; 3]>, use_report_id: bool, i: int, c: int)
    requires
        leds.len() == 200,
        0 <= i < 200,
        0 <= c < 3,
    ensures
        ({
            let off: int = if use_report_id {
                1
            } else {
                0
            };
            spec_frames(leds, use_report_id)[i / 20][off + 4 + (i % 20) * 3 + c] == leds[i][c]
        }),
        forall|k: int|
            0 <= k < 11 ==> #[trigger] spec_frames(leds, use_report_id)[k].len() == if use_report_id {
                65int
            } else {
                64int
            },
{
    let k = i / 20;
    let j = (i % 20) * 3 + c;
    assert(j / 3 == i % 20 && j % 3 == c);
    assert(k * 20 + j / 3 == i);
    assert(led_payload(leds, k)[j] == leds[i][c]);
}

} // verus!
