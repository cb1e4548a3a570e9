//! The RGB strip and the gear indicator LEDs.
//!
//! The strip renders an animation held in device memory, so everything but
//! switching it on and off comes down to filling that buffer and uploading it.

use crate::protocol;
use crate::protocol::{
    build_report, CMD_GEAR_LIGHT, CMD_LIGHT_APPLY, CMD_LIGHT_POWER, CMD_LIGHT_UPLOAD_BEGIN,
    CMD_LIGHT_UPLOAD_BLOCK, MAX_PAYLOAD, REPORT_LEN,
};
use crate::text;
use vstd::prelude::*;
use vstd::slice::slice_subrange;

verus! {

/// Number of built-in effects the firmware carries.
pub const EFFECT_COUNT: u8 = 5;

/// Bytes in one step of the animation.
pub const STEP_LEN: usize = 10;

/// Size of the effect buffer: 18 steps of 10 bytes.
pub const BUFFER_LEN: usize = 180;

/// The whole animation, header included: 18 steps of 10 bytes and a final one
/// of 6. The firmware stores exactly this much and flushes it to flash on
/// apply.
pub const FULL_BUFFER_LEN: usize = 186;

pub const LIGHT_SPEED_MEDIUM: u8 = 0x0A;

#[derive(Debug, Clone, Copy, PartialEq, Eq, Structural)]
pub struct Rgb {
    pub r: u8,
    pub g: u8,
    pub b: u8,
}

/// The smaller of a brightness and a hundred percent.
pub open spec fn percent(brightness: u8) -> u8 {
    if brightness < 100 {
        brightness
    } else {
        100
    }
}

/// Where scaling a channel in single precision comes out just under the whole
/// number it should be, so that cutting off the fraction loses one.
pub open spec fn falls_short(channel: u8, percent: u8) -> bool {
    ||| channel == 150 && percent == 42
    ||| channel == 225 && percent == 52
    ||| channel == 100 && percent == 53
    ||| channel == 200 && percent == 53
    ||| channel == 100 && percent == 59
    ||| channel == 200 && percent == 59
    ||| channel == 180 && percent == 65
    ||| channel == 150 && percent == 78
    ||| channel == 75 && percent == 84
    ||| channel == 150 && percent == 84
}

/// A colour channel dimmed to a percentage.
pub open spec fn scaled_channel(channel: u8, brightness: u8) -> u8 {
    let full = channel as int * percent(brightness) as int / 100;
    if falls_short(channel, percent(brightness)) {
        (full - 1) as u8
    } else {
        full as u8
    }
}

fn scale(channel: u8, brightness: u8) -> (r: u8)
    ensures
        r == scaled_channel(channel, brightness),
{
    let percent: u8 = if brightness < 100 {
        brightness
    } else {
        100
    };
    proof {
        assert(channel * percent <= 255 * 100) by (nonlinear_arith)
            requires
                channel <= 255,
                percent <= 100,
        ;
        assert(channel * percent >= 0) by (nonlinear_arith);
    }
    let full: u16 = channel as u16 * percent as u16 / 100;
    let short: bool = (channel == 150 && (percent == 42 || percent == 78 || percent == 84)) || (
    channel == 225 && percent == 52) || ((channel == 100 || channel == 200) && (percent == 53
        || percent == 59)) || (channel == 180 && percent == 65) || (channel == 75 && percent == 84);
    if short {
        (full - 1) as u8
    } else {
        full as u8
    }
}

impl Rgb {
    pub open spec fn dimmed(self, brightness: u8) -> Rgb {
        Rgb {
            r: scaled_channel(self.r, brightness),
            g: scaled_channel(self.g, brightness),
            b: scaled_channel(self.b, brightness),
        }
    }

    /// One of the three channels.
    pub open spec fn channel(self, i: int) -> u8 {
        if i == 0 {
            self.r
        } else if i == 1 {
            self.g
        } else {
            self.b
        }
    }

    /// The colour at a percentage of its brightness.
    pub fn scaled(self, brightness: u8) -> (r: Self)
        ensures
            r == self.dimmed(brightness),
    {
        Self {
            r: scale(self.r, brightness),
            g: scale(self.g, brightness),
            b: scale(self.b, brightness),
        }
    }
}

/// The colour six hexadecimal digits spell, two for each channel; what follows
/// them is not read.
pub open spec fn hex_color(digits: Seq<char>) -> Option<Rgb> {
    if digits.len() < 6 {
        None
    } else {
        match (
            text::unsigned(digits.subrange(0, 2), 16, 255),
            text::unsigned(digits.subrange(2, 4), 16, 255),
            text::unsigned(digits.subrange(4, 6), 16, 255),
        ) {
            (Some(r), Some(g), Some(b)) => Some(Rgb { r: r as u8, g: g as u8, b: b as u8 }),
            _ => None,
        }
    }
}

/// A text without one hash in front.
pub open spec fn unhashed(s: Seq<char>) -> Seq<char> {
    if s.len() > 0 && s[0] == '#' {
        s.drop_first()
    } else {
        s
    }
}

/// Drop one hash in front.
pub fn without_hash(s: &[char]) -> (r: &[char])
    ensures
        r@ == unhashed(s@),
{
    if s.len() > 0 && s[0] == '#' {
        proof {
            assert(s@.subrange(1, s@.len() as int) =~= s@.drop_first());
        }
        slice_subrange(s, 1, s.len())
    } else {
        s
    }
}

/// Read a colour off the first six hexadecimal digits.
pub fn read_hex_color(digits: &[char]) -> (r: Option<Rgb>)
    ensures
        r == hex_color(digits@),
{
    if digits.len() < 6 {
        return None;
    }
    match (
        text::read_unsigned(slice_subrange(digits, 0, 2), 16, 255),
        text::read_unsigned(slice_subrange(digits, 2, 4), 16, 255),
        text::read_unsigned(slice_subrange(digits, 4, 6), 16, 255),
    ) {
        (Some(r), Some(g), Some(b)) => Some(Rgb { r: r as u8, g: g as u8, b: b as u8 }),
        _ => None,
    }
}

/// `rrggbb` and nothing more, with or without a leading hash.
pub open spec fn exact_color(s: Seq<char>) -> Option<Rgb> {
    if unhashed(s).len() == 6 {
        hex_color(unhashed(s))
    } else {
        None
    }
}

/// Read `rrggbb` and nothing more, with or without a leading hash.
pub fn read_exact_color(s: &str) -> (r: Option<Rgb>)
    ensures
        r == exact_color(s@),
{
    let chars = text::chars_of(s);
    let digits = without_hash(chars.as_slice());
    if digits.len() == 6 {
        read_hex_color(digits)
    } else {
        None
    }
}

/// Dimming never brightens, full brightness changes nothing, and none is black.
pub proof fn law_dimming(channel: u8, brightness: u8)
    ensures
        scaled_channel(channel, brightness) <= channel,
        brightness >= 100 ==> scaled_channel(channel, brightness) == channel,
        brightness == 0 ==> scaled_channel(channel, brightness) == 0,
{
    let p = percent(brightness);
    assert(channel * p <= channel * 100) by (nonlinear_arith)
        requires
            p <= 100,
    ;
    assert(channel * p >= 0) by (nonlinear_arith);
    if brightness == 0 {
        assert(channel * p == 0) by (nonlinear_arith)
            requires
                p == 0,
        ;
    }
}

/// The lighting the cooler is showing.
///
/// Nothing can be read back: the firmware has no query for any of this, so
/// whoever set it last is the only one who knows. The daemon therefore keeps
/// this and hands it to clients, instead of every client guessing.
#[derive(Debug, Clone, Copy, PartialEq, Eq, Structural)]
pub enum LightMode {
    Off,
    Static { color: Rgb },
    Effect { effect: u8 },
}

impl Default for LightMode {
    fn default() -> (mode: Self)
        ensures
            mode == LightMode::Off,
    {
        LightMode::Off
    }
}

#[derive(Debug, Clone, Copy, PartialEq, Eq, Structural)]
pub struct Lighting {
    pub mode: LightMode,
    /// Percentage, and it applies to an animation as much as to a colour: the
    /// firmware keeps brightness in the same header byte either way.
    pub brightness: u8,
    /// The gear indicator LEDs, a separate light from the strip.
    pub indicators: bool,
}

impl Default for Lighting {
    fn default() -> (lighting: Self)
        ensures
            lighting == (Lighting { mode: LightMode::Off, brightness: 100, indicators: true }),
    {
        Self { mode: LightMode::Off, brightness: 100, indicators: true }
    }
}

// ---------------------------------------------------------------------------
// Single reports

/// The bytes of each of a list of reports.
pub open spec fn bytes_of(reports: Seq<[u8; REPORT_LEN]>) -> Seq<Seq<u8>> {
    Seq::new(reports.len(), |i: int| reports[i]@)
}

pub open spec fn power_report(on: bool) -> Seq<u8> {
    protocol::report_of(CMD_LIGHT_POWER, seq![if on { 1u8 } else { 0u8 }])
}

pub open spec fn indicator_report(on: bool) -> Seq<u8> {
    protocol::report_of(CMD_GEAR_LIGHT, seq![if on { 1u8 } else { 0u8 }])
}

/// Turn the RGB strip off.
pub fn light_off() -> (report: [u8; REPORT_LEN])
    ensures
        report@ == power_report(false),
        protocol::acceptable(report@),
{
    let payload: [u8; 1] = [0x00];
    proof {
        assert(payload@ =~= seq![0u8]);
        protocol::law_reports_are_acceptable(CMD_LIGHT_POWER, payload@);
    }
    build_report(CMD_LIGHT_POWER, &payload)
}

/// Light the strip again with whatever it was last given.
///
/// The animation lives in the cooler's own flash, so power is all this takes:
/// nothing has to be uploaded to get the same pattern back.
pub fn light_on() -> (report: [u8; REPORT_LEN])
    ensures
        report@ == power_report(true),
        protocol::acceptable(report@),
{
    let payload: [u8; 1] = [0x01];
    proof {
        assert(payload@ =~= seq![1u8]);
        protocol::law_reports_are_acceptable(CMD_LIGHT_POWER, payload@);
    }
    build_report(CMD_LIGHT_POWER, &payload)
}

/// Toggle the gear indicator LEDs. Unlike the strip, this is a normal
/// 25-byte control report.
pub fn gear_light(on: bool) -> (report: [u8; REPORT_LEN])
    ensures
        report@ == indicator_report(on),
        protocol::acceptable(report@),
{
    let payload: [u8; 1] = [if on {
        1
    } else {
        0
    }];
    proof {
        assert(payload@ =~= seq![if on { 1u8 } else { 0u8 }]);
        protocol::law_reports_are_acceptable(CMD_GEAR_LIGHT, payload@);
    }
    build_report(CMD_GEAR_LIGHT, &payload)
}

// ---------------------------------------------------------------------------
// Animations

/// Mode and speed of a built-in effect. Anything that is not one of the first
/// four is the fifth.
pub open spec fn preset_mode(effect: u8) -> (u8, u8) {
    if effect == 1 {
        (0x03, 0x0A)
    } else if effect == 2 {
        (0x03, 0x06)
    } else if effect == 3 {
        (0x03, 0x02)
    } else if effect == 4 {
        (0x01, 0x02)
    } else {
        (0x02, 0x0A)
    }
}

/// The four colours a ramp runs through; only the hue differs between the
/// presets that use one.
pub open spec fn ramp_color(effect: u8, i: int) -> Rgb {
    let pale: u8 = if i == 0 {
        0x00
    } else if i == 2 {
        0xFF
    } else {
        0x3F
    };
    if effect == 1 {
        Rgb { r: pale, g: 0xFF, b: pale }
    } else if effect == 2 {
        Rgb { r: 0xFF, g: 0xFF, b: pale }
    } else {
        Rgb { r: 0xFF, g: pale, b: pale }
    }
}

pub open spec fn black() -> Rgb {
    Rgb { r: 0, g: 0, b: 0 }
}

/// What a built-in effect paints at a place of the animation: `block` counts
/// runs of 30 bytes, and `slot` the colours from the sixth byte of each on.
///
/// Presets 1-3 paint four colours in each of three places per half, and each
/// place rotates the palette by one. Preset 4 repeats solid red, twice per
/// block. Preset 5 orders three colours differently in every block.
pub open spec fn preset_color(effect: u8, block: int, slot: int) -> Rgb {
    let white = Rgb { r: 0xFF, g: 0xFF, b: 0xFF };
    let violet = Rgb { r: 0x1E, g: 0x1E, b: 0xA0 };
    let blue = Rgb { r: 0x00, g: 0x00, b: 0x50 };
    if 1 <= effect <= 3 {
        ramp_color(effect, (slot + block % 3) % 4)
    } else if effect == 4 {
        if slot < 2 {
            Rgb { r: 0xFF, g: 0x00, b: 0x00 }
        } else {
            black()
        }
    } else if slot == 3 {
        black()
    } else if block == 0 || block == 3 {
        if slot == 0 {
            white
        } else if slot == 1 {
            violet
        } else {
            blue
        }
    } else if slot == 0 {
        blue
    } else if block == 1 || block == 4 {
        if slot == 1 {
            white
        } else {
            violet
        }
    } else {
        if slot == 1 {
            violet
        } else {
            white
        }
    }
}

/// The buffer of a built-in effect, byte by byte: six bytes of header
/// (`00 02 00 <mode> <speed> <brightness>`), and in every run of 30 bytes four
/// colours from the sixth byte on.
pub open spec fn preset_byte(effect: u8, brightness: u8, i: int) -> u8 {
    if i == 1 {
        0x02
    } else if i == 3 {
        preset_mode(effect).0
    } else if i == 4 {
        preset_mode(effect).1
    } else if i == 5 {
        percent(brightness)
    } else if 6 <= i % 30 < 18 {
        preset_color(effect, i / 30, (i % 30 - 6) / 3).channel((i % 30 - 6) % 3)
    } else {
        0
    }
}

pub open spec fn preset(effect: u8, brightness: u8) -> Seq<u8> {
    Seq::new(BUFFER_LEN as nat, |i: int| preset_byte(effect, brightness, i))
}

fn ramp_color_of(effect: u8, i: usize) -> (color: Rgb)
    requires
        i < 4,
    ensures
        color == ramp_color(effect, i as int),
{
    let pale: u8 = match i {
        0 => 0x00,
        2 => 0xFF,
        _ => 0x3F,
    };
    match effect {
        1 => Rgb { r: pale, g: 0xFF, b: pale },
        2 => Rgb { r: 0xFF, g: 0xFF, b: pale },
        _ => Rgb { r: 0xFF, g: pale, b: pale },
    }
}

fn preset_color_of(effect: u8, block: usize, slot: usize) -> (color: Rgb)
    requires
        block < 6,
        slot < 4,
    ensures
        color == preset_color(effect, block as int, slot as int),
{
    let white = Rgb { r: 0xFF, g: 0xFF, b: 0xFF };
    let violet = Rgb { r: 0x1E, g: 0x1E, b: 0xA0 };
    let blue = Rgb { r: 0x00, g: 0x00, b: 0x50 };
    let dark = Rgb { r: 0, g: 0, b: 0 };
    if 1 <= effect && effect <= 3 {
        ramp_color_of(effect, (slot + block % 3) % 4)
    } else if effect == 4 {
        if slot < 2 {
            Rgb { r: 0xFF, g: 0x00, b: 0x00 }
        } else {
            dark
        }
    } else {
        match (block % 3, slot) {
            (_, 3) => dark,
            (0, 0) => white,
            (0, 1) => violet,
            (0, _) => blue,
            (_, 0) => blue,
            (1, 1) => white,
            (1, _) => violet,
            (_, 1) => violet,
            (_, _) => white,
        }
    }
}

/// Rebuild the buffer the firmware would install for a built-in effect.
///
/// Asking the device for a preset with `0x44` only works while it is in
/// realtime mode, and leaving that mode drops the strip straight back to this
/// buffer. Uploading the preset's own palette is therefore the only way to keep
/// it playing in gear mode.
pub fn preset_buffer(effect: u8, brightness: u8) -> (buf: [u8; BUFFER_LEN])
    ensures
        buf@ == preset(effect, brightness),
{
    let mut buf: [u8; BUFFER_LEN] = [0u8; BUFFER_LEN];
    let (mode, speed): (u8, u8) = match effect {
        1 => (0x03, 0x0A),
        2 => (0x03, 0x06),
        3 => (0x03, 0x02),
        4 => (0x01, 0x02),
        _ => (0x02, 0x0A),
    };
    buf[1] = 0x02;
    buf[3] = mode;
    buf[4] = speed;
    buf[5] = if brightness < 100 {
        brightness
    } else {
        100
    };
    let mut block: usize = 0;
    while block < 6
        invariant
            block <= 6,
            buf@.len() == BUFFER_LEN,
            forall|i: int| 0 <= i < 30 * block ==> buf@[i] == preset_byte(effect, brightness, i),
            forall|i: int| 0 <= i < 6 ==> buf@[i] == preset_byte(effect, brightness, i),
            forall|i: int| 30 * block <= i < BUFFER_LEN && i >= 6 ==> buf@[i] == 0,
        decreases 6 - block,
    {
        let mut slot: usize = 0;
        while slot < 4
            invariant
                block < 6,
                slot <= 4,
                buf@.len() == BUFFER_LEN,
                forall|i: int|
                    0 <= i < 30 * block ==> buf@[i] == preset_byte(effect, brightness, i),
                forall|i: int| 0 <= i < 6 ==> buf@[i] == preset_byte(effect, brightness, i),
                forall|i: int|
                    30 * block + 6 <= i < 30 * block + 6 + 3 * slot ==> buf@[i] == preset_byte(
                        effect,
                        brightness,
                        i,
                    ),
                forall|i: int|
                    30 * block <= i < 30 * block + 6 && i >= 6 ==> buf@[i] == 0,
                forall|i: int| 30 * block + 6 + 3 * slot <= i < BUFFER_LEN ==> buf@[i] == 0,
            decreases 4 - slot,
        {
            let color = preset_color_of(effect, block, slot);
            let at: usize = block * 30 + 6 + slot * 3;
            buf[at] = color.r;
            buf[at + 1] = color.g;
            buf[at + 2] = color.b;
            slot += 1;
        }
        proof {
            assert forall|i: int| 30 * block <= i < 30 * (block + 1) implies buf@[i]
                == preset_byte(effect, brightness, i) by {
                assert(i / 30 == block && i % 30 == i - 30 * block);
            }
        }
        block += 1;
    }
    proof {
        assert(buf@ =~= preset(effect, brightness));
    }
    buf
}

/// Dimming an effect keeps it running: of everything uploaded for it, only the
/// byte that holds the brightness changes.
pub proof fn law_dimming_keeps_the_effect(effect: u8, brightness: u8, dimmer: u8)
    ensures
        preset(effect, dimmer) == preset(effect, brightness).update(5, percent(dimmer)),
{
    assert(preset(effect, dimmer) =~= preset(effect, brightness).update(5, percent(dimmer)));
}

/// Steps that actually drive an LED.
pub open spec fn lit_step(step: int) -> bool {
    step == 2 || step == 5 || step == 8 || step == 11 || step == 14
}

/// The buffer that holds a single colour: a header step, then animation steps
/// of which the lit ones carry the dimmed colour.
pub open spec fn solid_byte(color: Rgb, brightness: u8, i: int) -> u8 {
    if i < STEP_LEN {
        if i == 1 {
            0x02
        } else if i == 4 {
            LIGHT_SPEED_MEDIUM
        } else if i == 5 {
            percent(brightness)
        } else if 6 <= i < 9 {
            color.channel(i - 6)
        } else {
            0
        }
    } else if lit_step(i / 10 - 1) && 6 <= i % 10 < 9 {
        color.dimmed(brightness).channel(i % 10 - 6)
    } else {
        0
    }
}

pub open spec fn solid(color: Rgb, brightness: u8) -> Seq<u8> {
    Seq::new(FULL_BUFFER_LEN as nat, |i: int| solid_byte(color, brightness, i))
}

fn solid_buffer(color: Rgb, brightness: u8) -> (buf: [u8; FULL_BUFFER_LEN])
    ensures
        buf@ == solid(color, brightness),
{
    let mut buf: [u8; FULL_BUFFER_LEN] = [0u8; FULL_BUFFER_LEN];
    buf[1] = 0x02;
    buf[4] = LIGHT_SPEED_MEDIUM;
    buf[5] = if brightness < 100 {
        brightness
    } else {
        100
    };
    buf[6] = color.r;
    buf[7] = color.g;
    buf[8] = color.b;
    let lit = color.scaled(brightness);
    let mut step: usize = 0;
    while step < 17
        invariant
            step <= 17,
            lit == color.dimmed(brightness),
            buf@.len() == FULL_BUFFER_LEN,
            forall|i: int| 0 <= i < 10 * (step + 1) ==> buf@[i] == solid_byte(color, brightness, i),
            forall|i: int| 10 * (step + 1) <= i < FULL_BUFFER_LEN ==> buf@[i] == 0,
        decreases 17 - step,
    {
        if step == 2 || step == 5 || step == 8 || step == 11 || step == 14 {
            let at: usize = (step + 1) * 10;
            buf[at + 6] = lit.r;
            buf[at + 7] = lit.g;
            buf[at + 8] = lit.b;
        }
        proof {
            assert forall|i: int| 10 * (step + 1) <= i < 10 * (step + 2) implies buf@[i]
                == solid_byte(color, brightness, i) by {
                assert(i / 10 == step + 1 && i % 10 == i - 10 * (step + 1));
            }
        }
        step += 1;
    }
    proof {
        assert forall|i: int| 180 <= i < FULL_BUFFER_LEN implies solid_byte(color, brightness, i)
            == 0 by {
            assert(i / 10 == 18);
        }
        assert(buf@ =~= solid(color, brightness));
    }
    buf
}

/// The length of the first block of a buffer that is still to be sent.
pub open spec fn block_len(buf: Seq<u8>) -> int {
    if buf.len() < MAX_PAYLOAD {
        buf.len() as int
    } else {
        MAX_PAYLOAD as int
    }
}

/// The reports that carry a buffer over, as much in each as one can hold.
pub open spec fn block_reports(buf: Seq<u8>) -> Seq<Seq<u8>>
    decreases buf.len(),
{
    if buf.len() == 0 {
        Seq::empty()
    } else {
        seq![protocol::report_of(CMD_LIGHT_UPLOAD_BLOCK, buf.take(block_len(buf)))] + block_reports(
            buf.skip(block_len(buf)),
        )
    }
}

/// Everything it takes to show a buffer: power, rewind, the blocks, apply.
pub open spec fn upload_reports(buf: Seq<u8>) -> Seq<Seq<u8>> {
    seq![power_report(true), protocol::report_of(CMD_LIGHT_UPLOAD_BEGIN, Seq::empty())]
        + block_reports(buf) + seq![protocol::report_of(CMD_LIGHT_APPLY, seq![1u8])]
}

/// The payload of a report we built.
pub open spec fn payload_of(report: Seq<u8>) -> Seq<u8> {
    report.subrange(5, 3 + report[4])
}

/// What the payloads of a run of reports add up to.
pub open spec fn joined_payloads(reports: Seq<Seq<u8>>) -> Seq<u8>
    decreases reports.len(),
{
    if reports.len() == 0 {
        Seq::empty()
    } else {
        payload_of(reports[0]) + joined_payloads(reports.drop_first())
    }
}

/// The device appends one block after the other, so what it ends up holding is
/// the buffer, whole and in order.
pub proof fn law_blocks_carry_the_buffer(buf: Seq<u8>)
    ensures
        joined_payloads(block_reports(buf)) == buf,
    decreases buf.len(),
{
    if buf.len() > 0 {
        let n = block_len(buf);
        let first = protocol::report_of(CMD_LIGHT_UPLOAD_BLOCK, buf.take(n));
        law_blocks_carry_the_buffer(buf.skip(n));
        assert(block_reports(buf)[0] == first);
        assert(block_reports(buf).drop_first() =~= block_reports(buf.skip(n)));
        assert(payload_of(first) =~= buf.take(n));
        assert(buf.take(n) + buf.skip(n) =~= buf);
    }
}

/// Every report of an upload is one the firmware takes.
pub proof fn law_uploads_are_acceptable(buf: Seq<u8>)
    ensures
        forall|i: int|
            0 <= i < upload_reports(buf).len() ==> #[trigger] protocol::acceptable(
                upload_reports(buf)[i],
            ),
{
    lemma_blocks_are_acceptable(buf);
    protocol::law_reports_are_acceptable(CMD_LIGHT_POWER, seq![1u8]);
    protocol::law_reports_are_acceptable(CMD_LIGHT_UPLOAD_BEGIN, Seq::empty());
    protocol::law_reports_are_acceptable(CMD_LIGHT_APPLY, seq![1u8]);
    let all = upload_reports(buf);
    assert forall|i: int| 0 <= i < all.len() implies #[trigger] protocol::acceptable(all[i]) by {
        if 2 <= i < all.len() - 1 {
            assert(all[i] == block_reports(buf)[i - 2]);
        }
    }
}

proof fn lemma_blocks_are_acceptable(buf: Seq<u8>)
    ensures
        forall|i: int|
            0 <= i < block_reports(buf).len() ==> #[trigger] protocol::acceptable(
                block_reports(buf)[i],
            ),
    decreases buf.len(),
{
    if buf.len() > 0 {
        let n = block_len(buf);
        protocol::law_reports_are_acceptable(CMD_LIGHT_UPLOAD_BLOCK, buf.take(n));
        lemma_blocks_are_acceptable(buf.skip(n));
        let all = block_reports(buf);
        assert forall|i: int| 0 <= i < all.len() implies #[trigger] protocol::acceptable(
            all[i],
        ) by {
            if i > 0 {
                assert(all[i] == block_reports(buf.skip(n))[i - 1]);
            }
        }
    }
}

/// Send a whole animation buffer and switch the strip over to it.
///
/// `0x47` addresses one 10-byte step per report; `0x41` and `0x42` stream the
/// same memory instead. The device keeps a write cursor: `0x41` rewinds it and
/// each `0x42` appends its payload, which takes fewer reports. A block that
/// would run past the end of the buffer is dropped without an acknowledgement,
/// which surfaces as a missing reply.
///
/// `0x43` then copies the buffer to flash behind a `2BGR` magic and selects it,
/// so the animation survives a power cut.
pub fn light_upload(buf: &[u8]) -> (reports: Vec<[u8; REPORT_LEN]>)
    ensures
        bytes_of(reports@) == upload_reports(buf@),
{
    let mut reports: Vec<[u8; REPORT_LEN]> = Vec::new();
    reports.push(light_on());
    reports.push(build_report(CMD_LIGHT_UPLOAD_BEGIN, &[]));
    let mut at: usize = 0;
    let ghost head = seq![
        power_report(true),
        protocol::report_of(CMD_LIGHT_UPLOAD_BEGIN, Seq::empty()),
    ];
    proof {
        assert(buf@.skip(0) =~= buf@);
        assert(bytes_of(reports@) + block_reports(buf@) =~= head + block_reports(buf@));
    }
    while at < buf.len()
        invariant
            at <= buf@.len(),
            bytes_of(reports@) + block_reports(buf@.skip(at as int)) == head + block_reports(buf@),
        decreases buf@.len() - at,
    {
        let size: usize = if buf.len() - at < MAX_PAYLOAD {
            buf.len() - at
        } else {
            MAX_PAYLOAD
        };
        let chunk = slice_subrange(buf, at, at + size);
        let ghost rest = buf@.skip(at as int);
        let ghost before = bytes_of(reports@);
        proof {
            assert(chunk@ =~= rest.take(block_len(rest)));
            assert(rest.skip(block_len(rest)) =~= buf@.skip(at + size));
        }
        let report = build_report(CMD_LIGHT_UPLOAD_BLOCK, chunk);
        reports.push(report);
        proof {
            assert(bytes_of(reports@) =~= before.push(report@));
            assert(before.push(report@) + block_reports(buf@.skip(at + size)) =~= before
                + block_reports(rest));
        }
        at += size;
    }
    let payload: [u8; 1] = [0x01];
    let ghost before = bytes_of(reports@);
    let apply = build_report(CMD_LIGHT_APPLY, &payload);
    reports.push(apply);
    proof {
        assert(payload@ =~= seq![1u8]);
        assert(block_reports(buf@.skip(at as int)) =~= Seq::<Seq<u8>>::empty());
        assert(before =~= head + block_reports(buf@));
        assert(bytes_of(reports@) =~= before.push(apply@));
        assert(bytes_of(reports@) =~= upload_reports(buf@));
    }
    reports
}

/// Upload a built-in effect's palette and play it.
///
/// Brightness lives in the same header byte the firmware's own presets use, so
/// dimming an animation does not mean giving it up for a static colour.
pub fn light_effect(effect: u8, brightness: u8) -> (reports: Vec<[u8; REPORT_LEN]>)
    ensures
        bytes_of(reports@) == upload_reports(preset(effect, brightness)),
{
    light_upload(&preset_buffer(effect, brightness))
}

/// Paint the strip a single colour.
///
/// A static colour is an animation whose lit steps all carry the same colour.
/// Nothing shows until the final apply switches the strip over to the buffer.
pub fn light_static(color: Rgb, brightness: u8) -> (reports: Vec<[u8; REPORT_LEN]>)
    ensures
        bytes_of(reports@) == upload_reports(solid(color, brightness)),
{
    light_upload(&solid_buffer(color, brightness))
}

// ---------------------------------------------------------------------------
// Lighting as a whole

impl Lighting {
    /// What it takes to make the strip show this, whatever it shows now.
    pub open spec fn strip_reports(self) -> Seq<Seq<u8>> {
        match self.mode {
            LightMode::Off => seq![power_report(false)],
            LightMode::Static { color } => upload_reports(solid(color, self.brightness)),
            LightMode::Effect { effect } => upload_reports(preset(effect, self.brightness)),
        }
    }

    /// Does the strip look different from before?
    pub open spec fn strip_differs(self, previous: Option<Lighting>) -> bool {
        match previous {
            None => true,
            Some(previous) => previous.mode != self.mode || previous.brightness != self.brightness,
        }
    }

    /// Are the indicators different from before?
    pub open spec fn indicators_differ(self, previous: Option<Lighting>) -> bool {
        match previous {
            None => true,
            Some(previous) => previous.indicators != self.indicators,
        }
    }

    /// The reports that lead here from `previous`: the strip's if it differs,
    /// then the indicators' if they do.
    pub open spec fn difference(self, previous: Option<Lighting>) -> Seq<Seq<u8>> {
        (if self.strip_differs(previous) {
            self.strip_reports()
        } else {
            Seq::empty()
        }) + (if self.indicators_differ(previous) {
            seq![indicator_report(self.indicators)]
        } else {
            Seq::empty()
        })
    }

    pub open spec fn label(self) -> Seq<char> {
        match self.mode {
            LightMode::Off => "off"@,
            LightMode::Static { color } => "#"@ + text::hex2(color.r) + text::hex2(color.g)
                + text::hex2(color.b) + " at "@ + text::dec(self.brightness as nat) + "%"@,
            LightMode::Effect { effect } => "effect "@ + text::dec(effect as nat) + " at "@
                + text::dec(self.brightness as nat) + "%"@,
        }
    }

    /// Reports that take the cooler from `previous` to this.
    ///
    /// Only the difference is sent: re-uploading an animation to toggle the
    /// indicator LEDs would restart it for no reason.
    pub fn reports(&self, previous: Option<&Self>) -> (reports: Vec<[u8; REPORT_LEN]>)
        ensures
            bytes_of(reports@) == self.difference(
                match previous {
                    Some(previous) => Some(*previous),
                    None => None,
                },
            ),
    {
        let (strip_changed, indicators_changed) = match previous {
            None => (true, true),
            Some(previous) => (
                previous.mode != self.mode || previous.brightness != self.brightness,
                previous.indicators != self.indicators,
            ),
        };
        let mut reports: Vec<[u8; REPORT_LEN]> = if strip_changed {
            match self.mode {
                LightMode::Off => {
                    let mut reports: Vec<[u8; REPORT_LEN]> = Vec::new();
                    reports.push(light_off());
                    proof {
                        assert(bytes_of(reports@) =~= seq![power_report(false)]);
                    }
                    reports
                },
                LightMode::Static { color } => light_static(color, self.brightness),
                LightMode::Effect { effect } => light_effect(effect, self.brightness),
            }
        } else {
            Vec::new()
        };
        let ghost strip = bytes_of(reports@);
        if indicators_changed {
            let report = gear_light(self.indicators);
            reports.push(report);
            proof {
                assert(bytes_of(reports@) =~= strip.push(report@));
            }
        }
        proof {
            let ghost from = match previous {
                Some(previous) => Some(*previous),
                None => None,
            };
            assert(bytes_of(reports@) =~= self.difference(from));
        }
        reports
    }

    pub fn to_string(&self) -> (text: String)
        ensures
            text@ == self.label(),
    {
        let mut text = String::new();
        match self.mode {
            LightMode::Off => {
                text.append("off");
                proof {
                    assert(text@ =~= "off"@);
                }
            },
            LightMode::Static { color } => {
                text.append("#");
                text::push_hex2(&mut text, color.r);
                text::push_hex2(&mut text, color.g);
                text::push_hex2(&mut text, color.b);
                text.append(" at ");
                text::push_dec(&mut text, self.brightness as u64);
                text.append("%");
                proof {
                    assert(text@ =~= self.label());
                }
            },
            LightMode::Effect { effect } => {
                text.append("effect ");
                text::push_dec(&mut text, effect as u64);
                text.append(" at ");
                text::push_dec(&mut text, self.brightness as u64);
                text.append("%");
                proof {
                    assert(text@ =~= self.label());
                }
            },
        }
        text
    }
}

/// A cooler that already shows what is wanted is sent nothing.
pub proof fn law_no_change_sends_nothing(lighting: Lighting)
    ensures
        lighting.difference(Some(lighting)) == Seq::<Seq<u8>>::empty(),
{
}

/// Toggling the indicators never touches the strip.
pub proof fn law_indicators_alone(lighting: Lighting, previous: Lighting)
    requires
        previous.mode == lighting.mode,
        previous.brightness == lighting.brightness,
        previous.indicators != lighting.indicators,
    ensures
        lighting.difference(Some(previous)) == seq![indicator_report(lighting.indicators)],
{
    assert(Seq::<Seq<u8>>::empty() + seq![indicator_report(lighting.indicators)] =~= seq![
        indicator_report(lighting.indicators),
    ]);
}

/// Whatever lighting is asked for, and from wherever, every report is one the
/// firmware takes.
pub proof fn law_lighting_is_acceptable(lighting: Lighting, previous: Option<Lighting>)
    ensures
        forall|i: int|
            0 <= i < lighting.difference(previous).len() ==> #[trigger] protocol::acceptable(
                lighting.difference(previous)[i],
            ),
{
    protocol::law_reports_are_acceptable(CMD_LIGHT_POWER, seq![0u8]);
    protocol::law_reports_are_acceptable(
        CMD_GEAR_LIGHT,
        seq![if lighting.indicators { 1u8 } else { 0u8 }],
    );
    match lighting.mode {
        LightMode::Off => {},
        LightMode::Static { color } => {
            law_uploads_are_acceptable(solid(color, lighting.brightness));
        },
        LightMode::Effect { effect } => {
            law_uploads_are_acceptable(preset(effect, lighting.brightness));
        },
    }
    let all = lighting.difference(previous);
    let strip = lighting.strip_reports();
    assert forall|i: int| 0 <= i < all.len() implies #[trigger] protocol::acceptable(all[i]) by {
        if lighting.strip_differs(previous) && i < strip.len() {
            assert(all[i] == strip[i]);
        }
    }
}

// ---------------------------------------------------------------------------
// What reaches the lights

/// Whenever the mode or the brightness differs from what the cooler shows, be it
/// in nothing but the colour of a static mode, all it takes to show the wanted
/// lighting is sent, and sent first. What is left is the indicators, exactly
/// when they differ.
pub proof fn law_every_change_of_the_strip_is_sent(wanted: Lighting, previous: Lighting)
    ensures
        ({
            let sent = wanted.difference(Some(previous));
            let strip = wanted.strip_reports();
            let n = strip.len() as int;
            let changed = previous.mode != wanted.mode || previous.brightness != wanted.brightness;
            &&& n > 0
            &&& changed ==> sent.len() >= n && sent.take(n) == strip
            &&& changed ==> sent.len() - n == (if previous.indicators != wanted.indicators {
                1int
            } else {
                0
            })
            &&& !changed ==> sent.len() == (if previous.indicators != wanted.indicators {
                1int
            } else {
                0
            })
            &&& previous.indicators != wanted.indicators ==> sent.last() == indicator_report(
                wanted.indicators,
            )
        }),
{
    let sent = wanted.difference(Some(previous));
    let strip = wanted.strip_reports();
    if previous.mode != wanted.mode || previous.brightness != wanted.brightness {
        assert(sent.take(strip.len() as int) =~= strip);
    }
}

/// Two static colours that differ in any channel are two different modes, so
/// asking for the one where the other shows sends the whole upload.
pub proof fn law_another_colour_is_uploaded(
    color: Rgb,
    shown: Rgb,
    brightness: u8,
    indicators: bool,
)
    requires
        color.r != shown.r || color.g != shown.g || color.b != shown.b,
    ensures
        ({
            let wanted = Lighting { mode: LightMode::Static { color }, brightness, indicators };
            let previous = Lighting {
                mode: LightMode::Static { color: shown },
                brightness,
                indicators,
            };
            wanted.difference(Some(previous)) == upload_reports(solid(color, brightness))
        }),
{
    let wanted = Lighting { mode: LightMode::Static { color }, brightness, indicators };
    let upload = upload_reports(solid(color, brightness));
    assert(upload + Seq::<Seq<u8>>::empty() =~= upload);
}

/// The same goes for effects.
pub proof fn law_another_effect_is_uploaded(
    effect: u8,
    shown: u8,
    brightness: u8,
    indicators: bool,
)
    requires
        effect != shown,
    ensures
        ({
            let wanted = Lighting { mode: LightMode::Effect { effect }, brightness, indicators };
            let previous = Lighting {
                mode: LightMode::Effect { effect: shown },
                brightness,
                indicators,
            };
            wanted.difference(Some(previous)) == upload_reports(preset(effect, brightness))
        }),
{
    let upload = upload_reports(preset(effect, brightness));
    assert(upload + Seq::<Seq<u8>>::empty() =~= upload);
}

/// A cooler of which nothing is known is sent the strip and the indicators both.
pub proof fn law_an_unknown_cooler_is_sent_everything(wanted: Lighting)
    ensures
        wanted.difference(None) == wanted.strip_reports() + seq![
            indicator_report(wanted.indicators),
        ],
{
}

/// Putting the strip out is one report and no upload; showing anything on it is
/// the upload of a buffer.
pub proof fn law_modes_and_what_they_send(wanted: Lighting)
    ensures
        wanted.mode == LightMode::Off ==> wanted.strip_reports() == seq![power_report(false)],
        wanted.mode matches LightMode::Static { color } ==> wanted.strip_reports()
            == upload_reports(solid(color, wanted.brightness)),
        wanted.mode matches LightMode::Effect { effect } ==> wanted.strip_reports()
            == upload_reports(preset(effect, wanted.brightness)),
{
}

/// Power and indicators are one byte each, set for on and clear for off, under
/// a command of their own.
pub proof fn law_switches_are_one_byte(on: bool)
    ensures
        ({
            let power = power_report(on);
            let indicators = indicator_report(on);
            let bit: u8 = if on {
                1
            } else {
                0
            };
            &&& power.len() == 25 && power[3] == 0x46 && power[4] == 3 && power[5] == bit
            &&& indicators.len() == 25 && indicators[3] == 0x48 && indicators[4] == 3
                && indicators[5] == bit
        }),
{
}

/// An upload switches the strip on, rewinds, sends the buffer in blocks of
/// fifteen bytes with what is left in the last, and applies it.
pub proof fn law_an_upload_step_by_step(buf: Seq<u8>)
    ensures
        ({
            let sent = upload_reports(buf);
            let blocks = (buf.len() + 14) / 15;
            &&& sent.len() == blocks + 3
            &&& sent[0][3] == 0x46 && sent[0][5] == 1
            &&& sent[1][3] == 0x41 && sent[1][4] == 2
            &&& sent.last()[3] == 0x43 && sent.last()[4] == 3 && sent.last()[5] == 1
            &&& forall|i: int|
                0 <= i < blocks ==> (#[trigger] sent[i + 2])[3] == 0x42 && payload_of(sent[i + 2])
                    == buf.subrange(
                    15 * i,
                    if 15 * i + 15 <= buf.len() {
                        15 * i + 15
                    } else {
                        buf.len() as int
                    },
                )
        }),
{
    let sent = upload_reports(buf);
    let blocks = block_reports(buf);
    lemma_blocks(buf);
    assert forall|i: int| 0 <= i < blocks.len() implies (#[trigger] sent[i + 2]) == blocks[i] by {}
}

proof fn lemma_blocks(buf: Seq<u8>)
    ensures
        block_reports(buf).len() == (buf.len() + 14) / 15,
        forall|i: int|
            0 <= i < block_reports(buf).len() ==> (#[trigger] block_reports(buf)[i])[3] == 0x42
                && payload_of(block_reports(buf)[i]) == buf.subrange(
                15 * i,
                if 15 * i + 15 <= buf.len() {
                    15 * i + 15
                } else {
                    buf.len() as int
                },
            ),
    decreases buf.len(),
{
    if buf.len() > 0 {
        let n = block_len(buf);
        let rest = buf.skip(n);
        lemma_blocks(rest);
        let all = block_reports(buf);
        let others = block_reports(rest);
        assert(all.len() == others.len() + 1);
        assert forall|i: int| 0 <= i < all.len() implies (#[trigger] all[i])[3] == 0x42
            && payload_of(all[i]) == buf.subrange(
            15 * i,
            if 15 * i + 15 <= buf.len() {
                15 * i + 15
            } else {
                buf.len() as int
            },
        ) by {
            if i == 0 {
                assert(payload_of(all[0]) =~= buf.take(n));
                assert(buf.take(n) =~= buf.subrange(
                    0,
                    if 15 <= buf.len() {
                        15
                    } else {
                        buf.len() as int
                    },
                ));
            } else {
                assert(all[i] == others[i - 1]);
                let to = if 15 * i + 15 <= buf.len() {
                    15 * i + 15
                } else {
                    buf.len() as int
                };
                assert(rest.subrange(15 * (i - 1), to - 15) =~= buf.subrange(15 * i, to));
            }
        }
    }
}

/// A buffer that holds a colour, place by place: the header names the colour as
/// it was asked for and the brightness, and the five lit steps, thirty bytes
/// apart, all carry it dimmed. There is no light anywhere else.
pub proof fn law_a_static_colour_fills_the_lit_steps(color: Rgb, brightness: u8, k: int, i: int)
    requires
        1 <= k <= 5,
        0 <= i < FULL_BUFFER_LEN,
    ensures
        ({
            let buf = solid(color, brightness);
            let at = 30 * k + 6;
            let dim = color.dimmed(brightness);
            &&& buf.len() == 186
            &&& buf[1] == 0x02 && buf[4] == 0x0A
            &&& buf[5] == (if brightness < 100 {
                brightness
            } else {
                100
            })
            &&& buf[6] == color.r && buf[7] == color.g && buf[8] == color.b
            &&& buf[at] == dim.r && buf[at + 1] == dim.g && buf[at + 2] == dim.b
            &&& !(6 <= i % 30 < 9) && i != 1 && i != 4 && i != 5 ==> buf[i] == 0
            &&& i >= 180 ==> buf[i] == 0
        }),
{
    let at = 30 * k + 6;
    assert(at / 10 == 3 * k && at % 10 == 6);
    assert((at + 1) / 10 == 3 * k && (at + 1) % 10 == 7);
    assert((at + 2) / 10 == 3 * k && (at + 2) % 10 == 8);
    if i >= 10 && lit_step(i / 10 - 1) && 6 <= i % 10 < 9 {
        assert(i / 10 == 3 || i / 10 == 6 || i / 10 == 9 || i / 10 == 12 || i / 10 == 15);
        assert(i == 10 * (i / 10) + i % 10);
        assert(6 <= i % 30 < 9);
    }
}

/// What is uploaded tells any two colours apart, however dim.
pub proof fn law_uploads_tell_colours_apart(a: Rgb, b: Rgb, brightness: u8)
    requires
        solid(a, brightness) == solid(b, brightness),
    ensures
        a == b,
{
    law_a_static_colour_fills_the_lit_steps(a, brightness, 1, 0);
    law_a_static_colour_fills_the_lit_steps(b, brightness, 1, 0);
}

/// A dimmed channel is the share of it rounded down, or one less where the
/// share is a whole number to begin with.
pub proof fn law_dimming_is_a_share(channel: u8, brightness: u8)
    ensures
        ({
            let p = if brightness < 100 {
                brightness as int
            } else {
                100
            };
            let r = scaled_channel(channel, brightness) as int;
            100 * r <= channel * p && (channel * p < 100 * (r + 1) || channel * p == 100 * (r + 1))
        }),
{
    let p = percent(brightness);
    assert(0 <= channel * p <= channel * 100) by (nonlinear_arith)
        requires
            p <= 100,
    ;
    if falls_short(channel, p) {
        assert(channel * p >= 100) by (nonlinear_arith)
            requires
                channel >= 75,
                p >= 42,
        ;
    }
}

/// Dimming a colour dims each channel by itself: channels that are equal stay
/// equal, and none takes anything from another.
pub proof fn law_channels_are_dimmed_alike(color: Rgb, other: Rgb, brightness: u8)
    ensures
        color.r == other.r ==> color.dimmed(brightness).r == other.dimmed(brightness).r,
        color.g == other.r ==> color.dimmed(brightness).g == other.dimmed(brightness).r,
        color.b == other.r ==> color.dimmed(brightness).b == other.dimmed(brightness).r,
        color.dimmed(100) == color,
        color.dimmed(0) == black(),
{
    law_dimming(color.r, 100);
    law_dimming(color.g, 100);
    law_dimming(color.b, 100);
    law_dimming(color.r, 0);
    law_dimming(color.g, 0);
    law_dimming(color.b, 0);
}

/// Six hexadecimal digits are a colour, two for each channel, red first, with or
/// without a hash: what a colour is written as reads back as that colour.
pub proof fn law_colours_read_back(color: Rgb, rest: Seq<char>)
    ensures
        ({
            let digits = text::hex2(color.r) + text::hex2(color.g) + text::hex2(color.b);
            &&& exact_color(digits) == Some(color)
            &&& exact_color(seq!['#'] + digits) == Some(color)
            &&& hex_color(digits + rest) == Some(color)
            &&& rest.len() > 0 ==> exact_color(digits + rest) is None
        }),
{
    let digits = text::hex2(color.r) + text::hex2(color.g) + text::hex2(color.b);
    text::law_bytes_read_back(color.r);
    text::law_bytes_read_back(color.g);
    text::law_bytes_read_back(color.b);
    assert(digits[0] == text::hex_digit((color.r / 16) as nat));
    assert(digits[0] != '#');
    assert(digits.subrange(0, 2) =~= text::hex2(color.r));
    assert(digits.subrange(2, 4) =~= text::hex2(color.g));
    assert(digits.subrange(4, 6) =~= text::hex2(color.b));
    assert((seq!['#'] + digits).drop_first() =~= digits);
    let long = digits + rest;
    assert(long.subrange(0, 2) =~= text::hex2(color.r));
    assert(long.subrange(2, 4) =~= text::hex2(color.g));
    assert(long.subrange(4, 6) =~= text::hex2(color.b));
    assert(long[0] == digits[0]);
}

/// What a colour is called starts with the colour and ends with how bright it is.
pub proof fn law_a_colour_is_called_what_it_is(lighting: Lighting, color: Rgb)
    requires
        lighting.mode == (LightMode::Static { color }),
    ensures
        lighting.label().len() >= 7,
        exact_color(lighting.label().take(7)) == Some(color),
        text::ends(
            lighting.label(),
            " at "@ + text::dec(lighting.brightness as nat) + "%"@,
        ),
{
    let r = text::hex2(color.r);
    let g = text::hex2(color.g);
    let b = text::hex2(color.b);
    let at = " at "@;
    let n = text::dec(lighting.brightness as nat);
    let percent = "%"@;
    reveal_strlit("#");
    assert("#"@ =~= seq!['#']);
    law_colours_read_back(color, Seq::empty());
    lemma_joined(seq!['#'], r, g, b, at, n, percent);
    let front = seq!['#'] + (r + g + b);
    assert(lighting.label() == front + (at + n + percent));
    assert(front.len() == 7);
    assert((front + (at + n + percent)).take(7) =~= front);
    text::law_joined_texts_begin_and_end(front, at + n + percent, at);
}

proof fn lemma_joined(
    hash: Seq<char>,
    r: Seq<char>,
    g: Seq<char>,
    b: Seq<char>,
    at: Seq<char>,
    n: Seq<char>,
    percent: Seq<char>,
)
    ensures
        hash + r + g + b + at + n + percent == hash + (r + g + b) + (at + n + percent),
{
    assert(hash + r + g + b + at + n + percent =~= hash + (r + g + b) + (at + n + percent));
}

/// What an effect is called starts with its number and ends with how bright it
/// is; a strip that is off is called that.
pub proof fn law_an_effect_is_called_what_it_is(lighting: Lighting, effect: u8)
    ensures
        lighting.mode == LightMode::Off ==> lighting.label() == "off"@,
        lighting.mode == (LightMode::Effect { effect }) ==> text::begins(
            lighting.label(),
            "effect "@ + text::dec(effect as nat),
        ) && text::ends(
            lighting.label(),
            " at "@ + text::dec(lighting.brightness as nat) + "%"@,
        ),
{
    if lighting.mode == (LightMode::Effect { effect }) {
        let front = "effect "@ + text::dec(effect as nat);
        let end = " at "@ + text::dec(lighting.brightness as nat) + "%"@;
        assert(lighting.label() =~= front + end);
        text::law_joined_texts_begin_and_end(front, end, end);
    }
}

/// Where a preset keeps a colour.
pub open spec fn preset_at(effect: u8, brightness: u8, block: int, slot: int) -> Rgb {
    let at = 30 * block + 6 + 3 * slot;
    let buf = preset(effect, brightness);
    Rgb { r: buf[at], g: buf[at + 1], b: buf[at + 2] }
}

/// The header of a preset says how it plays and how bright, the second half
/// repeats the first, and what is not one of the four colours of a run is dark.
pub proof fn law_presets_are_laid_out(effect: u8, brightness: u8, block: int, slot: int, i: int)
    requires
        0 <= block < 3,
        0 <= slot < 4,
        0 <= i < BUFFER_LEN,
    ensures
        ({
            let buf = preset(effect, brightness);
            &&& buf.len() == 180
            &&& buf[0] == 0 && buf[1] == 0x02 && buf[2] == 0
            &&& buf[5] == (if brightness < 100 {
                brightness
            } else {
                100
            })
            &&& (1 <= effect <= 3) ==> buf[3] == 0x03 && buf[4] == 0x0E - 4 * effect
            &&& effect == 4 ==> buf[3] == 0x01 && buf[4] == 0x02
            &&& (effect == 0 || effect > 4) ==> buf[3] == 0x02 && buf[4] == 0x0A
            &&& i >= 6 && !(6 <= i % 30 < 18) ==> buf[i] == 0
            &&& preset_at(effect, brightness, block + 3, slot) == preset_at(
                effect,
                brightness,
                block,
                slot,
            )
        }),
{
    lemma_preset_at(effect, brightness, block, slot);
    lemma_preset_at(effect, brightness, block + 3, slot);
}

proof fn lemma_preset_at(effect: u8, brightness: u8, block: int, slot: int)
    requires
        0 <= block < 6,
        0 <= slot < 4,
    ensures
        preset_at(effect, brightness, block, slot) == preset_color(effect, block, slot),
{
    let at = 30 * block + 6 + 3 * slot;
    assert(at % 30 == 6 + 3 * slot && at / 30 == block);
    assert((at + 1) % 30 == 7 + 3 * slot && (at + 1) / 30 == block);
    assert((at + 2) % 30 == 8 + 3 * slot && (at + 2) / 30 == block);
}

/// The first three presets are one ramp in green, yellow and red, from the pure
/// hue over a quarter of white to white and back, which moves on by one place
/// from each run to the next.
pub proof fn law_ramps_rotate(effect: u8, brightness: u8, block: int, slot: int)
    requires
        1 <= effect <= 3,
        0 <= block < 3,
        0 <= slot < 4,
    ensures
        ({
            let color = preset_at(effect, brightness, block, slot);
            let pale: u8 = seq![0x00u8, 0x3F, 0xFF, 0x3F][(block + slot) % 4];
            &&& color.r == (if effect == 1 {
                pale
            } else {
                0xFF
            })
            &&& color.g == (if effect == 3 {
                pale
            } else {
                0xFF
            })
            &&& color.b == pale
        }),
{
    lemma_preset_at(effect, brightness, block, slot);
}

/// The fourth preset is red in the first two places of each run, the others
/// are white, violet and blue in three of them, each run in an order of its
/// own; the places left are dark.
pub proof fn law_the_other_presets(effect: u8, brightness: u8, block: int)
    requires
        0 <= block < 3,
        effect == 0 || effect > 3,
    ensures
        ({
            let red = Rgb { r: 0xFF, g: 0, b: 0 };
            let white = Rgb { r: 0xFF, g: 0xFF, b: 0xFF };
            let violet = Rgb { r: 0x1E, g: 0x1E, b: 0xA0 };
            let blue = Rgb { r: 0, g: 0, b: 0x50 };
            let dark = Rgb { r: 0, g: 0, b: 0 };
            let run = Seq::new(4, |slot: int| preset_at(effect, brightness, block, slot));
            run == (if effect == 4 {
                seq![red, red, dark, dark]
            } else if block == 0 {
                seq![white, violet, blue, dark]
            } else if block == 1 {
                seq![blue, white, violet, dark]
            } else {
                seq![blue, violet, white, dark]
            })
        }),
{
    lemma_preset_at(effect, brightness, block, 0);
    lemma_preset_at(effect, brightness, block, 1);
    lemma_preset_at(effect, brightness, block, 2);
    lemma_preset_at(effect, brightness, block, 3);
    let run = Seq::new(4, |slot: int| preset_at(effect, brightness, block, slot));
    let white = Rgb { r: 0xFF, g: 0xFF, b: 0xFF };
    let violet = Rgb { r: 0x1E, g: 0x1E, b: 0xA0 };
    let blue = Rgb { r: 0, g: 0, b: 0x50 };
    let red = Rgb { r: 0xFF, g: 0, b: 0 };
    if effect == 4 {
        assert(run =~= seq![red, red, black(), black()]);
    } else if block == 0 {
        assert(run =~= seq![white, violet, blue, black()]);
    } else if block == 1 {
        assert(run =~= seq![blue, white, violet, black()]);
    } else {
        assert(run =~= seq![blue, violet, white, black()]);
    }
}

} // verus!
