//! Wire format of the Flydigi BS series HID protocol.
//!
//! Frames are `5A A5 <cmd> <len> <payload...> <checksum>`, wrapped in a HID
//! report padded to 25 bytes. Reports the device sends use report ID `0x01`,
//! reports we send use `0x02`.

use crate::text;
use vstd::prelude::*;
use vstd::slice::slice_subrange;

pub use crate::lighting::{
    gear_light, light_effect, light_off, light_on, light_static, LightMode, Lighting, Rgb,
    EFFECT_COUNT,
};

verus! {

pub const VID: u16 = 0x37D7;

pub const REPORT_ID_IN: u8 = 0x01;

pub const REPORT_ID_OUT: u8 = 0x02;

/// Every report is 25 bytes, lighting included. A BS3 Pro ignores the 65-byte
/// reports other software pads lighting to, without so much as an error.
pub const REPORT_LEN: usize = 25;

/// The two bytes every frame starts with.
pub const MAGIC_FIRST: u8 = 0x5A;

pub const MAGIC_SECOND: u8 = 0xA5;

pub const CMD_SET_REALTIME_RPM: u8 = 0x21;

pub const CMD_ENTER_REALTIME: u8 = 0x23;

pub const CMD_EXIT_REALTIME: u8 = 0x24;

pub const CMD_STATUS_NOTIFY: u8 = 0xEF;

pub const CMD_SET_STANDBY: u8 = 0x0D;

pub const CMD_QUERY_SUPPLY: u8 = 0x07;

pub const CMD_SET_GEAR_RPM: u8 = 0x26;

pub const CMD_QUERY_GEAR_TABLE: u8 = 0x27;

pub const CMD_LIGHT_UPLOAD_BEGIN: u8 = 0x41;

pub const CMD_LIGHT_UPLOAD_BLOCK: u8 = 0x42;

pub const CMD_LIGHT_APPLY: u8 = 0x43;

pub const CMD_QUERY_STRIP: u8 = 0x45;

pub const CMD_LIGHT_POWER: u8 = 0x46;

pub const CMD_LIGHT_FRAME: u8 = 0x47;

pub const CMD_GEAR_LIGHT: u8 = 0x48;

/// A frame longer than 20 bytes never reaches the firmware.
///
/// Measured the same way on `0x42`, `0x47` and `0x27`: a payload of 15 bytes is
/// answered and 16 is met with silence, so the limit is the frame rather than
/// any one command. Twenty bytes is what fits in a Bluetooth LE write at the
/// default ATT MTU.
pub const MAX_PAYLOAD: usize = 15;

/// The most payload a padded report has room for, between the five bytes in
/// front of it and the checksum behind it.
pub const PAYLOAD_ROOM: usize = 19;

/// Firmware clamps neither end, so the app has to.
///
/// 4000 RPM is the rated ceiling of a BS3 Pro (and a BS2 Pro). Reaching it also
/// needs a 9V/3A PD adapter in the side USB-C port - powered from a laptop USB
/// port the cooler stays at its level 2 gear, 2700 RPM.
///
/// The low end was measured: 500 RPM holds steady, while 100-400 make the fan
/// stall and the tachometer flip between 0 and 400. A target of exactly 0 is
/// honoured and stops the fan.
pub const MIN_RPM: u16 = 500;

pub const MAX_RPM: u16 = 4000;

/// Stopping the fan is the one target below [`MIN_RPM`] the device handles
/// cleanly.
pub const STOP_RPM: u16 = 0;

// ---------------------------------------------------------------------------
// Bytes

/// The sum of a run of bytes.
pub open spec fn total(bytes: Seq<u8>) -> nat
    decreases bytes.len(),
{
    if bytes.len() == 0 {
        0
    } else {
        total(bytes.drop_last()) + bytes.last() as nat
    }
}

/// What the checksum of a frame has to be: command, length byte and payload,
/// all added up and cut to a byte.
pub open spec fn checksum_of(cmd: u8, payload: Seq<u8>) -> u8 {
    ((cmd + 2 + payload.len() + total(payload)) % 256) as u8
}

/// A 16-bit value as its two bytes, low one first.
pub open spec fn le(value: u16) -> Seq<u8> {
    seq![(value % 256) as u8, (value / 256) as u8]
}

/// The 16-bit value two bytes stand for, low one first.
pub open spec fn from_le(low: u8, high: u8) -> u16 {
    (low + 256 * high) as u16
}

/// Splitting a value into bytes loses nothing.
pub proof fn law_words_read_back(value: u16)
    ensures
        from_le(le(value)[0], le(value)[1]) == value,
{
}

fn low_byte(value: u16) -> (b: u8)
    ensures
        b == le(value)[0],
{
    (value % 256) as u8
}

fn high_byte(value: u16) -> (b: u8)
    ensures
        b == le(value)[1],
{
    (value / 256) as u8
}

fn word(low: u8, high: u8) -> (value: u16)
    ensures
        value == from_le(low, high),
{
    low as u16 + 256 * (high as u16)
}

pub fn checksum(cmd: u8, payload: &[u8]) -> (sum: u8)
    ensures
        sum == checksum_of(cmd, payload@),
{
    let mut sum: u8 = cmd.wrapping_add(2).wrapping_add((payload.len() % 256) as u8);
    let mut i: usize = 0;
    proof {
        assert(payload@.take(0) =~= Seq::<u8>::empty());
    }
    while i < payload.len()
        invariant
            i <= payload@.len(),
            sum == (cmd + 2 + payload@.len() + total(payload@.take(i as int))) % 256,
        decreases payload@.len() - i,
    {
        proof {
            let next = payload@.take(i + 1);
            assert(next.drop_last() =~= payload@.take(i as int));
            assert(next.last() == payload@[i as int]);
        }
        sum = sum.wrapping_add(payload[i]);
        i += 1;
    }
    proof {
        assert(payload@.take(i as int) =~= payload@);
    }
    sum
}

/// The bytes of a report to the device: report id, magic, command, length,
/// payload, checksum, and zeros up to the full length.
pub open spec fn report_of(cmd: u8, payload: Seq<u8>) -> Seq<u8> {
    seq![REPORT_ID_OUT, MAGIC_FIRST, MAGIC_SECOND, cmd, (2 + payload.len()) as u8] + payload
        + seq![checksum_of(cmd, payload)] + Seq::new(
        (REPORT_LEN - 6 - payload.len()) as nat,
        |i: int| 0u8,
    )
}

/// Build a padded output report ready to be written to hidraw.
pub fn build_report(cmd: u8, payload: &[u8]) -> (report: [u8; REPORT_LEN])
    requires
        payload@.len() <= PAYLOAD_ROOM,
    ensures
        report@ == report_of(cmd, payload@),
{
    let mut report: [u8; REPORT_LEN] = [0u8; REPORT_LEN];
    report[0] = REPORT_ID_OUT;
    report[1] = MAGIC_FIRST;
    report[2] = MAGIC_SECOND;
    report[3] = cmd;
    report[4] = (2 + payload.len()) as u8;
    let mut i: usize = 0;
    while i < payload.len()
        invariant
            i <= payload@.len() <= PAYLOAD_ROOM,
            report@.len() == 25,
            report@[0] == REPORT_ID_OUT,
            report@[1] == MAGIC_FIRST,
            report@[2] == MAGIC_SECOND,
            report@[3] == cmd,
            report@[4] == 2 + payload@.len(),
            forall|k: int| 5 <= k < 5 + i ==> report@[k] == payload@[k - 5],
            forall|k: int| 5 + i <= k < 25 ==> report@[k] == 0,
        decreases payload@.len() - i,
    {
        report[5 + i] = payload[i];
        i += 1;
    }
    report[5 + i] = checksum(cmd, payload);
    proof {
        assert(report@ =~= report_of(cmd, payload@));
    }
    report
}

/// What has to hold of a report for the firmware to take it, and of anything
/// this crate may ever send.
///
/// The HID path rejects a frame whose length byte is above `0x11` without a
/// word of complaint, and the report id and magic gate it even earlier. Three
/// commands are destructive or corrupting: `0xDF` erases the firmware and
/// reboots into the ROM loader, `0x06` is a factory reset, and `0x08` with an
/// out-of-range gear corrupts the stored table.
pub open spec fn acceptable(report: Seq<u8>) -> bool {
    &&& report.len() == REPORT_LEN
    &&& report[0] == REPORT_ID_OUT
    &&& report[1] == MAGIC_FIRST
    &&& report[2] == MAGIC_SECOND
    &&& 2 <= report[4] <= 0x11
    &&& report[4] - 2 <= MAX_PAYLOAD
    &&& report[3 + report[4]] == (report[3] + report[4] + total(
        report.subrange(5, 3 + report[4]),
    )) % 256
    &&& report[3] != 0xDF && report[3] != 0x06 && report[3] != 0x08
}

/// A report with a payload short enough for the firmware and a harmless command
/// is acceptable, checksum included.
pub proof fn law_reports_are_acceptable(cmd: u8, payload: Seq<u8>)
    requires
        payload.len() <= MAX_PAYLOAD,
        cmd != 0xDF,
        cmd != 0x06,
        cmd != 0x08,
    ensures
        acceptable(report_of(cmd, payload)),
{
    let report = report_of(cmd, payload);
    assert(report.subrange(5, 5 + payload.len() as int) =~= payload);
}

// ---------------------------------------------------------------------------
// The device and its settings

#[derive(Debug, Clone, Copy, PartialEq, Eq, Structural)]
pub enum Model {
    Bs1,
    Bs2Pro,
    Bs3,
    Bs3Pro,
}

impl Model {
    /// The model a USB or Bluetooth product id belongs to.
    pub open spec fn of_pid(pid: u16) -> Option<Model> {
        if pid == 0x1001 {
            Some(Model::Bs1)
        } else if pid == 0x1002 {
            Some(Model::Bs2Pro)
        } else if pid == 0x1003 {
            Some(Model::Bs3)
        } else if pid == 0x1004 {
            Some(Model::Bs3Pro)
        } else {
            None
        }
    }

    pub open spec fn label(self) -> Seq<char> {
        match self {
            Model::Bs1 => "BS1"@,
            Model::Bs2Pro => "BS2 Pro"@,
            Model::Bs3 => "BS3"@,
            Model::Bs3Pro => "BS3 Pro"@,
        }
    }

    pub fn from_pid(pid: u16) -> (model: Option<Self>)
        ensures
            model == Model::of_pid(pid),
    {
        match pid {
            0x1001 => Some(Self::Bs1),
            0x1002 => Some(Self::Bs2Pro),
            0x1003 => Some(Self::Bs3),
            0x1004 => Some(Self::Bs3Pro),
            _ => None,
        }
    }

    pub fn name(self) -> (name: &'static str)
        ensures
            name@ == self.label(),
    {
        match self {
            Self::Bs1 => "BS1",
            Self::Bs2Pro => "BS2 Pro",
            Self::Bs3 => "BS3",
            Self::Bs3Pro => "BS3 Pro",
        }
    }
}

/// Fan mode from byte 6 of a status frame.
///
/// The byte is a bitfield, not an enum: bit 0 is the realtime override and bits
/// 2 and 3 carry the standby setting. Measured across every combination:
///
/// | standby | gear   | realtime |
/// |---------|--------|----------|
/// | off     | `0x02` | `0x03`   |
/// | instant | `0x06` | `0x07`   |
/// | delayed | `0x0a` | `0x0b`   |
///
/// The `0x04`/`0x05` pair documented for a BS2 Pro is the same thing with
/// instant standby enabled, so there is nothing model-specific here.
#[derive(Debug, Clone, Copy, PartialEq, Eq, Structural)]
pub enum Mode {
    Gear,
    Realtime,
}

pub const MODE_REALTIME: u8 = 0x01;

pub const MODE_STANDBY_INSTANT: u8 = 0x04;

pub const MODE_STANDBY_DELAYED: u8 = 0x08;

impl Mode {
    /// Bit 0 decides.
    pub open spec fn of_byte(b: u8) -> Mode {
        if b % 2 == 1 {
            Mode::Realtime
        } else {
            Mode::Gear
        }
    }

    pub open spec fn label(self) -> Seq<char> {
        match self {
            Mode::Gear => "gear"@,
            Mode::Realtime => "realtime"@,
        }
    }

    pub fn from_byte(b: u8) -> (mode: Self)
        ensures
            mode == Mode::of_byte(b),
    {
        proof {
            assert((b & 0x01 != 0) == (b % 2 == 1)) by (bit_vector);
        }
        if b & MODE_REALTIME != 0 {
            Self::Realtime
        } else {
            Self::Gear
        }
    }

    pub fn to_string(&self) -> (text: String)
        ensures
            text@ == self.label(),
    {
        match self {
            Self::Gear => "gear".to_owned(),
            Self::Realtime => "realtime".to_owned(),
        }
    }
}

/// Gear, encoded in the two nibbles of byte 5.
///
/// The selected gear and the ceiling use different encodings: `8/A/C/E` for the
/// former, `2/4/6` for the latter.
#[derive(Debug, Clone, Copy, PartialEq, Eq, Structural)]
pub enum Gear {
    Quiet,
    Standard,
    Strong,
    Overclock,
    Unknown(u8),
}

impl Gear {
    /// The four gears in the order the device stores and cycles them.
    pub const ALL: [Gear; 4] = [Gear::Quiet, Gear::Standard, Gear::Strong, Gear::Overclock];

    /// The selected gear.
    pub open spec fn of_selected(nibble: u8) -> Gear {
        if nibble == 0x8 {
            Gear::Quiet
        } else if nibble == 0xA {
            Gear::Standard
        } else if nibble == 0xC {
            Gear::Strong
        } else if nibble == 0xE {
            Gear::Overclock
        } else {
            Gear::Unknown(nibble)
        }
    }

    /// The highest gear the device will use.
    pub open spec fn of_ceiling(nibble: u8) -> Gear {
        if nibble == 0x2 {
            Gear::Standard
        } else if nibble == 0x4 {
            Gear::Strong
        } else if nibble == 0x6 {
            Gear::Overclock
        } else {
            Gear::Unknown(nibble)
        }
    }

    pub open spec fn label(self) -> Seq<char> {
        match self {
            Gear::Quiet => "quiet"@,
            Gear::Standard => "standard"@,
            Gear::Strong => "strong"@,
            Gear::Overclock => "overclock"@,
            Gear::Unknown(n) => "unknown(0x"@ + text::hex(n) + ")"@,
        }
    }

    /// Where the stored speed table keeps this gear, if it does.
    pub open spec fn index(self) -> Option<u8> {
        match self {
            Gear::Quiet => Some(0),
            Gear::Standard => Some(1),
            Gear::Strong => Some(2),
            Gear::Overclock => Some(3),
            Gear::Unknown(_) => None,
        }
    }

    /// The gear a name stands for.
    pub open spec fn named(name: Seq<char>) -> Option<Gear> {
        if name == "quiet"@ {
            Some(Gear::Quiet)
        } else if name == "standard"@ {
            Some(Gear::Standard)
        } else if name == "strong"@ {
            Some(Gear::Strong)
        } else if name == "overclock"@ {
            Some(Gear::Overclock)
        } else {
            None
        }
    }

    pub fn selected(nibble: u8) -> (gear: Self)
        ensures
            gear == Gear::of_selected(nibble),
    {
        match nibble {
            0x8 => Self::Quiet,
            0xA => Self::Standard,
            0xC => Self::Strong,
            0xE => Self::Overclock,
            other => Self::Unknown(other),
        }
    }

    pub fn ceiling(nibble: u8) -> (gear: Self)
        ensures
            gear == Gear::of_ceiling(nibble),
    {
        match nibble {
            0x2 => Self::Standard,
            0x4 => Self::Strong,
            0x6 => Self::Overclock,
            other => Self::Unknown(other),
        }
    }

    /// Index into the stored speed table.
    pub fn slot(self) -> (slot: Option<u8>)
        ensures
            slot == self.index(),
    {
        match self {
            Self::Quiet => Some(0),
            Self::Standard => Some(1),
            Self::Strong => Some(2),
            Self::Overclock => Some(3),
            Self::Unknown(_) => None,
        }
    }

    pub fn to_string(&self) -> (text: String)
        ensures
            text@ == self.label(),
    {
        match self {
            Self::Quiet => "quiet".to_owned(),
            Self::Standard => "standard".to_owned(),
            Self::Strong => "strong".to_owned(),
            Self::Overclock => "overclock".to_owned(),
            Self::Unknown(n) => {
                let mut text = "unknown(0x".to_owned();
                text::push_hex(&mut text, *n);
                text.append(")");
                text
            },
        }
    }
}

impl std::str::FromStr for Gear {
    type Err = ();

    fn from_str(text: &str) -> (gear: Result<Self, ()>)
        ensures
            match gear {
                Ok(gear) => Gear::named(text@) == Some(gear),
                Err(()) => Gear::named(text@) is None,
            },
    {
        if text::same(text, "quiet") {
            Ok(Self::Quiet)
        } else if text::same(text, "standard") {
            Ok(Self::Standard)
        } else if text::same(text, "strong") {
            Ok(Self::Strong)
        } else if text::same(text, "overclock") {
            Ok(Self::Overclock)
        } else {
            Err(())
        }
    }
}

/// A gear the device stores reads back from its own name.
pub proof fn law_gear_names_read_back(gear: Gear)
    requires
        !(gear is Unknown),
    ensures
        Gear::named(gear.label()) == Some(gear),
{
    reveal_strlit("quiet");
    reveal_strlit("standard");
    reveal_strlit("strong");
    reveal_strlit("overclock");
    assert("quiet"@.len() == 5);
    assert("standard"@.len() == 8);
    assert("strong"@.len() == 6);
    assert("overclock"@.len() == 9);
}

/// How much power the cooler is getting, which is what decides how fast it is
/// allowed to spin.
///
/// The firmware keeps this as a level of 1 to 3, updated whenever the supply
/// changes, and enforces it in two places: the control loop clamps every
/// target, realtime ones included, and a gear too high for the level is stored
/// but not applied. Both ceilings come straight from the disassembly.
#[derive(Debug, Clone, Copy, PartialEq, Eq, Structural)]
pub enum Supply {
    /// Bus power, typically a laptop USB port.
    Low,
    /// Enough for everything but the top gear.
    Medium,
    /// A PD adapter in the side port: the full range.
    Full,
    Unknown(u8),
}

impl Supply {
    pub open spec fn of_byte(byte: u8) -> Supply {
        if byte == 1 {
            Supply::Low
        } else if byte == 2 {
            Supply::Medium
        } else if byte == 3 {
            Supply::Full
        } else {
            Supply::Unknown(byte)
        }
    }

    /// The speed the firmware clamps to.
    pub open spec fn limit(self) -> u16 {
        match self {
            Supply::Low => 2700,
            Supply::Medium => 3300,
            _ => MAX_RPM,
        }
    }

    /// The highest gear that runs on this supply.
    pub open spec fn top_gear(self) -> Gear {
        match self {
            Supply::Low => Gear::Standard,
            Supply::Medium => Gear::Strong,
            _ => Gear::Overclock,
        }
    }

    /// Does a gear run on this supply? One the device does not store is not for
    /// the supply to refuse.
    pub open spec fn permits(self, gear: Gear) -> bool {
        match gear.index() {
            Some(wanted) => wanted <= self.top_gear().index()->0,
            None => true,
        }
    }

    pub open spec fn label(self) -> Seq<char> {
        match self {
            Supply::Low => "low"@,
            Supply::Medium => "medium"@,
            Supply::Full => "full"@,
            Supply::Unknown(n) => "unknown("@ + text::dec(n as nat) + ")"@,
        }
    }

    pub fn from_byte(byte: u8) -> (supply: Self)
        ensures
            supply == Supply::of_byte(byte),
    {
        match byte {
            1 => Self::Low,
            2 => Self::Medium,
            3 => Self::Full,
            other => Self::Unknown(other),
        }
    }

    /// The speed the firmware clamps to. An unrecognised level is treated as
    /// unrestricted: the cooler enforces its own limit anyway, and guessing low
    /// would cap a device we simply do not know.
    pub fn max_rpm(self) -> (rpm: u16)
        ensures
            rpm == self.limit(),
    {
        match self {
            Self::Low => 2700,
            Self::Medium => 3300,
            Self::Full | Self::Unknown(_) => MAX_RPM,
        }
    }

    /// The ceiling worth telling anyone about: none while the level is not one
    /// we recognise.
    pub fn known_max_rpm(self) -> (rpm: Option<u16>)
        ensures
            rpm == (if self is Unknown {
                None
            } else {
                Some(self.limit())
            }),
    {
        match self {
            Self::Unknown(_) => None,
            _ => Some(self.max_rpm()),
        }
    }

    /// Has the cooler made up its mind? The firmware measures its supply once
    /// per power-up and answers zero until it has.
    pub fn decided(self) -> (decided: bool)
        ensures
            decided == (self != Supply::Unknown(0)),
    {
        match self {
            Self::Unknown(0) => false,
            _ => true,
        }
    }

    /// The highest gear that can be selected right now.
    pub fn max_gear(self) -> (gear: Gear)
        ensures
            gear == self.top_gear(),
    {
        match self {
            Self::Low => Gear::Standard,
            Self::Medium => Gear::Strong,
            Self::Full | Self::Unknown(_) => Gear::Overclock,
        }
    }

    pub fn allows(self, gear: Gear) -> (allowed: bool)
        ensures
            allowed == self.permits(gear),
    {
        match (gear.slot(), self.max_gear().slot()) {
            (Some(wanted), Some(ceiling)) => wanted <= ceiling,
            _ => true,
        }
    }

    pub fn to_string(&self) -> (text: String)
        ensures
            text@ == self.label(),
    {
        match self {
            Self::Low => "low".to_owned(),
            Self::Medium => "medium".to_owned(),
            Self::Full => "full".to_owned(),
            Self::Unknown(n) => {
                let mut text = "unknown(".to_owned();
                text::push_dec(&mut text, *n as u64);
                text.append(")");
                text
            },
        }
    }
}

/// No supply is ever credited with more than the rated ceiling, and a gear one
/// supply runs also runs on every supply with a higher limit.
pub proof fn law_supply_limits(weak: Supply, strong: Supply, gear: Gear)
    requires
        weak.limit() <= strong.limit(),
        weak.permits(gear),
    ensures
        MIN_RPM <= weak.limit() <= MAX_RPM,
        strong.permits(gear),
{
}

/// What the cooler does when the host disappears.
///
/// The firmware handles this itself: on a Bluetooth drop it powers down the fan
/// and both light sources, and on reconnect it wakes up and restores the gear
/// it had. Nothing needs to be re-sent, and nothing is written to our config.
#[derive(Debug, Clone, Copy, PartialEq, Eq, Structural)]
pub enum Standby {
    /// Keep running unattended.
    Off,
    /// Sleep as soon as the link drops.
    Instant,
    /// Sleep a minute after the link drops (600 ticks of 100 ms).
    Delayed,
}

impl Standby {
    /// Bit 3 stands for delayed and wins; bit 2 stands for instant.
    pub open spec fn of_mode_byte(b: u8) -> Standby {
        if (b / 8) % 2 == 1 {
            Standby::Delayed
        } else if (b / 4) % 2 == 1 {
            Standby::Instant
        } else {
            Standby::Off
        }
    }

    pub open spec fn byte(self) -> u8 {
        match self {
            Standby::Off => 0,
            Standby::Instant => 1,
            Standby::Delayed => 2,
        }
    }

    pub open spec fn label(self) -> Seq<char> {
        match self {
            Standby::Off => "off"@,
            Standby::Instant => "instant"@,
            Standby::Delayed => "delayed"@,
        }
    }

    /// The setting a name stands for.
    pub open spec fn named(name: Seq<char>) -> Option<Standby> {
        if name == "off"@ || name == "never"@ {
            Some(Standby::Off)
        } else if name == "instant"@ || name == "immediate"@ {
            Some(Standby::Instant)
        } else if name == "delayed"@ || name == "delay"@ {
            Some(Standby::Delayed)
        } else {
            None
        }
    }

    /// Read the standby setting back out of a status frame.
    pub fn from_mode_byte(b: u8) -> (standby: Self)
        ensures
            standby == Standby::of_mode_byte(b),
    {
        proof {
            assert((b & 0x08 != 0) == ((b / 8) % 2 == 1)) by (bit_vector);
            assert((b & 0x04 != 0) == ((b / 4) % 2 == 1)) by (bit_vector);
        }
        if b & MODE_STANDBY_DELAYED != 0 {
            Self::Delayed
        } else if b & MODE_STANDBY_INSTANT != 0 {
            Self::Instant
        } else {
            Self::Off
        }
    }

    fn code(self) -> (code: u8)
        ensures
            code == self.byte(),
    {
        match self {
            Self::Off => 0,
            Self::Instant => 1,
            Self::Delayed => 2,
        }
    }

    pub fn to_string(&self) -> (text: String)
        ensures
            text@ == self.label(),
    {
        match self {
            Self::Off => "off".to_owned(),
            Self::Instant => "instant".to_owned(),
            Self::Delayed => "delayed".to_owned(),
        }
    }
}

impl std::str::FromStr for Standby {
    type Err = ();

    fn from_str(text: &str) -> (standby: Result<Self, ()>)
        ensures
            match standby {
                Ok(standby) => Standby::named(text@) == Some(standby),
                Err(()) => Standby::named(text@) is None,
            },
    {
        if text::same(text, "off") || text::same(text, "never") {
            Ok(Self::Off)
        } else if text::same(text, "instant") || text::same(text, "immediate") {
            Ok(Self::Instant)
        } else if text::same(text, "delayed") || text::same(text, "delay") {
            Ok(Self::Delayed)
        } else {
            Err(())
        }
    }
}

/// A standby setting reads back from its own name.
pub proof fn law_standby_names_read_back(standby: Standby)
    ensures
        Standby::named(standby.label()) == Some(standby),
{
    reveal_strlit("off");
    reveal_strlit("never");
    reveal_strlit("instant");
    reveal_strlit("immediate");
    reveal_strlit("delayed");
    reveal_strlit("delay");
    assert("instant"@[0] == 'i');
    assert("delayed"@[0] == 'd');
    assert("off"@.len() == 3 && "never"@.len() == 5 && "immediate"@.len() == 9);
    assert("instant"@.len() == 7 && "delayed"@.len() == 7 && "delay"@.len() == 5);
}

// ---------------------------------------------------------------------------
// Reports to the device

/// Ask whether the side strip is powered.
///
/// The one piece of lighting the cooler will admit to. Other software sends
/// `0x45` as if it selected something, but the handler ignores its payload
/// entirely and only ever answers with the stored flag.
pub fn query_strip() -> (report: [u8; REPORT_LEN])
    ensures
        report@ == report_of(CMD_QUERY_STRIP, Seq::empty()),
        acceptable(report@),
{
    proof {
        law_reports_are_acceptable(CMD_QUERY_STRIP, Seq::empty());
    }
    build_report(CMD_QUERY_STRIP, &[])
}

/// Ask how much power the cooler thinks it has.
pub fn query_supply() -> (report: [u8; REPORT_LEN])
    ensures
        report@ == report_of(CMD_QUERY_SUPPLY, Seq::empty()),
        acceptable(report@),
{
    proof {
        law_reports_are_acceptable(CMD_QUERY_SUPPLY, Seq::empty());
    }
    build_report(CMD_QUERY_SUPPLY, &[])
}

/// Ask for the four stored gear speeds.
pub fn query_gear_table() -> (report: [u8; REPORT_LEN])
    ensures
        report@ == report_of(CMD_QUERY_GEAR_TABLE, Seq::empty()),
        acceptable(report@),
{
    proof {
        law_reports_are_acceptable(CMD_QUERY_GEAR_TABLE, Seq::empty());
    }
    build_report(CMD_QUERY_GEAR_TABLE, &[])
}

/// Store a speed for one gear.
///
/// Unlike a realtime target this is written into the cooler and survives
/// reconnects, so it also changes what the physical button cycles through. The
/// firmware only applies the gear right away if the supply allows it: on weak
/// power it refuses the top gears, which is where the "2700 rpm on laptop USB"
/// limit actually comes from.
///
/// The firmware answers `00` for a slot above three rather than clamping, so a
/// gear without a slot builds no report at all.
pub fn set_gear_rpm(gear: Gear, rpm: u16) -> (report: Option<[u8; REPORT_LEN]>)
    ensures
        match report {
            Some(report) => gear.index() matches Some(slot) && slot <= 3 && report@ == report_of(
                CMD_SET_GEAR_RPM,
                seq![slot] + le(rpm),
            ) && acceptable(report@) && gear == Gear::ALL@[report@[5] as int] && report@[6] + 256
                * report@[7] == rpm,
            None => gear is Unknown,
        },
{
    match gear.slot() {
        Some(slot) => {
            let payload: [u8; 3] = [slot, low_byte(rpm), high_byte(rpm)];
            proof {
                assert(payload@ =~= seq![slot] + le(rpm));
                law_each_gear_has_a_slot_of_its_own(slot as int);
                law_reports_are_acceptable(CMD_SET_GEAR_RPM, payload@);
            }
            Some(build_report(CMD_SET_GEAR_RPM, &payload))
        },
        None => None,
    }
}

pub fn set_realtime_rpm(rpm: u16) -> (report: [u8; REPORT_LEN])
    ensures
        report@ == report_of(CMD_SET_REALTIME_RPM, le(rpm)),
        report@[5] + 256 * report@[6] == rpm,
        acceptable(report@),
{
    let payload: [u8; 2] = [low_byte(rpm), high_byte(rpm)];
    proof {
        assert(payload@ =~= le(rpm));
        law_reports_are_acceptable(CMD_SET_REALTIME_RPM, payload@);
    }
    build_report(CMD_SET_REALTIME_RPM, &payload)
}

pub fn enter_realtime() -> (report: [u8; REPORT_LEN])
    ensures
        report@ == report_of(CMD_ENTER_REALTIME, Seq::empty()),
        acceptable(report@),
{
    proof {
        law_reports_are_acceptable(CMD_ENTER_REALTIME, Seq::empty());
    }
    build_report(CMD_ENTER_REALTIME, &[])
}

pub fn exit_realtime() -> (report: [u8; REPORT_LEN])
    ensures
        report@ == report_of(CMD_EXIT_REALTIME, Seq::empty()),
        acceptable(report@),
{
    proof {
        law_reports_are_acceptable(CMD_EXIT_REALTIME, Seq::empty());
    }
    build_report(CMD_EXIT_REALTIME, &[])
}

/// Persisted in the cooler, so it survives reboots of the host.
pub fn set_standby(standby: Standby) -> (report: [u8; REPORT_LEN])
    ensures
        report@ == report_of(CMD_SET_STANDBY, seq![standby.byte()]),
        Standby::of_mode_byte((4 * report@[5]) as u8) == standby,
        acceptable(report@),
{
    let payload: [u8; 1] = [standby.code()];
    proof {
        assert(payload@ =~= seq![standby.byte()]);
        law_reports_are_acceptable(CMD_SET_STANDBY, payload@);
    }
    build_report(CMD_SET_STANDBY, &payload)
}

// ---------------------------------------------------------------------------
// Frames from the device

/// A frame the device sent us.
#[derive(Debug, Clone, Copy, PartialEq, Eq)]
pub struct Frame<'a> {
    pub cmd: u8,
    pub payload: &'a [u8],
}

/// The command and payload a report from the device carries; nothing when it is
/// cut short, not ours, or fails its checksum.
pub open spec fn frame_in(buf: Seq<u8>) -> Option<(u8, Seq<u8>)> {
    if buf.len() >= 6 && buf[0] == REPORT_ID_IN && buf[1] == MAGIC_FIRST && buf[2] == MAGIC_SECOND
        && buf[4] >= 2 && 3 + buf[4] < buf.len() && buf[3 + buf[4]] == checksum_of(
        buf[3],
        buf.subrange(5, 3 + buf[4]),
    ) {
        Some((buf[3], buf.subrange(5, 3 + buf[4])))
    } else {
        None
    }
}

/// Validate an incoming report and split out its command and payload.
/// Returns `None` for malformed frames and checksum mismatches.
pub fn parse_frame(buf: &[u8]) -> (frame: Option<Frame<'_>>)
    ensures
        match frame {
            Some(frame) => frame_in(buf@) == Some((frame.cmd, frame.payload@)),
            None => frame_in(buf@) is None,
        },
{
    if buf.len() < 6 || buf[0] != REPORT_ID_IN || buf[1] != MAGIC_FIRST || buf[2] != MAGIC_SECOND {
        return None;
    }
    let cmd: u8 = buf[3];
    let declared: usize = buf[4] as usize;
    if declared < 2 || 3 + declared >= buf.len() {
        return None;
    }
    let payload = slice_subrange(buf, 5, 3 + declared);
    if buf[3 + declared] != checksum(cmd, payload) {
        return None;
    }
    Some(Frame { cmd, payload })
}

/// What the device sends for a command and a payload: the same framing as ours
/// under its own report id, followed by whatever pads the report.
pub open spec fn device_frame(cmd: u8, payload: Seq<u8>, padding: Seq<u8>) -> Seq<u8> {
    seq![REPORT_ID_IN, MAGIC_FIRST, MAGIC_SECOND, cmd, (2 + payload.len()) as u8] + payload
        + seq![checksum_of(cmd, payload)] + padding
}

/// Whatever the device frames comes back out of the parser, padding and all
/// payload lengths the length byte can declare included.
pub proof fn law_frames_parse_back(cmd: u8, payload: Seq<u8>, padding: Seq<u8>)
    requires
        payload.len() <= 253,
    ensures
        frame_in(device_frame(cmd, payload, padding)) == Some((cmd, payload)),
{
    let buf = device_frame(cmd, payload, padding);
    assert(buf.subrange(5, 3 + buf[4]) =~= payload);
}

/// Our own reports are never mistaken for the device's.
pub proof fn law_own_reports_are_not_frames(cmd: u8, payload: Seq<u8>)
    ensures
        frame_in(report_of(cmd, payload)) is None,
{
    assert(report_of(cmd, payload)[0] == REPORT_ID_OUT);
}

/// A frame that answers a command rather than reporting on its own.
pub open spec fn ack_in(buf: Seq<u8>) -> Option<(u8, Seq<u8>)> {
    match frame_in(buf) {
        Some((cmd, payload)) => if cmd != CMD_STATUS_NOTIFY {
            Some((cmd, payload))
        } else {
            None
        },
        None => None,
    }
}

/// Commands are acknowledged by echoing the command back with a status byte.
/// Every acknowledgement observed so far carries `0x01`.
pub fn parse_ack(buf: &[u8]) -> (frame: Option<Frame<'_>>)
    ensures
        match frame {
            Some(frame) => ack_in(buf@) == Some((frame.cmd, frame.payload@)),
            None => ack_in(buf@) is None,
        },
{
    match parse_frame(buf) {
        Some(frame) => if frame.cmd != CMD_STATUS_NOTIFY {
            Some(frame)
        } else {
            None
        },
        None => None,
    }
}

#[derive(Debug, Clone, Copy, PartialEq, Eq, Structural)]
pub struct Status {
    pub current_rpm: u16,
    pub target_rpm: u16,
    pub mode: Mode,
    /// Standby setting the cooler reports, which is where it is actually
    /// stored: the daemon can check its config took effect.
    pub standby: Standby,
    /// Highest gear the device will use.
    pub max_gear: Gear,
    /// Currently selected gear.
    pub gear: Gear,
    /// Monotonic counter, wraps; useful for spotting dropped frames.
    pub seq: u16,
}

/// What a status payload says, field by field.
pub open spec fn status_of(payload: Seq<u8>) -> Status {
    Status {
        max_gear: Gear::of_ceiling(payload[0] / 16),
        gear: Gear::of_selected(payload[0] % 16),
        mode: Mode::of_byte(payload[1]),
        standby: Standby::of_mode_byte(payload[1]),
        current_rpm: from_le(payload[3], payload[4]),
        target_rpm: from_le(payload[5], payload[6]),
        seq: from_le(payload[9], payload[10]),
    }
}

/// The status a report carries, if it is a status notification that is long
/// enough to hold one.
pub open spec fn status_in(buf: Seq<u8>) -> Option<Status> {
    match frame_in(buf) {
        Some((cmd, payload)) => if cmd == CMD_STATUS_NOTIFY && payload.len() >= 11 {
            Some(status_of(payload))
        } else {
            None
        },
        None => None,
    }
}

/// Parse a status notification. Returns `None` for any other frame.
pub fn parse_status(buf: &[u8]) -> (status: Option<Status>)
    ensures
        status == status_in(buf@),
{
    match parse_frame(buf) {
        None => None,
        Some(frame) => {
            let payload = frame.payload;
            if frame.cmd != CMD_STATUS_NOTIFY || payload.len() < 11 {
                return None;
            }
            let first: u8 = payload[0];
            proof {
                assert(first >> 4 == first / 16) by (bit_vector);
                assert(first & 0x0F == first % 16) by (bit_vector);
            }
            Some(
                Status {
                    max_gear: Gear::ceiling(first >> 4),
                    gear: Gear::selected(first & 0x0F),
                    mode: Mode::from_byte(payload[1]),
                    standby: Standby::from_mode_byte(payload[1]),
                    current_rpm: word(payload[3], payload[4]),
                    target_rpm: word(payload[5], payload[6]),
                    seq: word(payload[9], payload[10]),
                },
            )
        },
    }
}

/// A frame is telemetry or an answer, never both.
pub proof fn law_telemetry_is_not_an_ack(buf: Seq<u8>)
    ensures
        status_in(buf) is None || ack_in(buf) is None,
{
}

/// The speed a gear table payload holds at a slot.
pub open spec fn table_entry(payload: Seq<u8>, slot: int) -> u16 {
    from_le(payload[2 * slot], payload[2 * slot + 1])
}

/// Four little-endian speeds, in [`Gear::ALL`] order.
pub fn parse_gear_table(payload: &[u8]) -> (table: Option<[u16; 4]>)
    ensures
        match table {
            Some(table) => payload@.len() >= 8 && table@ == seq![
                table_entry(payload@, 0),
                table_entry(payload@, 1),
                table_entry(payload@, 2),
                table_entry(payload@, 3),
            ] && (forall|i: int|
                0 <= i < 4 ==> #[trigger] table@[i] == payload@[2 * i] + 256 * payload@[2 * i + 1]),
            None => payload@.len() < 8,
        },
{
    if payload.len() < 8 {
        return None;
    }
    let table: [u16; 4] = [
        word(payload[0], payload[1]),
        word(payload[2], payload[3]),
        word(payload[4], payload[5]),
        word(payload[6], payload[7]),
    ];
    proof {
        assert(table@ =~= seq![
            table_entry(payload@, 0),
            table_entry(payload@, 1),
            table_entry(payload@, 2),
            table_entry(payload@, 3),
        ]);
    }
    Some(table)
}

// ---------------------------------------------------------------------------
// What the wire format promises

/// A report is laid out byte by byte: report id, magic, command, a length two
/// above the payload's, the payload as it is, the checksum, and nothing but
/// zeros behind it.
pub proof fn law_reports_are_laid_out(cmd: u8, payload: Seq<u8>)
    requires
        payload.len() <= PAYLOAD_ROOM,
    ensures
        ({
            let report = report_of(cmd, payload);
            let n = payload.len() as int;
            &&& report.len() == 25
            &&& report[0] == 0x02 && report[1] == 0x5A && report[2] == 0xA5
            &&& report[3] == cmd
            &&& report[4] == n + 2
            &&& forall|i: int| 0 <= i < n ==> #[trigger] report[5 + i] == payload[i]
            &&& report[5 + n] == (cmd + n + 2 + total(payload)) % 256
            &&& forall|i: int| 6 + n <= i < 25 ==> #[trigger] report[i] == 0
        }),
{
}

/// Two reports that carry different commands or payloads are never the same.
pub proof fn law_reports_tell_commands_apart(a: u8, b: u8, first: Seq<u8>, second: Seq<u8>)
    requires
        first.len() <= PAYLOAD_ROOM,
        second.len() <= PAYLOAD_ROOM,
        report_of(a, first) == report_of(b, second),
    ensures
        a == b,
        first == second,
{
    let one = report_of(a, first);
    let other = report_of(b, second);
    assert(one[3] == a && other[3] == b);
    assert(one[4] == first.len() + 2 && other[4] == second.len() + 2);
    assert forall|i: int| 0 <= i < first.len() implies first[i] == second[i] by {
        assert(one[5 + i] == first[i] && other[5 + i] == second[i]);
    }
    assert(first =~= second);
}

/// An empty frame sums up to its command and its length byte, and every byte of
/// payload adds itself and one to the length, in whatever place it stands.
pub proof fn law_every_byte_counts(cmd: u8, payload: Seq<u8>, byte: u8)
    ensures
        checksum_of(cmd, Seq::empty()) == (cmd + 2) % 256,
        checksum_of(cmd, payload.push(byte)) == (checksum_of(cmd, payload) + byte + 1) % 256,
        checksum_of(cmd, seq![byte] + payload) == checksum_of(cmd, payload.push(byte)),
    decreases payload.len(),
{
    assert(payload.push(byte).drop_last() =~= payload);
    lemma_total_from_the_front(payload, byte);
}

proof fn lemma_total_from_the_front(payload: Seq<u8>, byte: u8)
    ensures
        total(seq![byte] + payload) == byte + total(payload),
    decreases payload.len(),
{
    let all = seq![byte] + payload;
    if payload.len() == 0 {
        assert(all.drop_last() =~= Seq::<u8>::empty());
        assert(total(all.drop_last()) == 0);
    } else {
        assert(all.drop_last() =~= seq![byte] + payload.drop_last());
        lemma_total_from_the_front(payload.drop_last(), byte);
    }
}

/// A frame with one byte of its payload altered is refused.
pub proof fn law_a_corrupted_frame_is_refused(
    cmd: u8,
    payload: Seq<u8>,
    padding: Seq<u8>,
    i: int,
    byte: u8,
)
    requires
        payload.len() <= 253,
        0 <= i < payload.len(),
        byte != payload[i],
    ensures
        frame_in(device_frame(cmd, payload, padding).update(5 + i, byte)) is None,
{
    let sent = device_frame(cmd, payload, padding);
    let got = sent.update(5 + i, byte);
    assert(got.subrange(5, 3 + got[4]) =~= payload.update(i, byte));
    lemma_total_after_update(payload, i, byte);
    assert(got[3 + got[4]] == checksum_of(cmd, payload));
}

proof fn lemma_total_after_update(payload: Seq<u8>, i: int, byte: u8)
    requires
        0 <= i < payload.len(),
    ensures
        total(payload.update(i, byte)) == total(payload) - payload[i] + byte,
    decreases payload.len(),
{
    let last = payload.len() - 1;
    if i == last {
        assert(payload.update(i, byte).drop_last() =~= payload.drop_last());
    } else {
        assert(payload.update(i, byte).drop_last() =~= payload.drop_last().update(i, byte));
        lemma_total_after_update(payload.drop_last(), i, byte);
    }
}

/// What the parser accepts was framed by the device, and says what its bytes
/// say: nothing is read out of anything else.
pub proof fn law_only_frames_are_parsed(buf: Seq<u8>)
    ensures
        frame_in(buf) matches Some((cmd, payload)) ==> {
            let n = payload.len() as int;
            &&& buf.len() >= 6 + n
            &&& buf[0] == 0x01 && buf[1] == 0x5A && buf[2] == 0xA5
            &&& buf[3] == cmd
            &&& buf[4] == n + 2
            &&& forall|i: int| 0 <= i < n ==> buf[5 + i] == #[trigger] payload[i]
            &&& buf[5 + n] == (cmd + n + 2 + total(payload)) % 256
        },
{
}

/// A 16-bit value is its low byte and 256 times its high one, both ways.
pub proof fn law_words_are_little_endian(value: u16, low: u8, high: u8)
    ensures
        le(value).len() == 2,
        le(value)[0] + 256 * le(value)[1] == value,
        from_le(low, high) == low + 256 * high,
{
}

/// Every product id of the series stands for the model it was given to, and no
/// other id for any.
pub proof fn law_models_go_by_their_product_id(pid: u16)
    ensures
        Model::of_pid(pid) is Some <==> 0x1001 <= pid <= 0x1004,
        Model::of_pid(pid) == Some(Model::Bs1) <==> pid == 0x1001,
        Model::of_pid(pid) == Some(Model::Bs2Pro) <==> pid == 0x1002,
        Model::of_pid(pid) == Some(Model::Bs3) <==> pid == 0x1003,
        Model::of_pid(pid) == Some(Model::Bs3Pro) <==> pid == 0x1004,
{
}

/// Each gear the device stores has a slot of its own: its place in the order
/// the device cycles them.
pub proof fn law_each_gear_has_a_slot_of_its_own(i: int)
    requires
        0 <= i < 4,
    ensures
        Gear::ALL@.len() == 4,
        Gear::ALL@[i].index() matches Some(slot) && slot == i,
        Gear::ALL@ == seq![Gear::Quiet, Gear::Standard, Gear::Strong, Gear::Overclock],
{
}

/// Only a gear the device does not store is without a slot, and no two gears
/// share one.
pub proof fn law_slots_are_not_shared(a: Gear, b: Gear)
    ensures
        a.index() is None <==> a is Unknown,
        a.index() is Some && a.index() == b.index() ==> a == b,
        a.index() matches Some(slot) ==> slot < 4 && Gear::ALL@[slot as int] == a,
{
}

/// Storing a speed for a gear changes that gear's entry of the table to the
/// speed, and no other.
///
/// The device keeps the two bytes behind the slot number at that slot.
pub proof fn law_a_stored_speed_reads_back(table: Seq<u8>, gear: Gear, rpm: u16, other: int)
    requires
        table.len() == 8,
        !(gear is Unknown),
        0 <= other < 4,
    ensures
        ({
            let report = report_of(CMD_SET_GEAR_RPM, seq![gear.index()->0] + le(rpm));
            let slot = report[5] as int;
            let stored = table.update(2 * slot, report[6]).update(2 * slot + 1, report[7]);
            &&& report[3] == 0x26 && report[4] == 5
            &&& 0 <= slot < 4
            &&& table_entry(stored, other) == (if Gear::ALL@[other] == gear {
                rpm
            } else {
                table_entry(table, other)
            })
        }),
{
    law_slots_are_not_shared(gear, Gear::ALL@[other]);
    law_each_gear_has_a_slot_of_its_own(other);
    law_words_read_back(rpm);
}

/// An entry of the gear table is two bytes at twice its slot, low one first.
pub proof fn law_table_entries_are_little_endian(payload: Seq<u8>, slot: int)
    requires
        0 <= slot < 4,
        payload.len() >= 8,
    ensures
        table_entry(payload, slot) == payload[2 * slot] + 256 * payload[2 * slot + 1],
{
}

/// The two nibbles of a status frame count the gears in steps of two, the
/// selected one from eight on and the ceiling from zero on, and the lowest gear
/// is never a ceiling. What is not on those steps is kept as it is.
pub proof fn law_nibbles_count_the_gears(nibble: u8, i: int)
    requires
        0 <= i < 4,
    ensures
        nibble == 8 + 2 * i ==> Gear::of_selected(nibble) == Gear::ALL@[i],
        nibble < 8 || nibble % 2 == 1 || nibble > 14 ==> Gear::of_selected(nibble) == Gear::Unknown(
            nibble,
        ),
        i > 0 && nibble == 2 * i ==> Gear::of_ceiling(nibble) == Gear::ALL@[i],
        nibble == 0 || nibble % 2 == 1 || nibble > 6 ==> Gear::of_ceiling(nibble) == Gear::Unknown(
            nibble,
        ),
{
    law_each_gear_has_a_slot_of_its_own(i);
}

/// The names of the gears, in the order the device cycles them.
pub proof fn law_gears_are_named_in_order(i: int, name: Seq<char>)
    requires
        0 <= i < 4,
    ensures
        Gear::ALL@[i].label() == seq!["quiet"@, "standard"@, "strong"@, "overclock"@][i],
        Gear::named(name) == Some(Gear::ALL@[i]) <==> name == Gear::ALL@[i].label(),
        Gear::named(name) matches Some(gear) ==> !(gear is Unknown) && name == gear.label(),
{
    law_each_gear_has_a_slot_of_its_own(i);
    law_gear_names_read_back(Gear::ALL@[i]);
}

/// The byte a standby setting is sent as is the one the firmware takes for it,
/// and the cooler then reports it two bits further up: what was sent is what is
/// read back, in gear mode and in realtime mode, and whatever else the byte
/// holds.
pub proof fn law_a_standby_setting_reads_back(standby: Standby, rest: u8)
    requires
        rest < 16,
    ensures
        standby == Standby::Off <==> standby.byte() == 0,
        standby == Standby::Instant <==> standby.byte() == 1,
        standby == Standby::Delayed <==> standby.byte() == 2,
        Standby::of_mode_byte((4 * standby.byte()) as u8) == standby,
        Standby::of_mode_byte((16 * rest + 4 * standby.byte() + 2) as u8) == standby,
        Standby::of_mode_byte((16 * rest + 4 * standby.byte() + 3) as u8) == standby,
        Mode::of_byte((16 * rest + 4 * standby.byte() + 2) as u8) == Mode::Gear,
        Mode::of_byte((16 * rest + 4 * standby.byte() + 3) as u8) == Mode::Realtime,
{
}

/// Of a mode byte only bit 0 tells the mode and only bits 2 and 3 the standby
/// setting; a byte with both of those set is delayed.
pub proof fn law_mode_bits(b: u8)
    ensures
        Mode::of_byte(b) == Mode::Realtime <==> b & 0x01 != 0,
        Standby::of_mode_byte(b) == Standby::Delayed <==> b & 0x08 != 0,
        Standby::of_mode_byte(b) == Standby::Instant <==> b & 0x0C == 0x04,
        Standby::of_mode_byte(b) == Standby::Off <==> b & 0x0C == 0,
{
    assert((b & 0x01 != 0) == (b % 2 == 1)) by (bit_vector);
    assert((b & 0x08 != 0) == ((b / 8) % 2 == 1)) by (bit_vector);
    assert((b & 0x0C == 0x04) == ((b / 8) % 2 == 0 && (b / 4) % 2 == 1)) by (bit_vector);
    assert((b & 0x0C == 0) == ((b / 8) % 2 == 0 && (b / 4) % 2 == 0)) by (bit_vector);
}

/// The words a standby setting goes by.
pub proof fn law_standby_words(name: Seq<char>)
    ensures
        Standby::Off.label() == "off"@,
        Standby::Instant.label() == "instant"@,
        Standby::Delayed.label() == "delayed"@,
        Standby::named(name) == Some(Standby::Off) <==> name == "off"@ || name == "never"@,
        Standby::named(name) == Some(Standby::Instant) <==> name == "instant"@ || name
            == "immediate"@,
        Standby::named(name) == Some(Standby::Delayed) <==> name == "delayed"@ || name == "delay"@,
{
    law_standby_names_read_back(Standby::Off);
    reveal_strlit("off");
    reveal_strlit("never");
    reveal_strlit("instant");
    reveal_strlit("immediate");
    reveal_strlit("delayed");
    reveal_strlit("delay");
    assert("instant"@[0] == 'i');
    assert("delayed"@[0] == 'd');
    assert("never"@[0] == 'n');
    assert("delay"@[0] == 'd');
    assert("off"@.len() == 3 && "never"@.len() == 5 && "immediate"@.len() == 9);
    assert("instant"@.len() == 7 && "delayed"@.len() == 7 && "delay"@.len() == 5);
}

/// A supply level of one to three is bus power, enough for all but the top gear,
/// or the full range. The firmware clamps at 2700, 3300 and 4000 rpm there, and
/// runs every gear whose slot is no higher than the level; a level it does not
/// have restricts nothing.
pub proof fn law_supply_levels(level: u8, i: int)
    requires
        0 <= i < 4,
    ensures
        Supply::of_byte(level) == Supply::Unknown(level) <==> level == 0 || level > 3,
        level == 1 ==> Supply::of_byte(level).limit() == 2700,
        level == 2 ==> Supply::of_byte(level).limit() == 3300,
        level == 0 || level >= 3 ==> Supply::of_byte(level).limit() == 4000,
        1 <= level <= 3 ==> (Supply::of_byte(level).permits(Gear::ALL@[i]) <==> i <= level),
        level == 0 || level > 3 ==> Supply::of_byte(level).permits(Gear::ALL@[i]),
        Supply::of_byte(level).permits(Gear::Unknown(level)),
        Supply::of_byte(level).permits(Supply::of_byte(level).top_gear()),
        Supply::of_byte(level).permits(Gear::ALL@[i]) ==> Gear::ALL@[i].index()->0
            <= Supply::of_byte(level).top_gear().index()->0,
        level == 1 <==> Supply::of_byte(level) == Supply::Low,
        level == 2 <==> Supply::of_byte(level) == Supply::Medium,
        level == 3 <==> Supply::of_byte(level) == Supply::Full,
{
    law_each_gear_has_a_slot_of_its_own(i);
}

/// What each supply is called.
pub proof fn law_supplies_have_names(n: u8)
    ensures
        Supply::Low.label() == "low"@,
        Supply::Medium.label() == "medium"@,
        Supply::Full.label() == "full"@,
        Supply::Unknown(n).label() == "unknown("@ + text::dec(n as nat) + ")"@,
{
}

/// Whatever pads it, a status notification says what its bytes say: gears in the
/// nibbles of the first, mode and standby in the second, and the two speeds and
/// the counter in pairs of bytes, low one first.
pub proof fn law_a_status_says_what_its_bytes_say(payload: Seq<u8>, padding: Seq<u8>)
    requires
        11 <= payload.len() <= 253,
    ensures
        status_in(device_frame(0xEF, payload, padding)) matches Some(status) && {
            &&& status.max_gear == Gear::of_ceiling(payload[0] / 16)
            &&& status.gear == Gear::of_selected(payload[0] % 16)
            &&& status.mode == Mode::of_byte(payload[1])
            &&& status.standby == Standby::of_mode_byte(payload[1])
            &&& status.current_rpm == payload[3] + 256 * payload[4]
            &&& status.target_rpm == payload[5] + 256 * payload[6]
            &&& status.seq == payload[9] + 256 * payload[10]
        },
{
    law_frames_parse_back(0xEF, payload, padding);
}

/// Of all that parses, exactly the notifications long enough are status, and
/// exactly what is not a notification is an answer.
pub proof fn law_frames_are_status_or_answers(cmd: u8, payload: Seq<u8>, padding: Seq<u8>)
    requires
        payload.len() <= 253,
    ensures
        status_in(device_frame(cmd, payload, padding)) is Some <==> cmd == 0xEF && payload.len()
            >= 11,
        ack_in(device_frame(cmd, payload, padding)) == (if cmd == 0xEF {
            None::<(u8, Seq<u8>)>
        } else {
            Some((cmd, payload))
        }),
{
    law_frames_parse_back(cmd, payload, padding);
}

/// What each model and each mode is called.
pub proof fn law_models_and_modes_have_names()
    ensures
        Model::Bs1.label() == "BS1"@,
        Model::Bs2Pro.label() == "BS2 Pro"@,
        Model::Bs3.label() == "BS3"@,
        Model::Bs3Pro.label() == "BS3 Pro"@,
        Mode::Gear.label() == "gear"@,
        Mode::Realtime.label() == "realtime"@,
{
}

} // verus!
