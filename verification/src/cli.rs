//! The command line tool: one command, one cooler, no daemon.

use crate::device;
use crate::device::Found;
use crate::error;
use crate::error::Error;
use crate::protocol;
use crate::protocol::{Standby, Status, MAX_RPM, MIN_RPM, REPORT_LEN, STOP_RPM};
use crate::sensor;
use crate::sensor::Available;
use crate::text;
use std::str::FromStr;
use vstd::prelude::*;

verus! {

/// A number with spaces in front up to four places.
pub open spec fn padded(n: u16) -> Seq<char> {
    (if n < 10 {
        "   "@
    } else if n < 100 {
        "  "@
    } else if n < 1000 {
        " "@
    } else {
        Seq::empty()
    }) + text::dec(n as nat)
}

fn push_padded(out: &mut String, n: u16)
    ensures
        final(out)@ == old(out)@ + padded(n),
{
    if n < 10 {
        out.append("   ");
    } else if n < 100 {
        out.append("  ");
    } else if n < 1000 {
        out.append(" ");
    }
    text::push_dec(out, n as u64);
    proof {
        assert(out@ =~= old(out)@ + padded(n));
    }
}

/// One line about a status frame.
pub open spec fn line(status: Status) -> Seq<char> {
    "current "@ + padded(status.current_rpm) + " rpm   target "@ + padded(status.target_rpm)
        + " rpm   mode "@ + status.mode.label() + "   gear "@ + status.gear.label() + " (max "@
        + status.max_gear.label() + ")"@
}

pub fn status_line(status: &Status) -> (r: String)
    ensures
        r@ == line(*status),
{
    let mut r = "current ".to_owned();
    push_padded(&mut r, status.current_rpm);
    r.append(" rpm   target ");
    push_padded(&mut r, status.target_rpm);
    r.append(" rpm   mode ");
    r.append(status.mode.to_string().as_str());
    r.append("   gear ");
    r.append(status.gear.to_string().as_str());
    r.append(" (max ");
    r.append(status.max_gear.to_string().as_str());
    r.append(")");
    r
}

/// One line about a cooler that was found.
pub open spec fn listing(found: device::FoundView) -> Seq<char> {
    found.path + "  "@ + found.model.label()
}

/// A line for every cooler found, or the error that there is none.
pub fn list(found: &Vec<Found>) -> (r: Result<Vec<String>, Error>)
    ensures
        match r {
            Ok(lines) => found@.len() > 0 && text::views(lines@) == Seq::new(
                found@.len(),
                |i: int| listing(found@[i]@),
            ),
            Err(error) => found@.len() == 0 && error is NotFound,
        },
{
    if found.len() == 0 {
        return Err(Error::NotFound);
    }
    let mut lines: Vec<String> = Vec::new();
    let mut i: usize = 0;
    while i < found.len()
        invariant
            i <= found@.len(),
            lines@.len() == i,
            forall|k: int| 0 <= k < i ==> (#[trigger] lines@[k])@ == listing(found@[k]@),
        decreases found@.len() - i,
    {
        let mut one = text::joined(found[i].path.as_str(), "  ");
        one.append(found[i].model.name());
        lines.push(one);
        i += 1;
    }
    proof {
        assert(text::views(lines@) =~= Seq::new(found@.len(), |i: int| listing(found@[i]@)));
    }
    Ok(lines)
}

/// Does a fault mend itself once a cooler is back?
pub open spec fn passing(error: error::ErrorView) -> bool {
    error is NotFound || error is Open
}

/// Is it worth looking for a cooler again? It re-enumerates a couple of seconds
/// after a power blip; anything else is not going to mend itself.
pub fn worth_retrying(error: &Error) -> (r: bool)
    ensures
        r == (error is NotFound || error is Open),
        r == passing(error@),
{
    match error {
        Error::NotFound | Error::Open { .. } => true,
        _ => false,
    }
}

/// Following a cooler, frame by frame.
#[derive(Debug, Clone, Copy, PartialEq, Eq, Structural)]
pub struct Watch {
    pub seen: usize,
    /// Stop after this many frames; without one, never.
    pub limit: Option<usize>,
}

/// What to do about a frame, or the lack of one.
#[derive(Debug)]
pub enum Watched {
    /// Print this, and stop if that was the last.
    Print { line: String, last: bool },
    /// Keep listening. The cooler goes quiet whenever it loses power, and the
    /// Bluetooth link only drops a few seconds later, so a gap in the stream is
    /// not a reason to give up.
    Quiet,
    /// Open it again. Reconnecting builds a fresh HID device that reuses the
    /// old name, so the previous descriptor is dead.
    Reopen,
    Failed(Error),
}

impl Watch {
    pub open spec fn counted(self) -> usize {
        if self.seen < usize::MAX {
            (self.seen + 1) as usize
        } else {
            self.seen
        }
    }

    pub fn step(&mut self, outcome: Result<Status, Error>) -> (next: Watched)
        ensures
            final(self).limit == old(self).limit,
            match outcome {
                Ok(status) => final(self).seen == old(self).counted() && (next matches
                    Watched::Print { line: text, last } && text@ == line(status) && last == (
                old(self).limit matches Some(limit) && old(self).counted() >= limit)),
                Err(error) => final(self).seen == old(self).seen && (match error@ {
                    error::ErrorView::Timeout => next is Quiet,
                    error::ErrorView::Disconnected => next is Reopen,
                    fault => next matches Watched::Failed(e) && e@ == fault,
                }),
            },
    {
        match outcome {
            Ok(status) => {
                if self.seen < usize::MAX {
                    self.seen = self.seen + 1;
                }
                let last = match self.limit {
                    Some(limit) => self.seen >= limit,
                    None => false,
                };
                Watched::Print { line: status_line(&status), last }
            },
            Err(Error::Timeout) => Watched::Quiet,
            Err(Error::Disconnected) => Watched::Reopen,
            Err(error) => Watched::Failed(error),
        }
    }
}

/// The reports that make a cooler hold a speed, in the order and with a pause
/// between them, or why it cannot.
pub fn set(rpm: u16) -> (r: Result<([u8; REPORT_LEN], [u8; REPORT_LEN]), Error>)
    ensures
        match r {
            Ok((enter, set)) => (rpm == STOP_RPM || MIN_RPM <= rpm <= MAX_RPM) && enter@
                == protocol::report_of(protocol::CMD_ENTER_REALTIME, Seq::empty()) && set@
                == protocol::report_of(protocol::CMD_SET_REALTIME_RPM, protocol::le(rpm))
                && enter@[3] == 0x23 && set@[3] == 0x21 && set@[5] + 256 * set@[6] == rpm,
            Err(error) => rpm != STOP_RPM && !(MIN_RPM <= rpm <= MAX_RPM) && error@ == (
            error::ErrorView::RpmOutOfRange { rpm, min: MIN_RPM, max: MAX_RPM }),
        },
{
    if rpm != STOP_RPM && !(MIN_RPM <= rpm && rpm <= MAX_RPM) {
        return Err(Error::RpmOutOfRange { rpm, min: MIN_RPM, max: MAX_RPM });
    }
    Ok((protocol::enter_realtime(), protocol::set_realtime_rpm(rpm)))
}

/// What to say once a speed is set.
pub fn set_line(rpm: u16) -> (r: String)
    ensures
        r@ == (if rpm == STOP_RPM {
            "fan stopped"@
        } else {
            "target "@ + text::dec(rpm as nat) + " rpm"@
        }),
{
    if rpm == STOP_RPM {
        return "fan stopped".to_owned();
    }
    let mut r = "target ".to_owned();
    text::push_dec(&mut r, rpm as u64);
    r.append(" rpm");
    r
}

/// The report that changes what the cooler does once the host goes away, and
/// what to say once it is acknowledged.
pub fn standby(name: &str) -> (r: Result<([u8; REPORT_LEN], String), Error>)
    ensures
        match r {
            Ok((report, line)) => Standby::named(name@) matches Some(standby) && report@
                == protocol::report_of(protocol::CMD_SET_STANDBY, seq![standby.byte()])
                && protocol::acceptable(report@) && line@ == "standby "@ + standby.label()
                && report@[3] == 0x0D && Standby::of_mode_byte((4 * report@[5]) as u8) == standby,
            Err(error) => Standby::named(name@) is None && error@ == (error::ErrorView::Config(
                "no standby called "@ + name@,
            )),
        },
{
    match Standby::from_str(name) {
        Ok(standby) => Ok(
            (
                protocol::set_standby(standby),
                text::joined("standby ", standby.to_string().as_str()),
            ),
        ),
        Err(()) => Err(Error::Config(text::joined("no standby called ", name))),
    }
}

/// A text with spaces behind it up to a width.
pub open spec fn widened(s: Seq<char>, width: nat) -> Seq<char>
    decreases width - s.len(),
{
    if s.len() >= width {
        s
    } else {
        widened(s.push(' '), width)
    }
}

fn column(s: String, width: usize) -> (r: String)
    ensures
        r@ == widened(s@, width as nat),
{
    let mut have: usize = text::chars_of(s.as_str()).len();
    let mut r = s;
    while have < width
        invariant
            have == r@.len(),
            widened(r@, width as nat) == widened(s@, width as nat),
        decreases width - have,
    {
        r.push(' ');
        have += 1;
    }
    r
}

/// One line about a temperature input: its chip, where that sits and what the
/// kernel calls it, its label and what it reads.
pub open spec fn input_line(input: sensor::AvailableView, temp_c: Option<u8>) -> Seq<char> {
    widened(input.hwmon, 10) + " "@ + widened(input.device + " ("@ + input.kernel + ")"@, 27)
        + " "@ + widened(
        if input.label.len() == 0 {
            "-"@
        } else {
            input.label
        },
        11,
    ) + " "@ + (match temp_c {
        Some(temp_c) => text::dec(temp_c as nat) + " C"@,
        None => "-"@,
    })
}

pub fn sensor_line(input: &Available, temp_c: Option<u8>) -> (r: String)
    ensures
        r@ == input_line(input@, temp_c),
{
    let mut place = text::joined(input.device.as_str(), " (");
    place.append(input.kernel.as_str());
    place.append(")");
    let label = if input.label.as_str().is_empty() {
        "-".to_owned()
    } else {
        input.label.clone()
    };
    let mut r = column(input.hwmon.clone(), 10);
    r.append(" ");
    r.append(column(place, 27).as_str());
    r.append(" ");
    r.append(column(label, 11).as_str());
    r.append(" ");
    match temp_c {
        Some(temp_c) => {
            text::push_dec(&mut r, temp_c as u64);
            r.append(" C");
        },
        None => {
            r.append("-");
        },
    }
    proof {
        assert(r@ =~= input_line(input@, temp_c));
    }
    r
}

/// A padded number stands at the right of four places, or of as many as it
/// needs, with nothing but spaces in front.
pub proof fn law_numbers_are_right_aligned(n: u16, i: int)
    ensures
        text::ends(padded(n), text::dec(n as nat)),
        padded(n).len() >= 4,
        n <= 9999 ==> padded(n).len() == 4,
        0 <= i < padded(n).len() - text::dec(n as nat).len() ==> padded(n)[i] == ' ',
{
    reveal_strlit("   ");
    reveal_strlit("  ");
    reveal_strlit(" ");
    reveal_with_fuel(text::dec, 6);
    let digits = text::dec(n as nat);
    let front = padded(n).take(padded(n).len() - digits.len());
    text::law_joined_texts_begin_and_end(front, digits, digits);
    assert(front + digits =~= padded(n));
}

/// A widened text starts with the text and is at least as long as asked, with
/// nothing but spaces behind it; a text that is long enough stays as it is.
pub proof fn law_columns_are_left_aligned(s: Seq<char>, width: nat, i: int)
    ensures
        text::begins(widened(s, width), s),
        widened(s, width).len() == (if s.len() < width {
            width
        } else {
            s.len()
        }),
        s.len() <= i < widened(s, width).len() ==> widened(s, width)[i] == ' ',
    decreases width - s.len(),
{
    if s.len() < width {
        let next = s.push(' ');
        law_columns_are_left_aligned(next, width, i);
        let w = widened(next, width);
        assert(w.take(s.len() as int) =~= w.take(next.len() as int).take(s.len() as int));
        assert(next.take(s.len() as int) =~= s);
        if i == s.len() {
            assert(w.take(next.len() as int)[i] == ' ');
        }
    } else {
        assert(s.take(s.len() as int) =~= s);
    }
}

/// A line about a status names the speed the fan runs at first and the one it
/// was told second, and ends with the gears.
pub proof fn law_a_status_line_says_both_speeds(status: Status)
    ensures
        text::begins(
            line(status),
            "current "@ + padded(status.current_rpm) + " rpm   target "@ + padded(
                status.target_rpm,
            ) + " rpm   mode "@ + status.mode.label(),
        ),
        text::ends(
            line(status),
            "   gear "@ + status.gear.label() + " (max "@ + status.max_gear.label() + ")"@,
        ),
{
    let front = "current "@ + padded(status.current_rpm) + " rpm   target "@ + padded(
        status.target_rpm,
    ) + " rpm   mode "@ + status.mode.label();
    let back = "   gear "@ + status.gear.label() + " (max "@ + status.max_gear.label() + ")"@;
    assert(line(status) =~= front + back);
    text::law_joined_texts_begin_and_end(front, back, back);
}

/// Frames are counted one by one.
pub proof fn law_frames_are_counted(watch: Watch)
    requires
        watch.seen < usize::MAX,
    ensures
        watch.counted() == watch.seen + 1,
{
}

/// A cooler that is not there or cannot be opened may be back in a moment; no
/// other fault is worth waiting out.
pub proof fn law_only_a_missing_cooler_is_worth_waiting_for(
    path: Seq<char>,
    source: Seq<char>,
    cmd: u8,
)
    ensures
        passing(error::ErrorView::NotFound),
        passing(error::ErrorView::Open { path, source }),
        !passing(error::ErrorView::Timeout),
        !passing(error::ErrorView::Disconnected),
        !passing(error::ErrorView::NoAck { cmd }),
        !passing(error::ErrorView::Read(source)),
        !passing(error::ErrorView::Write(source)),
        !passing(error::ErrorView::Poll(source)),
        !passing(error::ErrorView::Config(source)),
{
}

} // verus!
