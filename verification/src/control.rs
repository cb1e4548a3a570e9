//! The daemon's control loop, decision by decision.
//!
//! Talking to the cooler, reading sensors and writing files is somebody else's
//! job. What is here is everything in between: each method takes what just
//! happened, moves the state along and says what to do next. A tick runs
//! through several such steps, a command through one or two.
//!
//! Time comes in as nanoseconds on a clock that only moves forward.

use crate::config;
use crate::config::{Config, ConfigError};
use crate::curve;
use crate::curve::Demand;
use crate::error;
use crate::error::Error;
use crate::ipc;
use crate::ipc::{Reply, Request, Status, Warning, WarningCode};
use crate::lighting;
use crate::lighting::{LightMode, Lighting};
use crate::protocol;
use crate::protocol::{Mode, Model, Supply, MAX_RPM, MIN_RPM, REPORT_LEN, STOP_RPM};
use crate::text;
use vstd::prelude::*;

verus! {

/// How long to wait for a frame in one go.
///
/// The cooler reports itself every 500 ms; the loop wakes far more often than
/// that because a command waits for it to come back from reading.
pub const FRAME_TIMEOUT: u64 = 40_000_000;

/// Screens do not change often, and asking the kernel costs a handful of file
/// reads, so this is as often as it is worth asking.
pub const SCREEN_POLL: u64 = 1_000_000_000;

/// Silence this long means the cooler is gone rather than merely quiet.
pub const SILENCE: u64 = 3_000_000_000;

/// How long every curve has to agree the fan can stop before it is stopped.
pub const STOP_AFTER: u64 = 60_000_000_000;

/// How long to keep asking a freshly connected cooler what supply it has.
pub const SUPPLY_SETTLE: u64 = 5_000_000_000;

/// Nanoseconds in a second.
pub const SECOND: u64 = 1_000_000_000;

/// How long ago something was.
pub open spec fn since(last: u64, now: u64) -> u64 {
    if now >= last {
        (now - last) as u64
    } else {
        0
    }
}

/// Has it been this long, or never happened?
pub open spec fn lapsed(last: Option<u64>, now: u64, wait: u64) -> bool {
    match last {
        Some(last) => since(last, now) >= wait,
        None => true,
    }
}

fn elapsed(last: u64, now: u64) -> (r: u64)
    ensures
        r == since(last, now),
{
    if now >= last {
        now - last
    } else {
        0
    }
}

fn is_due(last: Option<u64>, now: u64, wait: u64) -> (r: bool)
    ensures
        r == lapsed(last, now, wait),
{
    match last {
        Some(last) => elapsed(last, now) >= wait,
        None => true,
    }
}

/// What to do next.
#[derive(Debug)]
pub enum Ask {
    /// Nothing: this event is dealt with.
    Idle,
    /// Look for a cooler and open it.
    Open,
    /// Ask a cooler just met what supply it has.
    Supply,
    /// Send a standby setting to a cooler just met.
    Standby { report: [u8; REPORT_LEN] },
    /// Ask a cooler just met whether its strip is lit.
    Strip,
    /// Send a cooler just met the lighting it should have.
    Restore { reports: Vec<[u8; REPORT_LEN]> },
    /// Ask for the supply again.
    SupplyAgain,
    /// Look whether the screens are dark.
    Screens,
    /// Send what makes the lights follow the screens.
    Follow { reports: Vec<[u8; REPORT_LEN]> },
    /// Read every curve's sensor; this many nanoseconds have passed since.
    Evaluate { dt: u128 },
    /// Wait for a status frame.
    Listen,
    /// Make the cooler hold a speed, from the mode it says it is in.
    Hold { rpm: u16, mode: Mode },
    /// Hand out a picture of the cooler, or the news that there is none.
    Publish { status: Option<Status> },
    /// Answer the client.
    Answer { reply: Reply },
    /// List the sensors for a client.
    ListSensors,
    /// Ask for the gear table for a client.
    Gears,
    /// Store a gear speed for a client.
    StoreGear { report: [u8; REPORT_LEN] },
    /// Send lighting for a client.
    Light { wanted: Lighting, reports: Vec<[u8; REPORT_LEN]> },
    /// Send a standby setting for a client.
    SetStandby { report: [u8; REPORT_LEN] },
    /// Write the configuration to its file, for a client.
    Save,
    /// Send lighting a changed file asks for.
    Relight { reports: Vec<[u8; REPORT_LEN]> },
}

#[verifier::ext_equal]
pub enum AskView {
    Idle,
    Open,
    Supply,
    Standby { report: Seq<u8> },
    Strip,
    Restore { reports: Seq<Seq<u8>> },
    SupplyAgain,
    Screens,
    Follow { reports: Seq<Seq<u8>> },
    Evaluate { dt: u128 },
    Listen,
    Hold { rpm: u16, mode: Mode },
    Publish { status: Option<ipc::StatusView> },
    Answer { reply: ipc::ReplyView },
    ListSensors,
    Gears,
    StoreGear { report: Seq<u8> },
    Light { wanted: Lighting, reports: Seq<Seq<u8>> },
    SetStandby { report: Seq<u8> },
    Save,
    Relight { reports: Seq<Seq<u8>> },
}

pub open spec fn status_view(status: Option<Status>) -> Option<ipc::StatusView> {
    match status {
        Some(status) => Some(status@),
        None => None,
    }
}

impl View for Ask {
    type V = AskView;

    open spec fn view(&self) -> AskView {
        match self {
            Ask::Idle => AskView::Idle,
            Ask::Open => AskView::Open,
            Ask::Supply => AskView::Supply,
            Ask::Standby { report } => AskView::Standby { report: report@ },
            Ask::Strip => AskView::Strip,
            Ask::Restore { reports } => AskView::Restore { reports: lighting::bytes_of(reports@) },
            Ask::SupplyAgain => AskView::SupplyAgain,
            Ask::Screens => AskView::Screens,
            Ask::Follow { reports } => AskView::Follow { reports: lighting::bytes_of(reports@) },
            Ask::Evaluate { dt } => AskView::Evaluate { dt: *dt },
            Ask::Listen => AskView::Listen,
            Ask::Hold { rpm, mode } => AskView::Hold { rpm: *rpm, mode: *mode },
            Ask::Publish { status } => AskView::Publish { status: status_view(*status) },
            Ask::Answer { reply } => AskView::Answer { reply: reply@ },
            Ask::ListSensors => AskView::ListSensors,
            Ask::Gears => AskView::Gears,
            Ask::StoreGear { report } => AskView::StoreGear { report: report@ },
            Ask::Light { wanted, reports } => AskView::Light {
                wanted: *wanted,
                reports: lighting::bytes_of(reports@),
            },
            Ask::SetStandby { report } => AskView::SetStandby { report: report@ },
            Ask::Save => AskView::Save,
            Ask::Relight { reports } => AskView::Relight { reports: lighting::bytes_of(reports@) },
        }
    }
}

/// Everything the control loop keeps between two events.
#[derive(Debug)]
pub struct Control {
    pub config: Config,
    /// Where the configuration lives, for messages.
    pub path: String,
    /// Can it be written back?
    pub writable: bool,
    /// The cooler that is open, if one is.
    pub model: Option<Model>,
    /// What the curves last asked for.
    pub demands: Vec<Demand>,
    /// The curve that leads, while any wants the fan to turn.
    pub leader: Option<Demand>,
    /// Curves that read nothing because the thing they watch is asleep, which
    /// is not the same as a sensor that is missing or broken.
    pub asleep: Vec<String>,
    /// Curves whose sensor is present and awake and still gave nothing.
    pub unreadable: Vec<String>,
    pub evaluated: Option<u64>,
    /// How long the cooler has been silent.
    pub missed: u64,
    pub searched: Option<u64>,
    /// Tracked so the target is only rewritten when it actually moves, and so a
    /// reconnect can restore it: realtime mode does not survive one.
    pub applied: Option<u16>,
    /// Since when every curve has been asking for a stopped fan.
    pub idle_since: Option<u64>,
    pub supply: Option<Supply>,
    /// The firmware measures its supply once per power-up and answers zero
    /// until it has, which takes up to three and a half seconds, so the first
    /// answer after a connection is often no answer at all.
    pub asked_supply_since: Option<u64>,
    pub strip_on: Option<bool>,
    /// Not left in the config alone: a client's stale copy would undo changes
    /// made since it last read one.
    pub manual_rpm: Option<u16>,
    pub lighting: Option<Lighting>,
    /// Bumped whenever the configuration changes under a client's feet. Status
    /// carries it; a client that sees it move refetches.
    pub revision: u64,
    /// What the cooler is believed to be holding, as opposed to what is wanted.
    ///
    /// Uploading an animation erases and rewrites a fixed page of the cooler's
    /// flash, and it keeps that page across a reconnect and a power cut - so
    /// replaying the upload every time the link comes back would spend an erase
    /// cycle to write bytes that are already there.
    pub uploaded: Option<Lighting>,
    /// Blanked is not a lighting state of its own: the wanted one stays put and
    /// comes back untouched, so a screen going off does not lose the colour.
    pub blanked: bool,
    pub screens_checked: Option<u64>,
    pub lit_before_blanking: bool,
    pub changed_while_blank: bool,
    /// The frame a speed is being applied for, and the speed.
    pub holding: Option<(protocol::Status, u16)>,
}

#[verifier::ext_equal]
pub struct ControlView {
    pub config: config::ConfigView,
    pub path: Seq<char>,
    pub writable: bool,
    pub model: Option<Model>,
    pub demands: Seq<curve::DemandView>,
    pub leader: Option<curve::DemandView>,
    pub asleep: Seq<Seq<char>>,
    pub unreadable: Seq<Seq<char>>,
    pub evaluated: Option<u64>,
    pub missed: u64,
    pub searched: Option<u64>,
    pub applied: Option<u16>,
    pub idle_since: Option<u64>,
    pub supply: Option<Supply>,
    pub asked_supply_since: Option<u64>,
    pub strip_on: Option<bool>,
    pub manual_rpm: Option<u16>,
    pub lighting: Option<Lighting>,
    pub revision: u64,
    pub uploaded: Option<Lighting>,
    pub blanked: bool,
    pub screens_checked: Option<u64>,
    pub lit_before_blanking: bool,
    pub changed_while_blank: bool,
    pub holding: Option<(protocol::Status, u16)>,
}

pub open spec fn demand_view(demand: Option<Demand>) -> Option<curve::DemandView> {
    match demand {
        Some(demand) => Some(demand@),
        None => None,
    }
}

impl View for Control {
    type V = ControlView;

    open spec fn view(&self) -> ControlView {
        ControlView {
            config: self.config@,
            path: self.path@,
            writable: self.writable,
            model: self.model,
            demands: curve::demand_views(self.demands@),
            leader: demand_view(self.leader),
            asleep: text::views(self.asleep@),
            unreadable: text::views(self.unreadable@),
            evaluated: self.evaluated,
            missed: self.missed,
            searched: self.searched,
            applied: self.applied,
            idle_since: self.idle_since,
            supply: self.supply,
            asked_supply_since: self.asked_supply_since,
            strip_on: self.strip_on,
            manual_rpm: self.manual_rpm,
            lighting: self.lighting,
            revision: self.revision,
            uploaded: self.uploaded,
            blanked: self.blanked,
            screens_checked: self.screens_checked,
            lit_before_blanking: self.lit_before_blanking,
            changed_while_blank: self.changed_while_blank,
            holding: self.holding,
        }
    }
}

impl ControlView {
    /// What holds between any two steps: the configuration carries the speed
    /// and the lighting that are in force, the leader leads the demands there
    /// are, a cooler that is gone holds no speed of ours, and silence is
    /// noticed before it lasts too long.
    pub open spec fn wf(self) -> bool {
        &&& self.config.manual_rpm == self.manual_rpm
        &&& self.config.lighting == self.lighting
        &&& self.leader == ControlView::leading(self.demands)
        &&& self.model is None ==> self.applied is None && self.holding is None
        &&& self.missed < SILENCE
    }

    /// A daemon that has just started.
    pub open spec fn started(
        config: config::ConfigView,
        path: Seq<char>,
        writable: bool,
    ) -> ControlView {
        ControlView {
            config,
            path,
            writable,
            model: None,
            demands: Seq::empty(),
            leader: None,
            asleep: Seq::empty(),
            unreadable: Seq::empty(),
            evaluated: None,
            missed: 0,
            searched: None,
            applied: None,
            idle_since: None,
            supply: None,
            asked_supply_since: None,
            strip_on: None,
            manual_rpm: config.manual_rpm,
            lighting: config.lighting,
            revision: 0,
            uploaded: None,
            blanked: false,
            screens_checked: None,
            lit_before_blanking: true,
            changed_while_blank: false,
            holding: None,
        }
    }

    // -- A tick -------------------------------------------------------------

    /// Polling for frames is cheap, but scanning sysfs for a cooler that is not
    /// there is not worth doing twenty times a second.
    pub open spec fn after_tick(self, now: u64) -> (ControlView, AskView) {
        if self.model is Some {
            self.settle_supply(now)
        } else if lapsed(self.searched, now, SILENCE) {
            (ControlView { searched: Some(now), ..self }, AskView::Open)
        } else {
            (self, AskView::Publish { status: None })
        }
    }

    /// A fresh connection is back in gear mode.
    pub open spec fn after_opened(self, model: Option<Model>) -> (ControlView, AskView) {
        match model {
            Some(model) => (
                ControlView { model: Some(model), applied: None, ..self },
                AskView::Supply,
            ),
            None => (self, AskView::Publish { status: None }),
        }
    }

    /// Standby is re-asserted on every connection: it is stored in the cooler,
    /// but the cooler is what we just met.
    pub open spec fn after_supply(self, supply: Option<Supply>, now: u64) -> (
        ControlView,
        AskView,
    ) {
        (
            ControlView { supply, asked_supply_since: Some(now), ..self },
            match self.config.standby {
                Some(standby) => AskView::Standby {
                    report: protocol::report_of(protocol::CMD_SET_STANDBY, seq![standby.byte()]),
                },
                None => AskView::Strip,
            },
        )
    }

    /// The lighting goes out against what the cooler already holds, not from
    /// scratch: a reconnect does not empty its flash.
    pub open spec fn after_strip(self, strip_on: Option<bool>, now: u64) -> (
        ControlView,
        AskView,
    ) {
        let next = ControlView { strip_on, ..self };
        match self.lighting {
            Some(lighting) => (
                next,
                AskView::Restore { reports: lighting.difference(self.uploaded) },
            ),
            None => next.settle_supply(now),
        }
    }

    pub open spec fn after_restored(self, taken: bool, now: u64) -> (ControlView, AskView) {
        (if taken {
            ControlView { uploaded: self.lighting, ..self }
        } else {
            self
        }).settle_supply(now)
    }

    /// Has the cooler said what supply it has?
    pub open spec fn supply_decided(self) -> bool {
        self.supply matches Some(supply) && supply != Supply::Unknown(0)
    }

    /// Ask again while the cooler is still making up its mind, and stop asking
    /// once it has or once it has had long enough.
    pub open spec fn settle_supply(self, now: u64) -> (ControlView, AskView) {
        match self.asked_supply_since {
            Some(asked) if !self.supply_decided() => if since(asked, now) < SUPPLY_SETTLE {
                (self, AskView::SupplyAgain)
            } else {
                (ControlView { asked_supply_since: None, ..self }).follow_screens(now)
            },
            _ => self.follow_screens(now),
        }
    }

    pub open spec fn after_supply_again(self, supply: Option<Supply>, now: u64) -> (
        ControlView,
        AskView,
    ) {
        let next = ControlView { supply, ..self };
        (if next.supply_decided() {
            ControlView { asked_supply_since: None, ..next }
        } else {
            next
        }).follow_screens(now)
    }

    pub open spec fn follow_screens(self, now: u64) -> (ControlView, AskView) {
        if self.config.lights_follow_screens && lapsed(self.screens_checked, now, SCREEN_POLL) {
            (ControlView { screens_checked: Some(now), ..self }, AskView::Screens)
        } else {
            self.evaluate(now)
        }
    }

    /// What brings the lights back, or puts them out.
    ///
    /// Power and indicators only, unless something was chosen in the dark: the
    /// pattern lives in the cooler's own flash, so putting the strip out and
    /// lighting it again brings back exactly what was showing.
    pub open spec fn screen_reports(self, dark: bool) -> Seq<Seq<u8>> {
        if dark {
            seq![lighting::power_report(false), lighting::indicator_report(false)]
        } else if self.changed_while_blank {
            self.lighting_or_default().difference(self.uploaded)
        } else {
            let indicators = lighting::indicator_report(
                match self.lighting {
                    Some(lighting) => lighting.indicators,
                    None => true,
                },
            );
            if self.lit_before_blanking {
                seq![lighting::power_report(true), indicators]
            } else {
                seq![indicators]
            }
        }
    }

    pub open spec fn lighting_or_default(self) -> Lighting {
        match self.lighting {
            Some(lighting) => lighting,
            None => Lighting { mode: LightMode::Off, brightness: 100, indicators: true },
        }
    }

    pub open spec fn after_screens(self, dark: Option<bool>, now: u64) -> (ControlView, AskView) {
        match dark {
            Some(dark) if dark != self.blanked => (
                if dark {
                    ControlView {
                        blanked: true,
                        lit_before_blanking: self.strip_on != Some(false),
                        changed_while_blank: false,
                        ..self
                    }
                } else if self.changed_while_blank {
                    ControlView {
                        blanked: false,
                        uploaded: Some(self.lighting_or_default()),
                        ..self
                    }
                } else {
                    ControlView { blanked: false, ..self }
                },
                AskView::Follow { reports: self.screen_reports(dark) },
            ),
            _ => self.evaluate(now),
        }
    }

    pub open spec fn after_followed(self, taken: bool, now: u64) -> (ControlView, AskView) {
        (if taken {
            ControlView { strip_on: Some(!self.blanked && self.lit_before_blanking), ..self }
        } else {
            self
        }).evaluate(now)
    }

    /// How often the curves are evaluated, in seconds.
    pub open spec fn interval(self) -> u64 {
        if self.config.interval_secs > 1 {
            self.config.interval_secs
        } else {
            1
        }
    }

    pub open spec fn evaluation_due(self, now: u64) -> bool {
        match self.evaluated {
            Some(last) => since(last, now) / SECOND >= self.interval(),
            None => true,
        }
    }

    pub open spec fn evaluate(self, now: u64) -> (ControlView, AskView) {
        (
            self,
            if self.evaluation_due(now) {
                AskView::Evaluate {
                    dt: match self.evaluated {
                        Some(last) => since(last, now) as u128,
                        None => (self.interval() * SECOND) as u128,
                    },
                }
            } else {
                AskView::Listen
            },
        )
    }

    /// Nothing leads a fan that every curve would have stopped.
    pub open spec fn leading(demands: Seq<curve::DemandView>) -> Option<curve::DemandView> {
        match curve::lead(demands) {
            Some(i) => if demands[i].rpm != STOP_RPM {
                Some(demands[i])
            } else {
                None
            },
            None => None,
        }
    }

    pub open spec fn after_evaluated(
        self,
        demands: Seq<curve::DemandView>,
        asleep: Seq<Seq<char>>,
        unreadable: Seq<Seq<char>>,
        now: u64,
    ) -> (ControlView, AskView) {
        (
            ControlView {
                demands,
                leader: ControlView::leading(demands),
                asleep,
                unreadable,
                evaluated: Some(now),
                ..self
            },
            AskView::Listen,
        )
    }

    // -- A frame ------------------------------------------------------------

    /// A manual speed overrides every curve, by design. With no leader but
    /// readings in hand, every curve is content and the answer is a stopped
    /// fan; with no readings at all there is nothing to say, so the cooler is
    /// left as it is.
    pub open spec fn asked(self) -> Option<u16> {
        match (self.manual_rpm, self.leader) {
            (Some(rpm), _) => Some(rpm),
            (None, Some(demand)) => Some(demand.rpm),
            (None, None) => if self.demands.len() > 0 {
                Some(STOP_RPM)
            } else {
                None
            },
        }
    }

    /// Sending more than the supply allows is not an error, the firmware just
    /// holds its ceiling - but then every number the daemon reports is a speed
    /// the fan is not running at.
    pub open spec fn affordable(self, rpm: u16) -> u16 {
        match self.supply {
            Some(supply) => if rpm > supply.limit() {
                supply.limit()
            } else {
                rpm
            },
            None => rpm,
        }
    }

    /// Since when the curves have been content, once they are.
    pub open spec fn content_since(self, now: u64) -> u64 {
        match self.idle_since {
            Some(since) => since,
            None => now,
        }
    }

    /// Do the curves, rather than a person, ask for a stop?
    pub open spec fn wants_stop(self) -> bool {
        match self.asked() {
            Some(rpm) => self.manual_rpm is None && self.affordable(rpm) == STOP_RPM,
            None => false,
        }
    }

    /// The speed to hold now, if any.
    ///
    /// Stopping is not symmetric with starting. Speeding up happens the moment
    /// a curve asks for it, but a stopped fan needs some 20 s of
    /// stall-and-retry before it turns again, so it stops only once the curves
    /// have held it there for a while. Asking for a stop by hand is honoured at
    /// once: that is a person, not a wobbling reading.
    pub open spec fn wanted(self, now: u64) -> Option<u16> {
        match self.asked() {
            Some(rpm) => if self.wants_stop() && self.applied != Some(STOP_RPM) && since(
                self.content_since(now),
                now,
            ) < STOP_AFTER {
                Some(MIN_RPM)
            } else {
                Some(self.affordable(rpm))
            },
            None => None,
        }
    }

    /// Does a wanted speed have to be written?
    ///
    /// When it moved enough to matter, and whenever the cooler has fallen back
    /// to gear mode or holds something else: the cooler reports what it was
    /// told to hold, and that is the only account worth trusting.
    pub open spec fn must_write(self, frame: protocol::Status, rpm: u16) -> bool {
        match self.applied {
            Some(last) => frame.mode != Mode::Realtime || frame.target_rpm != last || (if last
                > rpm {
                last - rpm
            } else {
                rpm - last
            }) >= self.config.hysteresis_rpm,
            None => true,
        }
    }

    /// What clients are shown of a cooler that is there.
    pub open spec fn picture(self, frame: protocol::Status) -> ipc::StatusView {
        ipc::StatusView {
            model: match self.model {
                Some(model) => model.label(),
                None => Seq::empty(),
            },
            connected: true,
            temp_c: match self.leader {
                Some(demand) => Some(demand.temp_c),
                None => None,
            },
            current_rpm: Some(frame.current_rpm),
            target_rpm: match self.applied {
                Some(rpm) => Some(rpm),
                None => Some(frame.target_rpm),
            },
            manual: self.manual_rpm is Some,
            manual_rpm: self.manual_rpm,
            supply: match self.supply {
                Some(supply) => Some(supply.label()),
                None => None,
            },
            supply_max_rpm: match self.supply {
                Some(supply) => if supply is Unknown {
                    None
                } else {
                    Some(supply.limit())
                },
                None => None,
            },
            lighting: self.lighting,
            strip_on: self.strip_on,
            leading: match self.leader {
                Some(demand) => Some(demand.name),
                None => None,
            },
            asleep: self.asleep,
            unreadable: self.unreadable,
            revision: self.revision,
            demands: self.demands,
        }
    }

    /// The cooler is gone.
    pub open spec fn lost(self) -> (ControlView, AskView) {
        (
            ControlView { model: None, applied: None, missed: 0, holding: None, ..self },
            AskView::Publish { status: None },
        )
    }

    pub open spec fn shown(self, frame: protocol::Status) -> (ControlView, AskView) {
        (self, AskView::Publish { status: Some(self.picture(frame)) })
    }

    pub open spec fn after_frame(self, frame: protocol::Status, now: u64) -> (
        ControlView,
        AskView,
    ) {
        let next = ControlView {
            missed: 0,
            idle_since: if self.wants_stop() {
                Some(self.content_since(now))
            } else {
                None
            },
            ..self
        };
        match self.wanted(now) {
            Some(rpm) => if self.must_write(frame, rpm) {
                (
                    ControlView { holding: Some((frame, rpm)), ..next },
                    AskView::Hold { rpm, mode: frame.mode },
                )
            } else {
                next.shown(frame)
            },
            None => next.shown(frame),
        }
    }

    /// A single quiet window means nothing: the cooler speaks when it feels
    /// like it, and a poll can simply fall between two of its frames.
    pub open spec fn after_silence(self, error: error::ErrorView) -> (ControlView, AskView) {
        if error is Disconnected {
            self.lost()
        } else if error is Timeout {
            if self.missed + FRAME_TIMEOUT >= SILENCE {
                self.lost()
            } else {
                (
                    ControlView { missed: (self.missed + FRAME_TIMEOUT) as u64, ..self },
                    AskView::Idle,
                )
            }
        } else {
            (self, AskView::Idle)
        }
    }

    pub open spec fn after_held(self, taken: bool) -> (ControlView, AskView) {
        match self.holding {
            Some((frame, rpm)) => if taken {
                (ControlView { applied: Some(rpm), holding: None, ..self }).shown(frame)
            } else {
                self.lost()
            },
            None => (self, AskView::Idle),
        }
    }

    // -- A changed file -----------------------------------------------------

    pub open spec fn bumped(self) -> u64 {
        if self.revision == u64::MAX {
            0
        } else {
            (self.revision + 1) as u64
        }
    }

    /// A file that says the same changes nothing. One that does not replaces
    /// the configuration, and with it the manual speed and the lighting where
    /// the file changed those. Its curves start over, so none of them has gone
    /// without a reading yet.
    pub open spec fn after_reload(self, fresh: config::ConfigView) -> (ControlView, AskView) {
        if fresh.equals(self.config) {
            (self, AskView::Idle)
        } else {
            let next = ControlView {
                revision: self.bumped(),
                manual_rpm: fresh.manual_rpm,
                lighting: fresh.lighting,
                config: fresh,
                asleep: Seq::empty(),
                unreadable: Seq::empty(),
                ..self
            };
            match (self.model, fresh.lighting) {
                (Some(_), Some(lighting)) => if fresh.lighting != self.config.lighting {
                    (next, AskView::Relight { reports: lighting.difference(self.uploaded) })
                } else {
                    (next, AskView::Idle)
                },
                _ => (next, AskView::Idle),
            }
        }
    }

    // -- Commands -----------------------------------------------------------

    pub open spec fn failed(message: Seq<char>) -> AskView {
        AskView::Answer { reply: ipc::ReplyView::Error { message } }
    }

    pub open spec fn done(warning: Option<ipc::WarningView>) -> AskView {
        AskView::Answer { reply: ipc::ReplyView::Done { warning } }
    }

    pub open spec fn no_cooler() -> AskView {
        ControlView::failed("no cooler"@)
    }

    /// Save the change, or say why it will not last.
    pub open spec fn persist(self) -> AskView {
        if self.writable {
            AskView::Save
        } else {
            ControlView::done(
                Some(
                    ipc::WarningView {
                        code: WarningCode::ConfigReadOnly,
                        message: self.path + " is read-only, change not saved"@,
                    },
                ),
            )
        }
    }

    /// The configuration a client sends replaces everything but the speed held
    /// by hand and the lighting, which have requests of their own. Its curves
    /// start over, so none of them has gone without a reading yet.
    ///
    /// The speed in force stays applied: the cooler is already holding what it
    /// was told, and a curve edit that leaves the demand where it was needs no
    /// word to the device.
    pub open spec fn after_set_config(self, fresh: config::ConfigView) -> (ControlView, AskView) {
        let next = ControlView {
            config: config::ConfigView {
                manual_rpm: self.manual_rpm,
                lighting: self.lighting,
                curves: config::tidied(fresh.curves),
                ..fresh
            },
            asleep: Seq::empty(),
            unreadable: Seq::empty(),
            revision: self.bumped(),
            ..self
        };
        (next, next.persist())
    }

    pub open spec fn out_of_range(rpm: u16) -> Seq<char> {
        "rpm "@ + text::dec(rpm as nat) + " out of range ("@ + text::dec(MIN_RPM as nat) + "-"@
            + text::dec(MAX_RPM as nat) + ")"@
    }

    pub open spec fn after_set_manual(self, rpm: Option<u16>) -> (ControlView, AskView) {
        let next = ControlView {
            manual_rpm: rpm,
            config: config::ConfigView { manual_rpm: rpm, ..self.config },
            ..self
        };
        match (rpm, self.supply) {
            (Some(rpm), _) if rpm != STOP_RPM && !(MIN_RPM <= rpm <= MAX_RPM) => (
                self,
                ControlView::failed(ControlView::out_of_range(rpm)),
            ),
            (Some(rpm), Some(supply)) if rpm > supply.limit() => (
                next,
                ControlView::done(
                    Some(
                        ipc::WarningView {
                            code: WarningCode::SupplyLimited,
                            message: "supply is "@ + supply.label() + ", holding "@ + text::dec(
                                supply.limit() as nat,
                            ) + " rpm instead of "@ + text::dec(rpm as nat),
                        },
                    ),
                ),
            ),
            _ => (next, ControlView::done(None)),
        }
    }

    /// The report that stores a gear speed, or what is wrong with asking.
    pub open spec fn gear_request(name: Seq<char>, rpm: u16) -> AskView {
        match protocol::Gear::named(name) {
            None => ControlView::failed("no gear called "@ + name),
            Some(gear) => if MIN_RPM <= rpm <= MAX_RPM {
                AskView::StoreGear {
                    report: protocol::report_of(
                        protocol::CMD_SET_GEAR_RPM,
                        seq![gear.index()->0] + protocol::le(rpm),
                    ),
                }
            } else {
                ControlView::failed(ControlView::out_of_range(rpm))
            },
        }
    }

    /// Lighting that was taken is what is wanted from now on.
    pub open spec fn lit(self, wanted: Lighting) -> ControlView {
        ControlView {
            lighting: Some(wanted),
            uploaded: if self.blanked {
                self.uploaded
            } else {
                Some(wanted)
            },
            config: config::ConfigView { lighting: Some(wanted), ..self.config },
            strip_on: Some(wanted.mode != LightMode::Off),
            ..self
        }
    }

    /// While the screens are off the cooler stays dark; the choice is
    /// remembered and shown when they are back rather than lighting an empty
    /// room.
    pub open spec fn after_set_lighting(self, wanted: Lighting) -> (ControlView, AskView) {
        if self.model is None {
            (self, ControlView::no_cooler())
        } else if self.blanked {
            (
                (ControlView { changed_while_blank: true, ..self }).lit(wanted),
                ControlView::done(None),
            )
        } else {
            (self, AskView::Light { wanted, reports: wanted.difference(self.uploaded) })
        }
    }

    pub open spec fn after_set_standby(self, standby: protocol::Standby) -> (
        ControlView,
        AskView,
    ) {
        (
            ControlView {
                config: config::ConfigView { standby: Some(standby), ..self.config },
                ..self
            },
            if self.model is Some {
                AskView::SetStandby {
                    report: protocol::report_of(protocol::CMD_SET_STANDBY, seq![standby.byte()]),
                }
            } else {
                ControlView::no_cooler()
            },
        )
    }

    pub open spec fn after_command(self, request: Request) -> (ControlView, AskView) {
        match request {
            Request::GetConfig => (
                self,
                AskView::Answer {
                    reply: ipc::ReplyView::Config { config: self.config, writable: self.writable },
                },
            ),
            Request::SetConfig { config } => self.after_set_config(config@),
            Request::SetManual { rpm } => self.after_set_manual(rpm),
            Request::Sensors => (self, AskView::ListSensors),
            Request::Gears => (
                self,
                if self.model is Some {
                    AskView::Gears
                } else {
                    ControlView::no_cooler()
                },
            ),
            Request::SetGear { gear, rpm } => (
                self,
                if self.model is Some {
                    ControlView::gear_request(gear@, rpm)
                } else {
                    ControlView::no_cooler()
                },
            ),
            Request::Light { light } => match light.change(self.lighting_or_default()) {
                Some(wanted) => self.after_set_lighting(wanted),
                None => (
                    self,
                    ControlView::failed(
                        match light {
                            ipc::Light::Static { color, .. } => "bad color: "@ + color@,
                            ipc::Light::Effect { mode } => "no effect "@ + text::dec(mode as nat),
                            _ => Seq::empty(),
                        },
                    ),
                ),
            },
            Request::SetLighting { lighting } => self.after_set_lighting(lighting),
            Request::SetStandby { standby } => self.after_set_standby(standby),
            Request::Status | Request::Subscribe => (self, AskView::Idle),
        }
    }

    /// What the cooler's gear table comes to for a client.
    pub open spec fn gears_reply(
        self,
        answer: Result<Seq<u8>, error::ErrorView>,
    ) -> ipc::ReplyView {
        match answer {
            Err(error) => ipc::ReplyView::Error { message: error.label() },
            Ok(payload) => if payload.len() < 8 {
                ipc::ReplyView::Error {
                    message: "the cooler answered with a gear table it does not have"@,
                }
            } else {
                ipc::ReplyView::Gears {
                    gears: Seq::new(
                        4,
                        |i: int|
                            ipc::GearView {
                                name: protocol::Gear::ALL@[i].label(),
                                rpm: protocol::table_entry(payload, i),
                                allowed: match self.supply {
                                    Some(supply) => supply.permits(protocol::Gear::ALL@[i]),
                                    None => true,
                                },
                            },
                    ),
                }
            },
        }
    }

    /// What storing a gear came to. Storing always works; running the gear is
    /// what a weak supply stops, so it is said which of the two just happened.
    pub open spec fn stored_reply(
        self,
        name: Seq<char>,
        answer: Result<u8, error::ErrorView>,
    ) -> ipc::ReplyView {
        match answer {
            Err(error) => ipc::ReplyView::Error { message: error.label() },
            Ok(0) => ipc::ReplyView::Error { message: "the cooler refused gear "@ + name },
            Ok(_) => ipc::ReplyView::Done {
                warning: match (self.supply, protocol::Gear::named(name)) {
                    (Some(supply), Some(gear)) => if supply.permits(gear) {
                        None
                    } else {
                        Some(
                            ipc::WarningView {
                                code: WarningCode::SupplyLimited,
                                message: "supply is "@ + supply.label()
                                    + ", so this gear will not run until it improves"@,
                            },
                        )
                    },
                    _ => None,
                },
            },
        }
    }

    pub open spec fn after_lit(
        self,
        wanted: Lighting,
        outcome: Result<(), error::ErrorView>,
    ) -> (ControlView, AskView) {
        match outcome {
            Ok(()) => (self.lit(wanted), ControlView::done(None)),
            Err(error) => (self, ControlView::failed(error.label())),
        }
    }

    pub open spec fn after_standby_sent(self, outcome: Result<u8, error::ErrorView>) -> AskView {
        match outcome {
            Ok(_) => self.persist(),
            Err(error) => ControlView::failed(error.label()),
        }
    }

    /// A change that could not be saved is still in force.
    pub open spec fn saved_reply(outcome: Result<(), Seq<char>>) -> ipc::ReplyView {
        ipc::ReplyView::Done {
            warning: match outcome {
                Ok(()) => None,
                Err(error) => Some(
                    ipc::WarningView {
                        code: WarningCode::ConfigSaveFailed,
                        message: "change applied but not saved: "@ + error,
                    },
                ),
            },
        }
    }
}

/// The supply a query was answered with, if it was answered.
pub open spec fn supply_in(payload: Option<Seq<u8>>) -> Option<Supply> {
    match payload {
        Some(payload) => if payload.len() > 0 {
            Some(Supply::of_byte(payload[0]))
        } else {
            None
        },
        None => None,
    }
}

/// Whether the strip is lit, as a query was answered.
pub open spec fn strip_in(payload: Option<Seq<u8>>) -> Option<bool> {
    match payload {
        Some(payload) => if payload.len() > 0 {
            Some(payload[0] != 0)
        } else {
            None
        },
        None => None,
    }
}

pub open spec fn bytes_view(payload: Option<Vec<u8>>) -> Option<Seq<u8>> {
    match payload {
        Some(payload) => Some(payload@),
        None => None,
    }
}

pub open spec fn outcome_view<T>(outcome: Result<T, Error>) -> Result<T, error::ErrorView> {
    match outcome {
        Ok(value) => Ok(value),
        Err(error) => Err(error@),
    }
}

pub open spec fn answer_view(answer: Result<Vec<u8>, Error>) -> Result<Seq<u8>, error::ErrorView> {
    match answer {
        Ok(payload) => Ok(payload@),
        Err(error) => Err(error@),
    }
}

/// What a query for the supply says, tolerating a device that does not know it.
pub fn read_supply(payload: &Option<Vec<u8>>) -> (supply: Option<Supply>)
    ensures
        supply == supply_in(bytes_view(*payload)),
{
    match payload {
        Some(payload) => if payload.len() > 0 {
            Some(Supply::from_byte(payload[0]))
        } else {
            None
        },
        None => None,
    }
}

fn read_strip(payload: &Option<Vec<u8>>) -> (strip_on: Option<bool>)
    ensures
        strip_on == strip_in(bytes_view(*payload)),
{
    match payload {
        Some(payload) => if payload.len() > 0 {
            Some(payload[0] != 0)
        } else {
            None
        },
        None => None,
    }
}

impl Control {
    pub fn new(config: Config, path: String, writable: bool) -> (control: Self)
        ensures
            control@ == ControlView::started(config@, path@, writable),
            control@.wf(),
    {
        let manual_rpm = config.manual_rpm;
        let lighting = config.lighting;
        let control = Control {
            config,
            path,
            writable,
            model: None,
            demands: Vec::new(),
            leader: None,
            asleep: Vec::new(),
            unreadable: Vec::new(),
            evaluated: None,
            missed: 0,
            searched: None,
            applied: None,
            idle_since: None,
            supply: None,
            asked_supply_since: None,
            strip_on: None,
            manual_rpm,
            lighting,
            revision: 0,
            uploaded: None,
            blanked: false,
            screens_checked: None,
            lit_before_blanking: true,
            changed_while_blank: false,
            holding: None,
        };
        proof {
            assert(control@ =~= ControlView::started(config@, path@, writable));
        }
        control
    }

    /// The clock went round.
    pub fn tick(&mut self, now: u64) -> (ask: Ask)
        requires
            old(self)@.wf(),
        ensures
            (final(self)@, ask@) == old(self)@.after_tick(now),
            final(self)@.wf(),
    {
        if self.model.is_some() {
            return self.settle_supply(now);
        }
        if is_due(self.searched, now, SILENCE) {
            self.searched = Some(now);
            Ask::Open
        } else {
            Ask::Publish { status: None }
        }
    }

    /// The search for a cooler is over.
    pub fn opened(&mut self, model: Option<Model>) -> (ask: Ask)
        requires
            old(self)@.wf(),
        ensures
            (final(self)@, ask@) == old(self)@.after_opened(model),
            final(self)@.wf(),
    {
        match model {
            Some(model) => {
                self.model = Some(model);
                self.applied = None;
                Ask::Supply
            },
            None => Ask::Publish { status: None },
        }
    }

    /// A cooler just met was asked for its supply.
    pub fn supply_answered(&mut self, payload: Option<Vec<u8>>, now: u64) -> (ask: Ask)
        requires
            old(self)@.wf(),
        ensures
            (final(self)@, ask@) == old(self)@.after_supply(
                supply_in(bytes_view(payload)),
                now,
            ),
            final(self)@.wf(),
    {
        self.supply = read_supply(&payload);
        self.asked_supply_since = Some(now);
        match self.config.standby {
            Some(standby) => Ask::Standby { report: protocol::set_standby(standby) },
            None => Ask::Strip,
        }
    }

    /// A cooler just met was told its standby setting. Whether it took it does
    /// not matter to what comes next.
    pub fn standby_asserted(&self) -> (ask: Ask)
        ensures
            ask@ == AskView::Strip,
    {
        Ask::Strip
    }

    /// A cooler just met was asked whether its strip is lit, which is the one
    /// thing about its lighting it will report.
    pub fn strip_answered(&mut self, payload: Option<Vec<u8>>, now: u64) -> (ask: Ask)
        requires
            old(self)@.wf(),
        ensures
            (final(self)@, ask@) == old(self)@.after_strip(strip_in(bytes_view(payload)), now),
            final(self)@.wf(),
    {
        self.strip_on = read_strip(&payload);
        match self.lighting {
            Some(lighting) => Ask::Restore { reports: lighting.reports(self.uploaded.as_ref()) },
            None => self.settle_supply(now),
        }
    }

    /// A cooler just met was sent its lighting.
    pub fn restored(&mut self, taken: bool, now: u64) -> (ask: Ask)
        requires
            old(self)@.wf(),
        ensures
            (final(self)@, ask@) == old(self)@.after_restored(taken, now),
            final(self)@.wf(),
    {
        if taken {
            self.uploaded = self.lighting;
        }
        self.settle_supply(now)
    }

    fn settle_supply(&mut self, now: u64) -> (ask: Ask)
        requires
            old(self)@.wf(),
        ensures
            (final(self)@, ask@) == old(self)@.settle_supply(now),
            final(self)@.wf(),
    {
        let decided = match self.supply {
            Some(supply) => supply.decided(),
            None => false,
        };
        if !decided {
            if let Some(asked) = self.asked_supply_since {
                if elapsed(asked, now) < SUPPLY_SETTLE {
                    return Ask::SupplyAgain;
                }
                self.asked_supply_since = None;
            }
        }
        self.follow_screens(now)
    }

    /// A cooler still making up its mind was asked for its supply again.
    pub fn supply_answered_again(&mut self, payload: Option<Vec<u8>>, now: u64) -> (ask: Ask)
        requires
            old(self)@.wf(),
        ensures
            (final(self)@, ask@) == old(self)@.after_supply_again(
                supply_in(bytes_view(payload)),
                now,
            ),
            final(self)@.wf(),
    {
        self.supply = read_supply(&payload);
        if let Some(supply) = self.supply {
            if supply.decided() {
                self.asked_supply_since = None;
            }
        }
        self.follow_screens(now)
    }

    fn follow_screens(&mut self, now: u64) -> (ask: Ask)
        requires
            old(self)@.wf(),
        ensures
            (final(self)@, ask@) == old(self)@.follow_screens(now),
            final(self)@.wf(),
    {
        if self.config.lights_follow_screens && is_due(self.screens_checked, now, SCREEN_POLL) {
            self.screens_checked = Some(now);
            return Ask::Screens;
        }
        self.evaluate(now)
    }

    /// Somebody looked at the screens.
    pub fn screens_seen(&mut self, dark: Option<bool>, now: u64) -> (ask: Ask)
        requires
            old(self)@.wf(),
        ensures
            (final(self)@, ask@) == old(self)@.after_screens(dark, now),
            final(self)@.wf(),
    {
        match dark {
            Some(dark) if dark != self.blanked => {
                let ghost before = self@;
                self.blanked = dark;
                let reports: Vec<[u8; REPORT_LEN]> = if dark {
                    self.lit_before_blanking = match self.strip_on {
                        Some(on) => on,
                        None => true,
                    };
                    self.changed_while_blank = false;
                    let mut reports: Vec<[u8; REPORT_LEN]> = Vec::new();
                    reports.push(protocol::light_off());
                    reports.push(protocol::gear_light(false));
                    reports
                } else if self.changed_while_blank {
                    let wanted = match self.lighting {
                        Some(lighting) => lighting,
                        None => Lighting::default(),
                    };
                    let reports = wanted.reports(self.uploaded.as_ref());
                    self.uploaded = Some(wanted);
                    reports
                } else {
                    let indicators = match self.lighting {
                        Some(lighting) => lighting.indicators,
                        None => true,
                    };
                    let mut reports: Vec<[u8; REPORT_LEN]> = Vec::new();
                    if self.lit_before_blanking {
                        reports.push(protocol::light_on());
                    }
                    reports.push(protocol::gear_light(indicators));
                    reports
                };
                proof {
                    assert(lighting::bytes_of(reports@) =~= before.screen_reports(dark));
                }
                Ask::Follow { reports }
            },
            _ => self.evaluate(now),
        }
    }

    /// The lights were told to follow the screens.
    pub fn followed(&mut self, taken: bool, now: u64) -> (ask: Ask)
        requires
            old(self)@.wf(),
        ensures
            (final(self)@, ask@) == old(self)@.after_followed(taken, now),
            final(self)@.wf(),
    {
        if taken {
            self.strip_on = Some(!self.blanked && self.lit_before_blanking);
        }
        self.evaluate(now)
    }

    fn evaluate(&mut self, now: u64) -> (ask: Ask)
        requires
            old(self)@.wf(),
        ensures
            (final(self)@, ask@) == old(self)@.evaluate(now),
            final(self)@.wf(),
    {
        let interval: u64 = if self.config.interval_secs > 1 {
            self.config.interval_secs
        } else {
            1
        };
        match self.evaluated {
            Some(last) => {
                let spent = elapsed(last, now);
                if spent / SECOND >= interval {
                    Ask::Evaluate { dt: spent as u128 }
                } else {
                    Ask::Listen
                }
            },
            None => {
                proof {
                    assert(interval * SECOND <= 0xFFFF_FFFF_FFFF_FFFF * 1_000_000_000);
                }
                Ask::Evaluate { dt: interval as u128 * SECOND as u128 }
            },
        }
    }

    /// Every curve was evaluated.
    pub fn evaluated(&mut self, outcome: Evaluation, now: u64) -> (ask: Ask)
        requires
            old(self)@.wf(),
        ensures
            (final(self)@, ask@) == old(self)@.after_evaluated(
                curve::demand_views(outcome.demands@),
                text::views(outcome.asleep@),
                text::views(outcome.unreadable@),
                now,
            ),
            final(self)@.wf(),
    {
        let Evaluation { demands, asleep, unreadable } = outcome;
        self.leader = match curve::winner(demands.as_slice()) {
            Some(demand) => if demand.rpm != STOP_RPM {
                proof {
                    curve::law_the_hungriest_demand_wins(curve::demand_views(demands@));
                }
                Some(demand.clone())
            } else {
                proof {
                    curve::law_the_hungriest_demand_wins(curve::demand_views(demands@));
                }
                None
            },
            None => None,
        };
        self.demands = demands;
        self.asleep = asleep;
        self.unreadable = unreadable;
        self.evaluated = Some(now);
        Ask::Listen
    }

    fn lost(&mut self) -> (ask: Ask)
        requires
            old(self)@.wf(),
        ensures
            (final(self)@, ask@) == old(self)@.lost(),
            final(self)@.wf(),
    {
        self.model = None;
        self.applied = None;
        self.missed = 0;
        self.holding = None;
        Ask::Publish { status: None }
    }

    fn picture(&self, frame: protocol::Status) -> (status: Status)
        ensures
            status@ == self@.picture(frame),
    {
        let status = Status {
            model: match self.model {
                Some(model) => model.name().to_owned(),
                None => String::new(),
            },
            connected: true,
            temp_c: match &self.leader {
                Some(demand) => Some(demand.temp_c),
                None => None,
            },
            current_rpm: Some(frame.current_rpm),
            target_rpm: match self.applied {
                Some(rpm) => Some(rpm),
                None => Some(frame.target_rpm),
            },
            manual: self.manual_rpm.is_some(),
            manual_rpm: self.manual_rpm,
            supply: match self.supply {
                Some(supply) => Some(supply.to_string()),
                None => None,
            },
            supply_max_rpm: match self.supply {
                Some(supply) => supply.known_max_rpm(),
                None => None,
            },
            lighting: self.lighting,
            strip_on: self.strip_on,
            leading: match &self.leader {
                Some(demand) => Some(demand.name.clone()),
                None => None,
            },
            asleep: text::clone_strings(&self.asleep),
            unreadable: text::clone_strings(&self.unreadable),
            revision: self.revision,
            demands: curve::clone_demands(&self.demands),
        };
        proof {
            assert(status@ =~= self@.picture(frame));
        }
        status
    }

    fn asked(&self) -> (rpm: Option<u16>)
        ensures
            rpm == self@.asked(),
    {
        match (self.manual_rpm, &self.leader) {
            (Some(rpm), _) => Some(rpm),
            (None, Some(demand)) => Some(demand.rpm),
            (None, None) => if self.demands.len() > 0 {
                Some(STOP_RPM)
            } else {
                None
            },
        }
    }

    fn affordable(&self, rpm: u16) -> (r: u16)
        ensures
            r == self@.affordable(rpm),
    {
        match self.supply {
            Some(supply) => if rpm > supply.max_rpm() {
                supply.max_rpm()
            } else {
                rpm
            },
            None => rpm,
        }
    }

    fn must_write(&self, frame: protocol::Status, rpm: u16) -> (r: bool)
        ensures
            r == self@.must_write(frame, rpm),
    {
        match self.applied {
            Some(last) => {
                let distance: u16 = if last > rpm {
                    last - rpm
                } else {
                    rpm - last
                };
                frame.mode != Mode::Realtime || frame.target_rpm != last || distance
                    >= self.config.hysteresis_rpm
            },
            None => true,
        }
    }

    /// The cooler reported itself.
    pub fn frame_read(&mut self, frame: protocol::Status, now: u64) -> (ask: Ask)
        requires
            old(self)@.wf(),
            old(self)@.model is Some,
        ensures
            (final(self)@, ask@) == old(self)@.after_frame(frame, now),
            final(self)@.wf(),
    {
        let ghost before = self@;
        self.missed = 0;
        let affordable = match self.asked() {
            Some(rpm) => Some(self.affordable(rpm)),
            None => None,
        };
        let wanted = match affordable {
            Some(STOP_RPM) if self.manual_rpm.is_none() => {
                let content = match self.idle_since {
                    Some(since) => since,
                    None => now,
                };
                self.idle_since = Some(content);
                if self.applied == Some(STOP_RPM) || elapsed(content, now) >= STOP_AFTER {
                    Some(STOP_RPM)
                } else {
                    Some(MIN_RPM)
                }
            },
            other => {
                self.idle_since = None;
                other
            },
        };
        proof {
            assert(wanted == before.wanted(now));
        }
        if let Some(rpm) = wanted {
            if self.must_write(frame, rpm) {
                self.holding = Some((frame, rpm));
                return Ask::Hold { rpm, mode: frame.mode };
            }
        }
        Ask::Publish { status: Some(self.picture(frame)) }
    }

    /// No frame came.
    pub fn frame_missed(&mut self, error: &Error) -> (ask: Ask)
        requires
            old(self)@.wf(),
        ensures
            (final(self)@, ask@) == old(self)@.after_silence(error@),
            final(self)@.wf(),
    {
        match error {
            Error::Disconnected => self.lost(),
            Error::Timeout => {
                if self.missed + FRAME_TIMEOUT >= SILENCE {
                    self.lost()
                } else {
                    self.missed = self.missed + FRAME_TIMEOUT;
                    Ask::Idle
                }
            },
            _ => Ask::Idle,
        }
    }

    /// The cooler was told to hold a speed, and did or did not take it.
    pub fn held(&mut self, taken: bool) -> (ask: Ask)
        requires
            old(self)@.wf(),
        ensures
            (final(self)@, ask@) == old(self)@.after_held(taken),
            final(self)@.wf(),
    {
        match self.holding {
            Some((frame, rpm)) => if taken {
                self.applied = Some(rpm);
                self.holding = None;
                Ask::Publish { status: Some(self.picture(frame)) }
            } else {
                self.lost()
            },
            None => Ask::Idle,
        }
    }

    /// Were the curves that were built at a revision built from a configuration
    /// that has been replaced since?
    pub fn outdated(&self, built: u64) -> (r: bool)
        ensures
            r == (self@.revision != built),
    {
        self.revision != built
    }

    /// The configuration is being replaced, and its curves start over.
    fn start_over(&mut self)
        ensures
            final(self)@ == (ControlView {
                revision: old(self)@.bumped(),
                asleep: Seq::empty(),
                unreadable: Seq::empty(),
                ..old(self)@
            }),
    {
        self.asleep = Vec::new();
        self.unreadable = Vec::new();
        proof {
            assert(text::views(self.asleep@) =~= Seq::<Seq<char>>::empty());
            assert(text::views(self.unreadable@) =~= Seq::<Seq<char>>::empty());
        }
        self.revision = if self.revision == u64::MAX {
            0
        } else {
            self.revision + 1
        };
    }

    /// The config file may have changed. One that cannot be read or understood
    /// changes nothing.
    pub fn config_changed(&mut self, fresh: Result<Config, ConfigError>) -> (ask: Ask)
        requires
            old(self)@.wf(),
        ensures
            (final(self)@, ask@) == (match fresh {
                Ok(fresh) => old(self)@.after_reload(fresh@),
                Err(_) => (old(self)@, AskView::Idle),
            }),
            final(self)@.wf(),
    {
        match fresh {
            Err(_) => Ask::Idle,
            Ok(fresh) => {
                if fresh == self.config {
                    return Ask::Idle;
                }
                let relight = fresh.lighting != self.config.lighting;
                self.start_over();
                self.manual_rpm = fresh.manual_rpm;
                self.lighting = fresh.lighting;
                self.config = fresh;
                match self.lighting {
                    Some(lighting) if relight && self.model.is_some() => Ask::Relight {
                        reports: lighting.reports(self.uploaded.as_ref()),
                    },
                    _ => Ask::Idle,
                }
            },
        }
    }

    /// The lighting a changed file asks for was sent.
    pub fn relit(&mut self, taken: bool)
        requires
            old(self)@.wf(),
        ensures
            final(self)@ == (if taken {
                ControlView { uploaded: old(self)@.lighting, ..old(self)@ }
            } else {
                old(self)@
            }),
            final(self)@.wf(),
    {
        if taken {
            self.uploaded = self.lighting;
        }
    }

    fn persist(&self) -> (ask: Ask)
        ensures
            ask@ == self@.persist(),
    {
        if self.writable {
            return Ask::Save;
        }
        let message = text::joined(self.path.as_str(), " is read-only, change not saved");
        Ask::Answer {
            reply: Reply::Done {
                warning: Some(Warning { code: WarningCode::ConfigReadOnly, message }),
            },
        }
    }

    fn set_config(&mut self, fresh: Config) -> (ask: Ask)
        requires
            old(self)@.wf(),
        ensures
            (final(self)@, ask@) == old(self)@.after_set_config(fresh@),
            final(self)@.wf(),
    {
        let mut fresh = fresh;
        fresh.manual_rpm = self.manual_rpm;
        fresh.lighting = self.lighting;
        config::sort_curves(&mut fresh.curves);
        self.config = fresh;
        self.start_over();
        self.persist()
    }

    fn set_manual(&mut self, rpm: Option<u16>) -> (ask: Ask)
        requires
            old(self)@.wf(),
        ensures
            (final(self)@, ask@) == old(self)@.after_set_manual(rpm),
            final(self)@.wf(),
    {
        if let Some(rpm) = rpm {
            if rpm != STOP_RPM && !(MIN_RPM <= rpm && rpm <= MAX_RPM) {
                return Ask::Answer { reply: Reply::Error { message: out_of_range(rpm) } };
            }
        }
        self.manual_rpm = rpm;
        self.config.manual_rpm = rpm;
        let warning = match (rpm, self.supply) {
            (Some(rpm), Some(supply)) if rpm > supply.max_rpm() => {
                let mut message = text::joined("supply is ", supply.to_string().as_str());
                message.append(", holding ");
                text::push_dec(&mut message, supply.max_rpm() as u64);
                message.append(" rpm instead of ");
                text::push_dec(&mut message, rpm as u64);
                Some(Warning { code: WarningCode::SupplyLimited, message })
            },
            _ => None,
        };
        Ask::Answer { reply: Reply::Done { warning } }
    }

    fn set_lighting(&mut self, wanted: Lighting) -> (ask: Ask)
        requires
            old(self)@.wf(),
        ensures
            (final(self)@, ask@) == old(self)@.after_set_lighting(wanted),
            final(self)@.wf(),
    {
        if self.model.is_none() {
            return no_cooler();
        }
        if self.blanked {
            self.changed_while_blank = true;
            self.lit(wanted);
            return Ask::Answer { reply: Reply::Done { warning: None } };
        }
        Ask::Light { wanted, reports: wanted.reports(self.uploaded.as_ref()) }
    }

    fn lit(&mut self, wanted: Lighting)
        requires
            old(self)@.wf(),
        ensures
            final(self)@ == old(self)@.lit(wanted),
            final(self)@.wf(),
    {
        self.lighting = Some(wanted);
        if !self.blanked {
            self.uploaded = Some(wanted);
        }
        self.config.lighting = Some(wanted);
        self.strip_on = Some(wanted.mode != LightMode::Off);
    }

    /// A client asks for something.
    ///
    /// Status is served from the snapshot and subscriptions are kept with the
    /// client, so neither gets this far.
    pub fn command(&mut self, request: Request) -> (ask: Ask)
        requires
            old(self)@.wf(),
            !(request is Status),
            !(request is Subscribe),
        ensures
            (final(self)@, ask@) == old(self)@.after_command(request),
            final(self)@.wf(),
    {
        match request {
            Request::GetConfig => Ask::Answer {
                reply: Reply::Config { config: self.config.clone(), writable: self.writable },
            },
            Request::SetConfig { config } => self.set_config(config),
            Request::SetManual { rpm } => self.set_manual(rpm),
            Request::Sensors => Ask::ListSensors,
            Request::Gears => if self.model.is_some() {
                Ask::Gears
            } else {
                no_cooler()
            },
            Request::SetGear { gear, rpm } => if self.model.is_some() {
                gear_request(gear.as_str(), rpm)
            } else {
                no_cooler()
            },
            Request::Light { light } => {
                let from = match self.lighting {
                    Some(lighting) => lighting,
                    None => Lighting::default(),
                };
                match light.applied(from) {
                    Ok(wanted) => self.set_lighting(wanted),
                    Err(message) => Ask::Answer { reply: Reply::Error { message } },
                }
            },
            Request::SetLighting { lighting } => self.set_lighting(lighting),
            Request::SetStandby { standby } => {
                self.config.standby = Some(standby);
                if self.model.is_some() {
                    Ask::SetStandby { report: protocol::set_standby(standby) }
                } else {
                    no_cooler()
                }
            },
            Request::Status | Request::Subscribe => Ask::Idle,
        }
    }

    /// The cooler was asked for its gear table.
    pub fn gears_answered(&self, answer: Result<Vec<u8>, Error>) -> (reply: Reply)
        ensures
            reply@ == self@.gears_reply(answer_view(answer)),
    {
        let payload = match answer {
            Ok(payload) => payload,
            Err(error) => return Reply::Error { message: error.to_string() },
        };
        let table = match protocol::parse_gear_table(payload.as_slice()) {
            Some(table) => table,
            None => return Reply::Error {
                message: "the cooler answered with a gear table it does not have".to_owned(),
            },
        };
        let all = protocol::Gear::ALL;
        let mut gears: Vec<ipc::Gear> = Vec::new();
        let mut i: usize = 0;
        while i < 4
            invariant
                i <= 4,
                gears@.len() == i,
                all@ == protocol::Gear::ALL@,
                all@.len() == 4,
                payload@.len() >= 8,
                table@ == seq![
                    protocol::table_entry(payload@, 0),
                    protocol::table_entry(payload@, 1),
                    protocol::table_entry(payload@, 2),
                    protocol::table_entry(payload@, 3),
                ],
                forall|k: int|
                    0 <= k < i ==> (#[trigger] gears@[k])@ == (ipc::GearView {
                        name: protocol::Gear::ALL@[k].label(),
                        rpm: protocol::table_entry(payload@, k),
                        allowed: match self@.supply {
                            Some(supply) => supply.permits(protocol::Gear::ALL@[k]),
                            None => true,
                        },
                    }),
            decreases 4 - i,
        {
            let gear = all[i];
            let allowed = match self.supply {
                Some(supply) => supply.allows(gear),
                None => true,
            };
            gears.push(ipc::Gear { name: gear.to_string(), rpm: table[i], allowed });
            i += 1;
        }
        let reply = Reply::Gears { gears };
        proof {
            assert(ipc::gear_views(gears@) =~= self@.gears_reply(Ok(payload@))->gears);
        }
        reply
    }

    /// The cooler was told to store a gear speed.
    pub fn gear_stored(&self, name: &str, answer: Result<u8, Error>) -> (reply: Reply)
        ensures
            reply@ == self@.stored_reply(name@, outcome_view(answer)),
    {
        match answer {
            Err(error) => Reply::Error { message: error.to_string() },
            Ok(0) => Reply::Error { message: text::joined("the cooler refused gear ", name) },
            Ok(_) => {
                let warning = match (self.supply, named_gear(name)) {
                    (Some(supply), Some(gear)) => if supply.allows(gear) {
                        None
                    } else {
                        let mut message = text::joined("supply is ", supply.to_string().as_str());
                        message.append(", so this gear will not run until it improves");
                        Some(Warning { code: WarningCode::SupplyLimited, message })
                    },
                    _ => None,
                };
                Reply::Done { warning }
            },
        }
    }

    /// The lighting a client asked for was sent.
    pub fn light_sent(&mut self, wanted: Lighting, outcome: Result<(), Error>) -> (ask: Ask)
        requires
            old(self)@.wf(),
        ensures
            (final(self)@, ask@) == old(self)@.after_lit(wanted, outcome_view(outcome)),
            final(self)@.wf(),
    {
        match outcome {
            Ok(()) => {
                self.lit(wanted);
                Ask::Answer { reply: Reply::Done { warning: None } }
            },
            Err(error) => Ask::Answer { reply: Reply::Error { message: error.to_string() } },
        }
    }

    /// The standby setting a client asked for was sent.
    pub fn standby_sent(&self, outcome: Result<u8, Error>) -> (ask: Ask)
        ensures
            ask@ == self@.after_standby_sent(outcome_view(outcome)),
    {
        match outcome {
            Ok(_) => self.persist(),
            Err(error) => Ask::Answer { reply: Reply::Error { message: error.to_string() } },
        }
    }
}

/// Saving the configuration succeeded or failed.
pub fn saved(outcome: Result<(), ConfigError>) -> (reply: Reply)
    ensures
        reply@ == ControlView::saved_reply(
            match outcome {
                Ok(()) => Ok(()),
                Err(error) => Err(error.label()),
            },
        ),
{
    match outcome {
        Ok(()) => Reply::Done { warning: None },
        Err(error) => Reply::Done {
            warning: Some(
                Warning {
                    code: WarningCode::ConfigSaveFailed,
                    message: text::joined(
                        "change applied but not saved: ",
                        error.to_string().as_str(),
                    ),
                },
            ),
        },
    }
}

fn no_cooler() -> (ask: Ask)
    ensures
        ask@ == ControlView::no_cooler(),
{
    Ask::Answer { reply: Reply::Error { message: "no cooler".to_owned() } }
}

fn out_of_range(rpm: u16) -> (message: String)
    ensures
        message@ == ControlView::out_of_range(rpm),
{
    let mut message = "rpm ".to_owned();
    text::push_dec(&mut message, rpm as u64);
    message.append(" out of range (");
    text::push_dec(&mut message, MIN_RPM as u64);
    message.append("-");
    text::push_dec(&mut message, MAX_RPM as u64);
    message.append(")");
    message
}

fn named_gear(name: &str) -> (gear: Option<protocol::Gear>)
    ensures
        gear == protocol::Gear::named(name@),
{
    match <protocol::Gear as std::str::FromStr>::from_str(name) {
        Ok(gear) => Some(gear),
        Err(()) => None,
    }
}

fn gear_request(name: &str, rpm: u16) -> (ask: Ask)
    ensures
        ask@ == ControlView::gear_request(name@, rpm),
{
    let gear = match named_gear(name) {
        Some(gear) => gear,
        None => return Ask::Answer {
            reply: Reply::Error { message: text::joined("no gear called ", name) },
        },
    };
    if !(MIN_RPM <= rpm && rpm <= MAX_RPM) {
        return Ask::Answer { reply: Reply::Error { message: out_of_range(rpm) } };
    }
    match protocol::set_gear_rpm(gear, rpm) {
        Some(report) => Ask::StoreGear { report },
        None => Ask::Answer {
            reply: Reply::Error { message: text::joined("no gear called ", name) },
        },
    }
}

/// What evaluating every curve came to.
#[derive(Debug)]
pub struct Evaluation {
    pub demands: Vec<Demand>,
    pub asleep: Vec<String>,
    pub unreadable: Vec<String>,
}

// ---------------------------------------------------------------------------
// Holding a speed

/// Where holding a speed has got to.
#[derive(Debug, Clone, Copy, PartialEq, Eq, Structural)]
pub enum Hold {
    /// Realtime mode is being entered; the cooler wants a pause afterwards.
    Entering { again: bool },
    /// The speed is being written.
    Writing { again: bool },
}

/// What an acknowledgement means for it.
#[derive(Debug)]
pub enum Held {
    /// There is more to send.
    More(Hold),
    /// The cooler holds the speed.
    Taken,
    Failed(Error),
}

#[verifier::ext_equal]
pub enum HeldView {
    More(Hold),
    Taken,
    Failed(error::ErrorView),
}

impl View for Held {
    type V = HeldView;

    open spec fn view(&self) -> HeldView {
        match self {
            Held::More(hold) => HeldView::More(*hold),
            Held::Taken => HeldView::Taken,
            Held::Failed(error) => HeldView::Failed(error@),
        }
    }
}

impl Hold {
    /// Entering costs an acknowledgement and a pause for the firmware to
    /// settle, which is most of the time this takes - and is wasted when the
    /// cooler is already there, which it is for every write after the first.
    pub open spec fn first(mode: Mode) -> Hold {
        if mode == Mode::Realtime {
            Hold::Writing { again: false }
        } else {
            Hold::Entering { again: false }
        }
    }

    pub open spec fn bytes(self, rpm: u16) -> Seq<u8> {
        match self {
            Hold::Entering { .. } => protocol::report_of(
                protocol::CMD_ENTER_REALTIME,
                Seq::empty(),
            ),
            Hold::Writing { .. } => protocol::report_of(
                protocol::CMD_SET_REALTIME_RPM,
                protocol::le(rpm),
            ),
        }
    }

    /// The speed itself is acknowledged with `01` when it was taken and `02`
    /// when the cooler was not in realtime after all, in which case it is
    /// dropped. That byte is the difference between a speed applied and a speed
    /// imagined, so it is tried once more from the top.
    pub open spec fn next(self, rpm: u16, answer: Result<u8, error::ErrorView>) -> HeldView {
        match (self, answer) {
            (_, Err(error)) => HeldView::Failed(error),
            (Hold::Entering { again }, Ok(_)) => HeldView::More(Hold::Writing { again }),
            (Hold::Writing { again }, Ok(ack)) => if ack == 1 {
                HeldView::Taken
            } else if again {
                HeldView::Failed(
                    error::ErrorView::Config(
                        "the cooler will not hold "@ + text::dec(rpm as nat) + " rpm"@,
                    ),
                )
            } else {
                HeldView::More(Hold::Entering { again: true })
            },
        }
    }

    pub fn begin(mode: Mode) -> (hold: Self)
        ensures
            hold == Hold::first(mode),
    {
        if mode != Mode::Realtime {
            Self::Entering { again: false }
        } else {
            Self::Writing { again: false }
        }
    }

    /// What to send at this point.
    pub fn report(self, rpm: u16) -> (report: [u8; REPORT_LEN])
        ensures
            report@ == self.bytes(rpm),
            protocol::acceptable(report@),
    {
        match self {
            Self::Entering { .. } => protocol::enter_realtime(),
            Self::Writing { .. } => protocol::set_realtime_rpm(rpm),
        }
    }

    /// The cooler acknowledged it, or did not.
    pub fn acknowledged(self, rpm: u16, answer: Result<u8, Error>) -> (held: Held)
        ensures
            held@ == self.next(rpm, outcome_view(answer)),
    {
        let ack = match answer {
            Ok(ack) => ack,
            Err(error) => return Held::Failed(error),
        };
        match self {
            Self::Entering { again } => Held::More(Self::Writing { again }),
            Self::Writing { again } => if ack == 1 {
                Held::Taken
            } else if again {
                let mut message = "the cooler will not hold ".to_owned();
                text::push_dec(&mut message, rpm as u64);
                message.append(" rpm");
                Held::Failed(Error::Config(message))
            } else {
                Held::More(Self::Entering { again: true })
            },
        }
    }

    /// How many reports this can still take.
    pub open spec fn left(self) -> nat {
        match self {
            Hold::Entering { again: false } => 4,
            Hold::Writing { again: false } => 3,
            Hold::Entering { again: true } => 2,
            Hold::Writing { again: true } => 1,
        }
    }
}

/// A speed counts as held only when the cooler answers that it is, and trying
/// ends after four reports at most.
pub proof fn law_holding_ends(hold: Hold, rpm: u16, answer: Result<u8, error::ErrorView>)
    ensures
        1 <= hold.left() <= 4,
        hold.next(rpm, answer) matches HeldView::More(next) ==> next.left() < hold.left(),
        hold.next(rpm, answer) is Taken ==> hold is Writing && answer == Ok::<
            u8,
            error::ErrorView,
        >(1),
{
}

// ---------------------------------------------------------------------------
// Sending a burst

/// A run of reports on its way to the cooler, one acknowledged after the other.
///
/// Lighting arrives as a burst, and the cooler drops reports that come too
/// close together.
#[derive(Debug)]
pub struct Burst {
    pub reports: Vec<[u8; REPORT_LEN]>,
    pub sent: usize,
}

impl Burst {
    /// What is still to be sent.
    pub open spec fn left(self) -> Seq<Seq<u8>> {
        lighting::bytes_of(self.reports@).skip(self.sent as int)
    }

    pub open spec fn wf(self) -> bool {
        self.sent <= self.reports@.len()
    }

    pub fn new(reports: Vec<[u8; REPORT_LEN]>) -> (burst: Self)
        ensures
            burst.wf(),
            burst.left() == lighting::bytes_of(reports@),
    {
        let burst = Burst { reports, sent: 0 };
        proof {
            assert(burst.left() =~= lighting::bytes_of(reports@));
        }
        burst
    }

    /// The report to send next; none when all are through.
    pub fn next(&self) -> (report: Option<[u8; REPORT_LEN]>)
        requires
            self.wf(),
        ensures
            match report {
                Some(report) => self.left().len() > 0 && report@ == self.left()[0],
                None => self.left().len() == 0,
            },
    {
        if self.sent < self.reports.len() {
            Some(self.reports[self.sent])
        } else {
            None
        }
    }

    /// The report was acknowledged, or the burst is over: nothing more is sent
    /// after one that was not.
    pub fn acknowledged(&mut self, answer: Result<u8, Error>) -> (outcome: Result<(), Error>)
        requires
            old(self).wf(),
            old(self).left().len() > 0,
        ensures
            final(self).wf(),
            match answer {
                Ok(_) => outcome is Ok && final(self).left() == old(self).left().drop_first(),
                Err(error) => outcome == Err::<(), Error>(error) && *final(self) == *old(self),
            },
    {
        match answer {
            Ok(_) => {
                if self.sent < self.reports.len() {
                    self.sent = self.sent + 1;
                }
                proof {
                    assert(self.left() =~= old(self).left().drop_first());
                }
                Ok(())
            },
            Err(error) => Err(error),
        }
    }
}

// ---------------------------------------------------------------------------
// What the loop promises

/// A speed held by hand wins over every curve, up to what the supply allows.
pub proof fn law_manual_overrides_the_curves(c: ControlView, rpm: u16, now: u64)
    requires
        c.manual_rpm == Some(rpm),
    ensures
        c.wanted(now) == Some(c.affordable(rpm)),
{
}

/// No speed beyond what the supply allows is ever asked of the cooler.
pub proof fn law_never_above_the_supply(c: ControlView, supply: Supply, now: u64)
    requires
        c.supply == Some(supply),
    ensures
        c.wanted(now) matches Some(rpm) ==> rpm <= supply.limit() <= MAX_RPM,
{
}

/// Speeding up happens the moment a curve asks for it.
pub proof fn law_speeding_up_is_immediate(c: ControlView, now: u64)
    requires
        c.wf(),
        c.manual_rpm is None,
        c.leader is Some,
    ensures
        c.wanted(now) == Some(c.affordable(c.leader->0.rpm)),
        c.wanted(now)->0 > STOP_RPM,
{
}

/// Unless a person asked for it or the fan stands still already, it stops only
/// once the curves have agreed on that for a minute.
pub proof fn law_stopping_waits(c: ControlView, now: u64)
    requires
        c.wanted(now) == Some(STOP_RPM),
    ensures
        c.manual_rpm == Some(STOP_RPM) || c.applied == Some(STOP_RPM) || (c.idle_since matches Some(
            content,
        ) && since(content, now) >= STOP_AFTER),
{
}

/// While the minute is not up the fan turns as slowly as it can.
pub proof fn law_waiting_to_stop_idles(c: ControlView, now: u64)
    requires
        c.manual_rpm is None,
        c.asked() == Some(STOP_RPM),
        c.applied != Some(STOP_RPM),
        since(c.content_since(now), now) < STOP_AFTER,
    ensures
        c.wanted(now) == Some(MIN_RPM),
{
}

/// With no reading at all and no speed held by hand, the cooler is left as it
/// is.
pub proof fn law_no_reading_says_nothing(c: ControlView, frame: protocol::Status, now: u64)
    requires
        c.wf(),
        c.manual_rpm is None,
        c.demands.len() == 0,
    ensures
        c.wanted(now) is None,
        c.after_frame(frame, now).1 is Publish,
{
}

/// Every curve content is a stopped fan, with nobody leading it.
pub proof fn law_content_curves_ask_for_a_stop(c: ControlView)
    requires
        c.wf(),
        c.manual_rpm is None,
        c.demands.len() > 0,
        forall|i: int| 0 <= i < c.demands.len() ==> (#[trigger] c.demands[i]).rpm == STOP_RPM,
    ensures
        c.asked() == Some(STOP_RPM),
        c.leader is None,
{
    curve::law_the_hungriest_demand_wins(c.demands);
}

/// A cooler that fell back to gear mode - a reconnect or the button does that -
/// is told its speed again.
pub proof fn law_gear_mode_is_overruled(
    c: ControlView,
    frame: protocol::Status,
    rpm: u16,
    now: u64,
)
    requires
        frame.mode == Mode::Gear,
        c.wanted(now) == Some(rpm),
    ensures
        c.after_frame(frame, now).1 == (AskView::Hold { rpm, mode: Mode::Gear }),
{
}

/// So is one that holds something other than it was told.
pub proof fn law_drift_is_corrected(
    c: ControlView,
    frame: protocol::Status,
    rpm: u16,
    last: u16,
    now: u64,
)
    requires
        c.applied == Some(last),
        frame.target_rpm != last,
        c.wanted(now) == Some(rpm),
    ensures
        c.after_frame(frame, now).1 == (AskView::Hold { rpm, mode: frame.mode }),
{
}

/// A speed the cooler already holds is not written again.
pub proof fn law_a_held_speed_is_left_alone(
    c: ControlView,
    frame: protocol::Status,
    rpm: u16,
    now: u64,
)
    requires
        c.wanted(now) == Some(rpm),
        c.applied == Some(rpm),
        frame.mode == Mode::Realtime,
        frame.target_rpm == rpm,
        c.config.hysteresis_rpm > 0,
    ensures
        c.after_frame(frame, now).1 is Publish,
{
}

/// What a cooler holds is forgotten with it: the first speed wanted after a
/// reconnect is always written.
pub proof fn law_a_reconnect_writes_again(
    c: ControlView,
    model: Model,
    frame: protocol::Status,
    rpm: u16,
)
    ensures
        c.after_opened(Some(model)).0.must_write(frame, rpm),
        c.lost().0.applied is None,
        c.lost().0.model is None,
{
}

/// Nothing between here and the next status frame touches the lighting or what
/// the cooler is believed to hold.
proof fn lemma_settling_keeps_the_lighting(c: ControlView, now: u64)
    ensures
        c.settle_supply(now).0.lighting == c.lighting,
        c.settle_supply(now).0.uploaded == c.uploaded,
{
}

/// Lighting a cooler has taken is not uploaded again when the link comes back:
/// a reconnect costs its flash nothing.
pub proof fn law_reconnects_upload_nothing(
    c: ControlView,
    lighting: Lighting,
    model: Model,
    supply: Option<Supply>,
    strip_on: Option<bool>,
    now: u64,
    later: u64,
)
    requires
        c.lighting == Some(lighting),
    ensures
        ({
            let taken = c.after_restored(true, now).0;
            let back = taken.lost().0.after_opened(Some(model)).0.after_supply(supply, later).0;
            back.after_strip(strip_on, later).1 == AskView::Restore { reports: Seq::empty() }
        }),
{
    lemma_settling_keeps_the_lighting(ControlView { uploaded: c.lighting, ..c }, now);
    lighting::law_no_change_sends_nothing(lighting);
}

/// Whenever a cooler is met, it is told its standby setting again.
pub proof fn law_standby_is_asserted_on_every_connection(
    c: ControlView,
    standby: protocol::Standby,
    model: Model,
    supply: Option<Supply>,
    now: u64,
)
    requires
        c.config.standby == Some(standby),
    ensures
        c.after_opened(Some(model)).0.after_supply(supply, now).1 == (AskView::Standby {
            report: protocol::report_of(protocol::CMD_SET_STANDBY, seq![standby.byte()]),
        }),
{
}

/// Lighting a config declares reaches every cooler that is met: the first one in
/// full, and one that already holds other lighting as far as that differs.
pub proof fn law_lighting_is_restored_on_every_connection(
    c: ControlView,
    lighting: Lighting,
    model: Model,
    supply: Option<Supply>,
    strip_on: Option<bool>,
    now: u64,
)
    requires
        c.lighting == Some(lighting),
    ensures
        ({
            let met = c.after_opened(Some(model)).0.after_supply(supply, now).0;
            met.after_strip(strip_on, now).1 == AskView::Restore {
                reports: lighting.difference(c.uploaded),
            }
        }),
        lighting.difference(None) == lighting.strip_reports()
            + seq![lighting::indicator_report(lighting.indicators)],
{
}

/// A configuration that cannot be written back is in force all the same, and the
/// client is told under a code of its own that it will not last.
pub proof fn law_read_only_changes_still_apply(c: ControlView, fresh: config::ConfigView)
    requires
        !c.writable,
    ensures
        c.after_set_config(fresh).0.config == (config::ConfigView {
            manual_rpm: c.manual_rpm,
            lighting: c.lighting,
            curves: config::tidied(fresh.curves),
            ..fresh
        }),
        c.after_set_config(fresh).1 matches AskView::Answer {
            reply: ipc::ReplyView::Done { warning: Some(warning) },
        } && warning.code == WarningCode::ConfigReadOnly,
{
}

/// The configuration a client sends does not undo a speed held by hand or the
/// lighting, and leaves the speed the cooler holds alone.
pub proof fn law_set_config_keeps_what_is_in_force(c: ControlView, fresh: config::ConfigView)
    ensures
        ({
            let next = c.after_set_config(fresh).0;
            &&& next.manual_rpm == c.manual_rpm
            &&& next.lighting == c.lighting
            &&& next.applied == c.applied
            &&& next.config.manual_rpm == c.manual_rpm
            &&& next.config.lighting == c.lighting
            &&& next.revision != c.revision
        }),
{
}

/// Clients are told to refetch exactly when the configuration was replaced:
/// by a client, or by a file that says something else.
pub proof fn law_revision_moves_with_the_configuration(
    c: ControlView,
    request: Request,
    fresh: config::ConfigView,
)
    ensures
        c.after_command(request).0.revision != c.revision <==> request is SetConfig,
        c.after_reload(fresh).0.revision != c.revision <==> !fresh.equals(c.config),
{
}

/// Nobody is told of a curve the configuration in force may not have: replacing
/// it forgets which curves went without a reading.
pub proof fn law_replaced_curves_are_forgotten(c: ControlView, fresh: config::ConfigView)
    ensures
        c.after_set_config(fresh).0.asleep.len() == 0,
        c.after_set_config(fresh).0.unreadable.len() == 0,
        !fresh.equals(c.config) ==> c.after_reload(fresh).0.asleep.len() == 0 && c.after_reload(
            fresh,
        ).0.unreadable.len() == 0,
{
}

/// While the screens are dark, choosing a lighting sends the cooler nothing.
pub proof fn law_dark_rooms_stay_dark(c: ControlView, wanted: Lighting)
    requires
        c.blanked,
        c.model is Some,
    ensures
        c.after_set_lighting(wanted).1 == ControlView::done(None),
        c.after_set_lighting(wanted).0.uploaded == c.uploaded,
        c.after_set_lighting(wanted).0.lighting == Some(wanted),
{
}

/// With nothing to judge the screens by, the lights are left alone.
pub proof fn law_unjudged_screens_change_nothing(c: ControlView, now: u64)
    ensures
        c.after_screens(None, now).0 == c,
        !(c.after_screens(None, now).1 is Follow),
{
}

/// Screens going off and coming back with nothing chosen in between leave the
/// lighting as it was: two reports put the lights out and at most two bring
/// them back, none of them an upload, and the strip is as lit as it was.
pub proof fn law_screens_going_off_lose_nothing(
    c: ControlView,
    on: bool,
    now: u64,
    later: u64,
)
    requires
        !c.blanked,
        c.strip_on == Some(on),
    ensures
        ({
            let (off, out) = c.after_screens(Some(true), now);
            let dark = off.after_followed(true, now).0;
            let (back, again) = dark.after_screens(Some(false), later);
            let lit = back.after_followed(true, later).0;
            &&& out == AskView::Follow {
                reports: seq![lighting::power_report(false), lighting::indicator_report(false)],
            }
            &&& again matches AskView::Follow { reports } && reports == (if on {
                seq![
                    lighting::power_report(true),
                    lighting::indicator_report(
                        match c.lighting {
                            Some(lighting) => lighting.indicators,
                            None => true,
                        },
                    ),
                ]
            } else {
                seq![
                    lighting::indicator_report(
                        match c.lighting {
                            Some(lighting) => lighting.indicators,
                            None => true,
                        },
                    ),
                ]
            })
            &&& lit.lighting == c.lighting
            &&& lit.uploaded == c.uploaded
            &&& lit.strip_on == c.strip_on
            &&& !lit.blanked
        }),
{
}

/// The state after a number of quiet windows.
pub open spec fn silent(c: ControlView, windows: nat) -> ControlView
    decreases windows,
{
    if windows == 0 {
        c
    } else {
        silent(c, (windows - 1) as nat).after_silence(error::ErrorView::Timeout).0
    }
}

/// A cooler is given three seconds of silence, and no more.
pub proof fn law_silence_is_tolerated_for_a_while(c: ControlView, windows: nat)
    requires
        c.model is Some,
        c.missed == 0,
        windows <= 75,
    ensures
        windows < 75 ==> silent(c, windows).model == c.model && silent(c, windows).missed
            == windows * FRAME_TIMEOUT,
        windows == 75 ==> silent(c, windows).model is None,
    decreases windows,
{
    if windows > 0 {
        law_silence_is_tolerated_for_a_while(c, (windows - 1) as nat);
    }
}

/// Is everything a step has sent to the cooler fit to be sent?
pub open spec fn harmless(ask: AskView) -> bool {
    match ask {
        AskView::Standby { report } => protocol::acceptable(report),
        AskView::StoreGear { report } => protocol::acceptable(report),
        AskView::SetStandby { report } => protocol::acceptable(report),
        AskView::Restore { reports } => all_acceptable(reports),
        AskView::Follow { reports } => all_acceptable(reports),
        AskView::Light { reports, .. } => all_acceptable(reports),
        AskView::Relight { reports } => all_acceptable(reports),
        _ => true,
    }
}

pub open spec fn all_acceptable(reports: Seq<Seq<u8>>) -> bool {
    forall|i: int| 0 <= i < reports.len() ==> #[trigger] protocol::acceptable(reports[i])
}

proof fn lemma_power_and_indicators_are_acceptable(on: bool)
    ensures
        protocol::acceptable(lighting::power_report(on)),
        protocol::acceptable(lighting::indicator_report(on)),
{
    let byte: u8 = if on {
        1u8
    } else {
        0u8
    };
    protocol::law_reports_are_acceptable(protocol::CMD_LIGHT_POWER, seq![byte]);
    protocol::law_reports_are_acceptable(protocol::CMD_GEAR_LIGHT, seq![byte]);
}

/// Whatever a step of a tick sends is fit to be sent.
pub proof fn law_ticks_send_nothing_harmful(
    c: ControlView,
    supply: Option<Supply>,
    strip_on: Option<bool>,
    dark: Option<bool>,
    now: u64,
)
    ensures
        harmless(c.after_tick(now).1),
        harmless(c.after_supply(supply, now).1),
        harmless(c.after_strip(strip_on, now).1),
        harmless(c.after_screens(dark, now).1),
{
    if let Some(standby) = c.config.standby {
        protocol::law_reports_are_acceptable(protocol::CMD_SET_STANDBY, seq![standby.byte()]);
    }
    if let Some(lighting) = c.lighting {
        lighting::law_lighting_is_acceptable(lighting, c.uploaded);
    }
    lighting::law_lighting_is_acceptable(c.lighting_or_default(), c.uploaded);
    lemma_power_and_indicators_are_acceptable(true);
    lemma_power_and_indicators_are_acceptable(false);
}

/// Whatever a client asks for, or a changed file, is fit to be sent.
pub proof fn law_requests_send_nothing_harmful(
    c: ControlView,
    request: Request,
    fresh: config::ConfigView,
)
    ensures
        harmless(c.after_command(request).1),
        harmless(c.after_reload(fresh).1),
{
    if let Some(lighting) = fresh.lighting {
        lighting::law_lighting_is_acceptable(lighting, c.uploaded);
    }
    match request {
        Request::SetLighting { lighting } => {
            lighting::law_lighting_is_acceptable(lighting, c.uploaded);
        },
        Request::Light { light } => {
            if let Some(lighting) = light.change(c.lighting_or_default()) {
                lighting::law_lighting_is_acceptable(lighting, c.uploaded);
            }
        },
        Request::SetStandby { standby } => {
            protocol::law_reports_are_acceptable(protocol::CMD_SET_STANDBY, seq![standby.byte()]);
        },
        Request::SetGear { gear, rpm } => {
            if let Some(slot) = protocol::Gear::named(gear@) {
                protocol::law_reports_are_acceptable(
                    protocol::CMD_SET_GEAR_RPM,
                    seq![slot.index()->0] + protocol::le(rpm),
                );
            }
        },
        _ => {},
    }
}

// ---------------------------------------------------------------------------
// What the cooler is told, from end to end

/// The most a cooler may run at: what its supply allows, or the rated ceiling
/// while that is not known.
pub open spec fn ceiling(supply: Option<Supply>, rpm: u16) -> u16 {
    match supply {
        Some(Supply::Low) => if rpm > 2700 {
            2700
        } else {
            rpm
        },
        Some(Supply::Medium) => if rpm > 3300 {
            3300
        } else {
            rpm
        },
        Some(_) => if rpm > 4000 {
            4000
        } else {
            rpm
        },
        None => rpm,
    }
}

/// With a cooler in realtime mode that holds what it was told, a wanted speed is
/// written exactly when it is at least the hysteresis away from that, upwards or
/// downwards. Otherwise the cooler is left alone and shown.
pub proof fn law_a_speed_is_written_when_it_moved_enough(
    c: ControlView,
    frame: protocol::Status,
    last: u16,
    rpm: u16,
    now: u64,
)
    requires
        c.applied == Some(last),
        frame.mode == Mode::Realtime,
        frame.target_rpm == last,
        c.wanted(now) == Some(rpm),
    ensures
        last - rpm >= c.config.hysteresis_rpm || rpm - last >= c.config.hysteresis_rpm
            ==> c.after_frame(frame, now).1 == (AskView::Hold { rpm, mode: Mode::Realtime }),
        last - rpm < c.config.hysteresis_rpm && rpm - last < c.config.hysteresis_rpm
            ==> c.after_frame(frame, now).1 is Publish,
{
}

/// A speed is written in whatever mode the cooler says it is in, and the frame
/// is remembered with it; with nothing applied yet every wanted speed is.
pub proof fn law_the_first_speed_is_written(
    c: ControlView,
    frame: protocol::Status,
    rpm: u16,
    now: u64,
)
    requires
        c.wanted(now) == Some(rpm),
        c.applied is None || c.applied != Some(frame.target_rpm) || frame.mode == Mode::Gear,
    ensures
        c.after_frame(frame, now).1 == (AskView::Hold { rpm, mode: frame.mode }),
        c.after_frame(frame, now).0.holding == Some((frame, rpm)),
        c.after_frame(frame, now).0.applied == c.applied,
{
}

/// A speed asked for by hand reaches the cooler as it is, or as far as the
/// supply allows, whatever the curves say and however long ago they said it.
pub proof fn law_a_manual_speed_reaches_the_cooler(
    c: ControlView,
    frame: protocol::Status,
    rpm: u16,
    now: u64,
)
    requires
        rpm == 0 || 500 <= rpm <= 4000,
        c.applied is None,
    ensures
        c.after_set_manual(Some(rpm)).0.after_frame(frame, now).1 == (AskView::Hold {
            rpm: ceiling(c.supply, rpm),
            mode: frame.mode,
        }),
{
}

/// What the curves ask for reaches the cooler the same way: the most that any of
/// them wants, as far as the supply allows.
pub proof fn law_the_hungriest_curve_reaches_the_cooler(
    c: ControlView,
    demands: Seq<curve::DemandView>,
    asleep: Seq<Seq<char>>,
    unreadable: Seq<Seq<char>>,
    frame: protocol::Status,
    top: int,
    now: u64,
    later: u64,
)
    requires
        c.manual_rpm is None,
        c.applied is None,
        0 <= top < demands.len(),
        demands[top].rpm > 0,
        forall|i: int| 0 <= i < demands.len() ==> (#[trigger] demands[i]).rpm <= demands[top].rpm,
    ensures
        ({
            let ready = c.after_evaluated(demands, asleep, unreadable, now).0;
            ready.after_frame(frame, later).1 == (AskView::Hold {
                rpm: ceiling(c.supply, demands[top].rpm),
                mode: frame.mode,
            })
        }),
{
    curve::law_the_hungriest_demand_wins(demands);
}

/// A speed that was taken is the one applied from then on, so a cooler that goes
/// on to report it is told nothing more while the wish stays within the
/// hysteresis; one that was not taken loses the cooler.
pub proof fn law_what_was_taken_is_applied(
    c: ControlView,
    frame: protocol::Status,
    rpm: u16,
)
    requires
        c.holding == Some((frame, rpm)),
    ensures
        c.after_held(true).0.applied == Some(rpm),
        c.after_held(true).0.holding is None,
        c.after_held(true).0.model == c.model,
        c.after_held(true).1 matches AskView::Publish { status: Some(status) }
            && status.target_rpm == Some(rpm) && status.current_rpm == Some(frame.current_rpm),
        c.after_held(false).0.model is None,
        c.after_held(false).0.applied is None,
        c.after_held(false).1 == (AskView::Publish { status: None }),
{
}

/// From the frame on that finds every curve content the clock runs, and as long
/// as it runs the fan keeps turning at its slowest; once a minute has passed it
/// is stopped.
pub proof fn law_a_stop_takes_a_minute(
    c: ControlView,
    first: protocol::Status,
    then: protocol::Status,
    start: u64,
    now: u64,
)
    requires
        c.wf(),
        c.manual_rpm is None,
        c.demands.len() > 0,
        forall|i: int| 0 <= i < c.demands.len() ==> (#[trigger] c.demands[i]).rpm == 0,
        c.applied is None,
        c.idle_since is None,
        start <= now,
    ensures
        c.after_frame(first, start).0.idle_since == Some(start),
        c.after_frame(first, start).1 == (AskView::Hold { rpm: 500, mode: first.mode }),
        c.after_frame(first, start).0.after_frame(then, now).0.idle_since == Some(start),
        c.after_frame(first, start).0.after_frame(then, now).1 == (AskView::Hold {
            rpm: if now - start < 60_000_000_000 {
                500
            } else {
                0
            },
            mode: then.mode,
        }),
{
    law_content_curves_ask_for_a_stop(c);
}

/// A stopped fan stays stopped while the curves are content.
pub proof fn law_a_stopped_fan_stays_stopped(c: ControlView, now: u64)
    requires
        c.wf(),
        c.manual_rpm is None,
        c.demands.len() > 0,
        forall|i: int| 0 <= i < c.demands.len() ==> (#[trigger] c.demands[i]).rpm == 0,
        c.applied == Some(0u16),
    ensures
        c.wanted(now) == Some(0u16),
{
    law_content_curves_ask_for_a_stop(c);
}

/// One curve that wants the fan to turn, or a speed asked for by hand, resets
/// the clock: the minute starts over with the next content frame.
pub proof fn law_a_busy_frame_resets_the_clock(
    c: ControlView,
    frame: protocol::Status,
    i: int,
    now: u64,
)
    requires
        c.wf(),
        c.manual_rpm is Some || c.demands.len() == 0 || (0 <= i < c.demands.len()
            && c.demands[i].rpm > 0),
    ensures
        c.after_frame(frame, now).0.idle_since is None,
        c.after_frame(frame, now).0.missed == 0,
{
    curve::law_the_hungriest_demand_wins(c.demands);
}

/// What is shown of a cooler names the model, the speed it runs at and the speed
/// it was told, and the curve that leads with the temperature that curve reads.
pub proof fn law_the_picture_is_of_what_is_there(
    c: ControlView,
    frame: protocol::Status,
    model: Model,
    top: int,
)
    requires
        c.wf(),
        c.model == Some(model),
    ensures
        ({
            let status = c.picture(frame);
            &&& status.connected
            &&& status.model == model.label()
            &&& status.current_rpm == Some(frame.current_rpm)
            &&& status.target_rpm == (if c.applied is Some {
                c.applied
            } else {
                Some(frame.target_rpm)
            })
            &&& status.manual == (status.manual_rpm is Some) && status.manual_rpm == c.manual_rpm
            &&& status.lighting == c.lighting && status.strip_on == c.strip_on
            &&& status.revision == c.revision
            &&& status.demands == c.demands
            &&& status.asleep == c.asleep && status.unreadable == c.unreadable
            &&& status.supply_max_rpm matches Some(most) ==> ceiling(c.supply, 65535) == most
            &&& c.supply matches Some(supply) ==> status.supply == Some(supply.label()) && (
            status.supply_max_rpm is None <==> supply is Unknown)
            &&& c.supply is None ==> status.supply is None && status.supply_max_rpm is None
            &&& status.leading is Some <==> status.temp_c is Some
            &&& 0 <= top < c.demands.len() && c.demands[top].rpm > 0 ==> status.leading is Some
            &&& 0 <= top < c.demands.len() && c.demands[top].rpm > 0 && (forall|i: int|
                0 <= i < c.demands.len() && i != top ==> (#[trigger] c.demands[i]).rpm
                    < c.demands[top].rpm) ==> status.leading == Some(c.demands[top].name)
                && status.temp_c == Some(c.demands[top].temp_c)
            &&& (forall|i: int| 0 <= i < c.demands.len() ==> (#[trigger] c.demands[i]).rpm == 0)
                ==> status.leading is None
        }),
{
    curve::law_the_hungriest_demand_wins(c.demands);
}

/// A cooler that is not there is looked for at once and then every three
/// seconds, and clients are told in between that there is none.
pub proof fn law_a_missing_cooler_is_looked_for(c: ControlView, last: u64, now: u64)
    requires
        c.model is None,
        last <= now,
    ensures
        c.searched is None ==> c.after_tick(now).1 is Open,
        c.searched == Some(last) ==> (c.after_tick(now).1 is Open <==> now - last
            >= 3_000_000_000),
        c.after_tick(now).1 is Open ==> c.after_tick(now).0.searched == Some(now),
        !(c.after_tick(now).1 is Open) ==> c.after_tick(now).1 == (AskView::Publish {
            status: None,
        }) && c.after_tick(now).0 == c,
{
}

/// A cooler that is met is asked for its supply, then told its standby setting
/// if there is one, then asked for its strip, then sent its lighting if there is
/// any; what it answered is what is kept.
pub proof fn law_a_cooler_just_met_is_set_up(
    c: ControlView,
    model: Model,
    supply: Option<Supply>,
    strip_on: Option<bool>,
    now: u64,
)
    ensures
        ({
            let (met, ask) = c.after_opened(Some(model));
            let (fed, then) = met.after_supply(supply, now);
            let (seen, last) = fed.after_strip(strip_on, now);
            &&& ask is Supply && met.model == Some(model) && met.applied is None
            &&& fed.supply == supply && fed.asked_supply_since == Some(now)
            &&& c.config.standby is None ==> then is Strip
            &&& c.config.standby matches Some(standby) ==> (then matches AskView::Standby { report }
                && report[3] == 0x0D && report[4] == 3 && protocol::Standby::of_mode_byte(
                (4 * report[5]) as u8,
            ) == standby)
            &&& seen.strip_on == strip_on
            &&& c.lighting is Some ==> last is Restore
            &&& c.lighting is None ==> !(last is Restore)
            &&& c.after_opened(None).0 == c
            &&& c.after_opened(None).1 == (AskView::Publish { status: None })
        }),
{
    if let Some(standby) = c.config.standby {
        protocol::law_a_standby_setting_reads_back(standby, 0);
    }
}

/// A cooler answers a query for its supply with the level in the first byte, and
/// one for its strip with zero when that is dark. No answer, or an empty one,
/// says nothing.
pub proof fn law_answers_are_in_the_first_byte(payload: Seq<u8>)
    ensures
        payload.len() > 0 ==> supply_in(Some(payload)) == Some(Supply::of_byte(payload[0])),
        payload.len() > 0 ==> strip_in(Some(payload)) == Some(payload[0] != 0),
        payload.len() == 0 ==> supply_in(Some(payload)) is None && strip_in(Some(payload)) is None,
        supply_in(None) is None && strip_in(None) is None,
{
}

/// A supply that the cooler has not decided on is asked for again for five
/// seconds, and neither before nor after it has been decided or given up.
pub proof fn law_an_undecided_supply_is_asked_for_again(c: ControlView, asked: u64, now: u64)
    requires
        c.model is Some,
        c.asked_supply_since == Some(asked),
        asked <= now,
    ensures
        ({
            let undecided = c.supply is None || c.supply == Some(Supply::Unknown(0));
            &&& c.after_tick(now).1 is SupplyAgain <==> undecided && now - asked < 5_000_000_000
            &&& undecided && now - asked >= 5_000_000_000 ==> c.after_tick(
                now,
            ).0.asked_supply_since is None
            &&& c.after_tick(now).1 is SupplyAgain ==> c.after_tick(now).0 == c
        }),
{
}

/// What a cooler answers when it is asked again is kept, and ends the asking
/// once it is a level.
pub proof fn law_a_decided_supply_ends_the_asking(
    c: ControlView,
    supply: Option<Supply>,
    now: u64,
)
    ensures
        c.after_supply_again(supply, now).0.supply == supply,
        supply is Some && supply != Some(Supply::Unknown(0)) ==> c.after_supply_again(
            supply,
            now,
        ).0.asked_supply_since is None,
        supply is None || supply == Some(Supply::Unknown(0)) ==> c.after_supply_again(
            supply,
            now,
        ).0.asked_supply_since == c.asked_supply_since,
{
}

/// The screens are looked at once a second, and only if the lights are to follow
/// them.
pub proof fn law_screens_are_looked_at_every_second(c: ControlView, last: u64, now: u64)
    requires
        c.model is Some,
        c.asked_supply_since is None,
        last <= now,
    ensures
        !c.config.lights_follow_screens ==> !(c.after_tick(now).1 is Screens),
        c.config.lights_follow_screens && c.screens_checked is None ==> c.after_tick(
            now,
        ).1 is Screens,
        c.config.lights_follow_screens && c.screens_checked == Some(last) ==> (c.after_tick(
            now,
        ).1 is Screens <==> now - last >= 1_000_000_000),
        c.after_tick(now).1 is Screens ==> c.after_tick(now).0.screens_checked == Some(now),
{
}

/// The curves are evaluated at once and then whenever as many whole seconds have
/// passed as the configuration says, or one if it says none; in between the
/// cooler is listened to. What has passed is handed on.
pub proof fn law_curves_are_evaluated_on_schedule(c: ControlView, last: u64, now: u64)
    requires
        last <= now,
    ensures
        ({
            let secs = if c.config.interval_secs == 0 {
                1int
            } else {
                c.config.interval_secs as int
            };
            let (next, ask) = c.evaluate(now);
            &&& next == c
            &&& c.evaluated is None ==> (ask matches AskView::Evaluate { dt } && dt == secs
                * 1_000_000_000)
            &&& c.evaluated == Some(last) && now - last >= secs * 1_000_000_000 ==> (ask matches
                AskView::Evaluate { dt } && dt == now - last)
            &&& c.evaluated == Some(last) && now - last < secs * 1_000_000_000 ==> ask is Listen
        }),
{
}

/// What the curves came to replaces what they came to before, and is due again
/// from then on.
pub proof fn law_an_evaluation_replaces_the_last(
    c: ControlView,
    demands: Seq<curve::DemandView>,
    asleep: Seq<Seq<char>>,
    unreadable: Seq<Seq<char>>,
    now: u64,
)
    ensures
        ({
            let (next, ask) = c.after_evaluated(demands, asleep, unreadable, now);
            &&& ask is Listen
            &&& next.demands == demands && next.asleep == asleep && next.unreadable == unreadable
            &&& next.evaluated == Some(now)
            &&& next.applied == c.applied && next.manual_rpm == c.manual_rpm && next.model
                == c.model && next.config == c.config && next.idle_since == c.idle_since
            &&& next.leader is Some <==> exists|i: int|
                0 <= i < demands.len() && (#[trigger] demands[i]).rpm > 0
            &&& next.leader matches Some(leader) ==> demands.contains(leader) && (forall|i: int|
                0 <= i < demands.len() ==> (#[trigger] demands[i]).rpm <= leader.rpm)
        }),
{
    curve::law_the_hungriest_demand_wins(demands);
    if let Some(i) = curve::lead(demands) {
        assert(demands.contains(demands[i]));
    }
}

/// A cooler that unplugs is gone at once, a fault that is neither that nor
/// silence changes nothing, and one that speaks has its silence forgiven.
pub proof fn law_faults_and_silence(
    c: ControlView,
    error: error::ErrorView,
    frame: protocol::Status,
    now: u64,
)
    ensures
        error is Disconnected ==> c.after_silence(error).0.model is None && c.after_silence(error).1
            == (AskView::Publish { status: None }),
        !(error is Disconnected) && !(error is Timeout) ==> c.after_silence(error).0 == c
            && c.after_silence(error).1 is Idle,
        error is Timeout ==> (c.after_silence(error).0.model is None <==> c.model is None
            || c.missed + 40_000_000 >= 3_000_000_000),
        c.after_frame(frame, now).0.missed == 0,
{
}

/// A speed to be held by hand is taken exactly when it is none, a stop, or
/// within what the fan can run at; one that is refused changes nothing.
pub proof fn law_manual_speeds_are_taken_or_refused(c: ControlView, rpm: Option<u16>)
    ensures
        ({
            let (next, ask) = c.after_set_manual(rpm);
            let fine = rpm is None || rpm == Some(0u16) || 500 <= rpm->0 <= 4000;
            &&& fine ==> next == (ControlView {
                manual_rpm: rpm,
                config: config::ConfigView { manual_rpm: rpm, ..c.config },
                ..c
            })
            &&& !fine ==> next == c
            &&& fine <==> (ask matches AskView::Answer { reply: ipc::ReplyView::Done { .. } })
            &&& !fine <==> (ask matches AskView::Answer { reply: ipc::ReplyView::Error { .. } })
            &&& ask matches AskView::Answer { reply: ipc::ReplyView::Done { warning } } ==> (
            warning is Some <==> rpm is Some && ceiling(c.supply, rpm->0) < rpm->0)
            &&& ask matches AskView::Answer {
                reply: ipc::ReplyView::Done { warning: Some(warning) },
            } ==> warning.code == WarningCode::SupplyLimited
        }),
{
}

/// Letting go of a speed held by hand gives the fan back to the curves, as if it
/// had never been held.
pub proof fn law_letting_go_gives_the_fan_back(c: ControlView, rpm: u16, now: u64)
    requires
        c.wf(),
        c.manual_rpm is None,
    ensures
        c.after_set_manual(Some(rpm)).0.after_set_manual(None).0 == c,
        c.after_set_manual(None).0 == c,
{
    assert(c.after_set_manual(Some(rpm)).0.after_set_manual(None).0 =~= c);
    assert(c.after_set_manual(None).0 =~= c);
}

/// Storing a gear sends one report, with the gear's place in the order the
/// device cycles them and the speed, low byte first; a gear there is not or a
/// speed the fan cannot run at sends nothing and says so.
pub proof fn law_gears_are_stored_by_their_place(name: Seq<char>, rpm: u16, i: int)
    requires
        0 <= i < 4,
    ensures
        ({
            let ask = ControlView::gear_request(name, rpm);
            let names = seq!["quiet"@, "standard"@, "strong"@, "overclock"@];
            &&& name == names[i] && 500 <= rpm <= 4000 ==> (ask matches AskView::StoreGear {
                report,
            } && report[3] == 0x26 && report[4] == 5 && report[5] == i && report[6] + 256
                * report[7] == rpm)
            &&& ask is StoreGear ==> 500 <= rpm <= 4000 && names.contains(name)
            &&& !(ask is StoreGear) ==> ask matches AskView::Answer {
                reply: ipc::ReplyView::Error { .. },
            }
        }),
{
    let names = seq!["quiet"@, "standard"@, "strong"@, "overclock"@];
    protocol::law_gears_are_named_in_order(i, name);
    protocol::law_each_gear_has_a_slot_of_its_own(i);
    if let Some(gear) = protocol::Gear::named(name) {
        protocol::law_gear_names_read_back(gear);
        let slot = gear.index()->0 as int;
        protocol::law_gears_are_named_in_order(slot, name);
        assert(names[slot] == name);
    }
}

/// The gear table is handed out gear by gear in the order the device cycles
/// them: the stored speed of each, and whether the supply runs it.
pub proof fn law_the_gear_table_is_handed_out(c: ControlView, payload: Seq<u8>, i: int)
    requires
        0 <= i < 4,
    ensures
        payload.len() >= 8 ==> (c.gears_reply(Ok(payload)) matches ipc::ReplyView::Gears { gears }
            && gears.len() == 4 && gears[i].name == seq![
            "quiet"@,
            "standard"@,
            "strong"@,
            "overclock"@,
        ][i] && gears[i].rpm == payload[2 * i] + 256 * payload[2 * i + 1] && (gears[i].allowed
            <==> (match c.supply {
            Some(Supply::Low) => i <= 1,
            Some(Supply::Medium) => i <= 2,
            _ => true,
        }))),
        payload.len() < 8 ==> c.gears_reply(Ok(payload)) is Error,
{
    protocol::law_each_gear_has_a_slot_of_its_own(i);
}

/// A speed that the cooler took for a gear the supply does not run is stored
/// with a warning, any other without; a zero for an answer is a refusal.
pub proof fn law_stored_gears_are_answered_for(c: ControlView, i: int, ack: u8)
    requires
        0 <= i < 4,
    ensures
        ({
            let name = protocol::Gear::ALL@[i].label();
            let reply = c.stored_reply(name, Ok(ack));
            &&& ack == 0 <==> reply is Error
            &&& ack != 0 ==> (reply matches ipc::ReplyView::Done { warning } && (warning is Some
                <==> (match c.supply {
                Some(Supply::Low) => i > 1,
                Some(Supply::Medium) => i > 2,
                _ => false,
            })))
        }),
{
    protocol::law_each_gear_has_a_slot_of_its_own(i);
    protocol::law_gear_names_read_back(protocol::Gear::ALL@[i]);
}

/// Lighting that a client asks for goes out against what the cooler holds, and
/// once it was taken it is what is wanted, what the configuration says and what
/// the cooler holds. Lighting that was not taken changes nothing.
pub proof fn law_lighting_is_kept_once_it_was_taken(
    c: ControlView,
    wanted: Lighting,
    error: error::ErrorView,
)
    requires
        c.model is Some,
        !c.blanked,
    ensures
        c.after_set_lighting(wanted).0 == c,
        c.after_set_lighting(wanted).1 == (AskView::Light {
            wanted,
            reports: wanted.difference(c.uploaded),
        }),
        ({
            let (lit, answer) = c.after_lit(wanted, Ok(()));
            &&& lit.lighting == Some(wanted) && lit.uploaded == Some(wanted)
            &&& lit.config.lighting == Some(wanted)
            &&& lit.strip_on == Some(!(wanted.mode is Off))
            &&& answer == ControlView::done(None)
            &&& lit.after_set_lighting(wanted).1 == (AskView::Light {
                wanted,
                reports: Seq::empty(),
            })
        }),
        c.after_lit(wanted, Err(error)).0 == c,
        c.after_lit(wanted, Err(error)).1 matches AskView::Answer {
            reply: ipc::ReplyView::Error { .. },
        },
{
    lighting::law_no_change_sends_nothing(wanted);
}

/// Without a cooler nothing that needs one is tried: the client is told, and
/// only a standby setting is kept for the next one.
pub proof fn law_without_a_cooler_nothing_is_sent(c: ControlView, request: Request)
    requires
        c.model is None,
    ensures
        request is Gears || request is SetGear || request is SetLighting || request is SetStandby
            ==> c.after_command(request).1 == ControlView::failed("no cooler"@),
        request is Gears || request is SetGear || request is SetLighting ==> c.after_command(
            request,
        ).0 == c,
        request matches Request::SetStandby { standby } ==> c.after_command(
            request,
        ).0.config.standby == Some(standby),
{
}

/// A standby setting that a client asks for is sent as the byte the cooler
/// reports it back by, and kept in the configuration.
pub proof fn law_a_standby_setting_is_sent_and_kept(
    c: ControlView,
    standby: protocol::Standby,
)
    requires
        c.model is Some,
    ensures
        c.after_set_standby(standby).1 matches AskView::SetStandby { report } && report[3] == 0x0D
            && report[4] == 3 && report[5] == (match standby {
            protocol::Standby::Off => 0u8,
            protocol::Standby::Instant => 1,
            protocol::Standby::Delayed => 2,
        }),
        c.after_set_standby(standby).0 == (ControlView {
            config: config::ConfigView { standby: Some(standby), ..c.config },
            ..c
        }),
{
}

/// Every request is answered to the one who made it: with the configuration in
/// force, or by the step that does what was asked.
pub proof fn law_requests_reach_their_step(c: ControlView, request: Request)
    ensures
        request is GetConfig ==> c.after_command(request).1 == (AskView::Answer {
            reply: ipc::ReplyView::Config { config: c.config, writable: c.writable },
        }) && c.after_command(request).0 == c,
        request is Sensors ==> c.after_command(request).1 is ListSensors && c.after_command(
            request,
        ).0 == c,
        request is Gears && c.model is Some ==> c.after_command(request).1 is Gears,
        request matches Request::SetManual { rpm } ==> c.after_command(request)
            == c.after_set_manual(rpm),
        request matches Request::SetConfig { config } ==> c.after_command(request)
            == c.after_set_config(config@),
        request matches Request::SetLighting { lighting } ==> c.after_command(request)
            == c.after_set_lighting(lighting),
        request matches Request::SetStandby { standby } ==> c.after_command(request)
            == c.after_set_standby(standby),
        request matches Request::SetGear { gear, rpm } ==> c.model is Some ==> c.after_command(
            request,
        ).1 == ControlView::gear_request(gear@, rpm),
        request matches Request::Light { light } ==> light.change(
            c.lighting_or_default(),
        ) matches Some(wanted) ==> c.after_command(request) == c.after_set_lighting(wanted),
        request matches Request::Light { light } ==> light.change(c.lighting_or_default()) is None
            ==> c.after_command(request).0 == c && (c.after_command(request).1 matches
            AskView::Answer { reply: ipc::ReplyView::Error { .. } }),
{
}

/// A configuration that a client sends is saved where it can be and warned about
/// where it cannot, and a change that could not be saved is said to be in force
/// all the same.
pub proof fn law_changes_are_saved_or_warned_about(
    c: ControlView,
    fresh: config::ConfigView,
    fault: Seq<char>,
)
    ensures
        c.writable <==> c.after_set_config(fresh).1 is Save,
        c.persist() is Save <==> c.writable,
        ControlView::saved_reply(Ok(())) == (ipc::ReplyView::Done { warning: None }),
        ControlView::saved_reply(Err(fault)) matches ipc::ReplyView::Done { warning: Some(warning) }
            && warning.code == WarningCode::ConfigSaveFailed,
{
}

/// A file that says the same changes nothing; one that does not is in force from
/// then on, speed and lighting included, and lighting it changed is sent to a
/// cooler that is there.
pub proof fn law_a_changed_file_is_taken_over(c: ControlView, fresh: config::ConfigView)
    ensures
        fresh.equals(c.config) ==> c.after_reload(fresh).0 == c && c.after_reload(fresh).1 is Idle,
        !fresh.equals(c.config) ==> {
            let (next, ask) = c.after_reload(fresh);
            &&& next.config == fresh
            &&& next.manual_rpm == fresh.manual_rpm
            &&& next.lighting == fresh.lighting
            &&& next.applied == c.applied && next.uploaded == c.uploaded && next.model == c.model
            &&& ask is Relight <==> c.model is Some && fresh.lighting is Some && fresh.lighting
                != c.config.lighting
            &&& ask matches AskView::Relight { reports } ==> reports
                == fresh.lighting->0.difference(c.uploaded)
            &&& !(ask is Relight) ==> ask is Idle
        },
{
}

/// The revision counts up by one with every change, and starts over behind the
/// last number there is.
pub proof fn law_revisions_count_up(c: ControlView, fresh: config::ConfigView)
    ensures
        c.after_set_config(fresh).0.revision == (c.revision + 1) % 0x1_0000_0000_0000_0000,
        !fresh.equals(c.config) ==> c.after_reload(fresh).0.revision == (c.revision + 1)
            % 0x1_0000_0000_0000_0000,
{
}

/// Lighting chosen while the screens are dark comes on with them, in full as far
/// as it differs from what the cooler holds.
pub proof fn law_what_was_chosen_in_the_dark_shows_with_the_screens(
    c: ControlView,
    wanted: Lighting,
    now: u64,
)
    requires
        c.blanked,
        c.model is Some,
    ensures
        ({
            let chosen = c.after_set_lighting(wanted).0;
            let (back, ask) = chosen.after_screens(Some(false), now);
            &&& ask == (AskView::Follow { reports: wanted.difference(c.uploaded) })
            &&& back.uploaded == Some(wanted)
            &&& !back.blanked
        }),
{
}

/// The lights follow the screens when those change, and only then.
pub proof fn law_lights_follow_only_a_change(c: ControlView, dark: bool, now: u64)
    ensures
        c.after_screens(Some(dark), now).1 is Follow <==> dark != c.blanked,
        c.after_screens(Some(dark), now).0.blanked == dark,
        dark == c.blanked ==> c.after_screens(Some(dark), now).0 == c,
        dark && !c.blanked ==> c.after_screens(Some(dark), now).0.lit_before_blanking == (
        c.strip_on != Some(false)),
{
}

/// Holding a speed sends the speed itself to a cooler in realtime mode, and the
/// switch to that mode first to any other. An answer of one means it is held;
/// any other answer to the speed starts over from the switch, once.
pub proof fn law_a_speed_is_held_step_by_step(rpm: u16, ack: u8, again: bool)
    ensures
        Hold::first(Mode::Realtime).bytes(rpm)[3] == 0x21,
        Hold::first(Mode::Gear).bytes(rpm)[3] == 0x23,
        Hold::first(Mode::Gear).bytes(rpm)[4] == 2,
        ({
            let report = (Hold::Writing { again }).bytes(rpm);
            report[3] == 0x21 && report[4] == 4 && report[5] + 256 * report[6] == rpm
        }),
        (Hold::Entering { again }).next(rpm, Ok(ack)) == HeldView::More(Hold::Writing { again }),
        (Hold::Writing { again }).next(rpm, Ok(1)) is Taken,
        ack != 1 ==> (Hold::Writing { again: false }).next(rpm, Ok(ack)) == HeldView::More(
            Hold::Entering { again: true },
        ),
        ack != 1 ==> (Hold::Writing { again: true }).next(rpm, Ok(ack)) is Failed,
        Hold::first(Mode::Realtime) == (Hold::Writing { again: false }),
        Hold::first(Mode::Gear) == (Hold::Entering { again: false }),
{
}

/// A fault ends holding a speed wherever it had got to.
pub proof fn law_a_fault_ends_holding(hold: Hold, rpm: u16, error: error::ErrorView)
    ensures
        hold.next(rpm, Err(error)) == HeldView::Failed(error),
{
}

/// Whatever was applied before and whatever went on since, a speed asked for by
/// hand is the one wanted, as far as the supply allows.
pub proof fn law_a_manual_speed_is_wanted(c: ControlView, rpm: u16, now: u64)
    requires
        c.manual_rpm == Some(rpm),
    ensures
        c.wanted(now) == Some(ceiling(c.supply, rpm)),
{
}

/// So is what the hungriest curve asks for, as long as that is not a stop.
pub proof fn law_the_hungriest_curve_is_wanted(c: ControlView, top: int, now: u64)
    requires
        c.wf(),
        c.manual_rpm is None,
        0 <= top < c.demands.len(),
        c.demands[top].rpm > 0,
        forall|i: int|
            0 <= i < c.demands.len() ==> (#[trigger] c.demands[i]).rpm <= c.demands[top].rpm,
    ensures
        c.wanted(now) == Some(ceiling(c.supply, c.demands[top].rpm)),
{
    curve::law_the_hungriest_demand_wins(c.demands);
}

/// Where every curve asks for a stop, the fan is stopped a minute after the
/// first frame that said so, or at once if it stands still already; until then
/// it turns as slowly as it can, whatever it was told before.
pub proof fn law_a_stop_is_wanted_after_a_minute(
    c: ControlView,
    frame: protocol::Status,
    start: u64,
    now: u64,
)
    requires
        c.wf(),
        c.manual_rpm is None,
        c.demands.len() > 0,
        forall|i: int| 0 <= i < c.demands.len() ==> (#[trigger] c.demands[i]).rpm == 0,
    ensures
        c.applied == Some(0u16) ==> c.wanted(now) == Some(0u16),
        c.applied != Some(0u16) && c.idle_since is None ==> c.wanted(now) == Some(500u16),
        c.applied != Some(0u16) && c.idle_since == Some(start) && now - start >= 60_000_000_000
            ==> c.wanted(now) == Some(0u16),
        c.applied != Some(0u16) && c.idle_since == Some(start) && now - start < 60_000_000_000
            ==> c.wanted(now) == Some(500u16),
        c.idle_since is None ==> c.after_frame(frame, now).0.idle_since == Some(now),
        c.idle_since is Some ==> c.after_frame(frame, now).0.idle_since == c.idle_since,
{
    law_content_curves_ask_for_a_stop(c);
}

/// A frame changes nothing but how long the cooler was silent, how long the
/// curves were content, and what is being held.
pub proof fn law_a_frame_changes_little(c: ControlView, frame: protocol::Status, now: u64)
    ensures
        ({
            let next = c.after_frame(frame, now).0;
            &&& next == (ControlView {
                missed: next.missed,
                idle_since: next.idle_since,
                holding: next.holding,
                ..c
            })
            &&& c.after_frame(frame, now).1 matches AskView::Publish { status } ==> status == Some(
                c.picture(frame),
            ) && next.holding == c.holding
        }),
{
}

/// A tick of a cooler that has nothing to settle comes down to the curves, and
/// so does every step before them once it is done.
pub proof fn law_a_tick_comes_down_to_the_curves(c: ControlView, dark: Option<bool>, now: u64)
    requires
        c.model is Some,
        c.asked_supply_since is None,
        !c.config.lights_follow_screens,
    ensures
        c.after_tick(now) == c.evaluate(now),
        c.after_restored(false, now) == c.evaluate(now),
        c.after_followed(false, now) == c.evaluate(now),
        dark is None || dark == Some(c.blanked) ==> c.after_screens(dark, now) == c.evaluate(now),
{
}

/// What was not taken is not believed: neither lighting that was restored nor
/// lights that were to follow the screens.
pub proof fn law_what_was_not_taken_is_not_believed(c: ControlView, now: u64)
    ensures
        c.after_restored(true, now).0.uploaded == c.lighting,
        c.after_restored(false, now).0.uploaded == c.uploaded,
        c.after_followed(false, now).0.strip_on == c.strip_on,
        c.after_followed(true, now).0.strip_on == Some(!c.blanked && c.lit_before_blanking),
        !c.blanked ==> !c.after_screens(Some(true), now).0.changed_while_blank,
{
}

/// A cooler that is gone takes with it what it held and nothing else.
pub proof fn law_a_lost_cooler_takes_little(c: ControlView)
    ensures
        c.lost().0 == (ControlView { model: None, applied: None, missed: 0, holding: None, ..c }),
        c.lost().1 == (AskView::Publish { status: None }),
{
}

/// A daemon starts with what its configuration says and nothing of a cooler.
pub proof fn law_a_daemon_starts_from_its_configuration(
    config: config::ConfigView,
    path: Seq<char>,
    writable: bool,
    now: u64,
)
    ensures
        ({
            let c = ControlView::started(config, path, writable);
            &&& c.wf()
            &&& c.config == config && c.path == path && c.writable == writable
            &&& c.manual_rpm == config.manual_rpm && c.lighting == config.lighting
            &&& c.model is None && c.applied is None && c.uploaded is None && c.supply is None
            &&& c.demands.len() == 0 && c.asleep.len() == 0 && c.unreadable.len() == 0
            &&& !c.blanked && !c.changed_while_blank && c.lit_before_blanking
            &&& c.revision == 0 && c.missed == 0 && c.strip_on is None
            &&& c.after_tick(now).1 is Open
            &&& c.evaluation_due(now)
        }),
{
    curve::law_the_hungriest_demand_wins(Seq::empty());
}

/// A configuration that a client sends is in force from then on but for the
/// speed held by hand and the lighting, with its curves in order, and whether or
/// not it can be saved.
pub proof fn law_a_sent_configuration_is_in_force(
    c: ControlView,
    fresh: config::ConfigView,
    i: int,
)
    requires
        0 <= i < fresh.curves.len(),
    ensures
        ({
            let next = c.after_set_config(fresh).0.config;
            &&& next == (config::ConfigView {
                manual_rpm: c.manual_rpm,
                lighting: c.lighting,
                curves: next.curves,
                ..fresh
            })
            &&& next.curves.len() == fresh.curves.len()
            &&& next.curves[i].name == fresh.curves[i].name
            &&& next.curves[i].sensor == fresh.curves[i].sensor
            &&& next.curves[i].panic_c == fresh.curves[i].panic_c
            &&& config::ascending(next.curves[i].points)
            &&& next.curves[i].points.to_multiset() == fresh.curves[i].points.to_multiset()
            &&& c.after_set_config(fresh).0.demands == c.demands
            &&& c.after_set_config(fresh).0.model == c.model
        }),
{
    config::law_order_touches_only_points(fresh, i);
}

/// A speed beyond the supply is said to be held lower: at what, and instead of
/// what.
pub proof fn law_the_supply_warning_names_both_speeds(c: ControlView, rpm: u16, supply: Supply)
    requires
        c.supply == Some(supply),
        500 <= rpm <= 4000,
        ceiling(c.supply, rpm) < rpm,
    ensures
        c.after_set_manual(Some(rpm)).1 matches AskView::Answer {
            reply: ipc::ReplyView::Done { warning: Some(warning) },
        } && warning.message == "supply is "@ + supply.label() + ", holding "@ + text::dec(
            ceiling(c.supply, rpm) as nat,
        ) + " rpm instead of "@ + text::dec(rpm as nat),
{
}

/// What is refused is refused for a reason that names it.
pub proof fn law_refusals_name_what_is_refused(c: ControlView, name: Seq<char>, rpm: u16)
    ensures
        rpm != 0 && (rpm < 500 || rpm > 4000) ==> c.after_set_manual(Some(rpm)).1
            == ControlView::failed(
            "rpm "@ + text::dec(rpm as nat) + " out of range ("@ + text::dec(500) + "-"@
                + text::dec(4000) + ")"@,
        ),
        protocol::Gear::named(name) is None ==> ControlView::gear_request(name, rpm)
            == ControlView::failed("no gear called "@ + name),
{
}

} // verus!
