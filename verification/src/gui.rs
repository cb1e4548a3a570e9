//! The desktop front end's state, and what every message does to it.
//!
//! Drawing and talking to the daemon happen elsewhere. A message moves the
//! state along and says what has to be done about it: a request to send, a
//! colour to show in the picker, a config to copy out.
//!
//! Time comes in as nanoseconds on a clock that only moves forward.

use crate::choices;
use crate::choices::SensorChoice;
use crate::config;
use crate::config::{Config, Curve, Point, Sensor};
use crate::ipc;
use crate::ipc::{SensorInfo, Status, Warning, WarningCode};
use crate::lighting::{LightMode, Lighting, Rgb};
use crate::protocol::{Standby, MAX_RPM, MIN_RPM};
use crate::text;
use vstd::prelude::*;

verus! {

/// How long a note stays up before it takes itself away.
pub const NOTE_LIFE: u64 = 6_000_000_000;

/// How far back undo reaches.
pub const HISTORY: usize = 64;

/// Something worth saying once, and not worth a click to get rid of.
#[derive(Debug)]
pub struct Note {
    pub text: String,
    pub said: u64,
}

#[verifier::ext_equal]
pub struct NoteView {
    pub text: Seq<char>,
    pub said: u64,
}

impl View for Note {
    type V = NoteView;

    open spec fn view(&self) -> NoteView {
        NoteView { text: self.text@, said: self.said }
    }
}

#[derive(Debug, Clone, Copy, PartialEq, Eq, Structural)]
pub enum Tab {
    Curve,
    Gears,
    Light,
}

/// What a background request produced.
///
/// Every one of these is a blocking socket round trip, and lighting is the
/// worst of them: the daemon walks the cooler through a couple of dozen
/// acknowledged reports before it answers. None of that belongs on the thread
/// that draws the window.
#[derive(Debug)]
pub enum Answer {
    Acked(Result<Option<Warning>, String>),
    /// Kept apart so the next lighting change knows the cooler is free again.
    Light(Result<Option<Warning>, String>),
    Config(Result<(Config, bool), String>),
    Gears(Result<Vec<ipc::Gear>, String>),
    Sensors(Result<Vec<SensorInfo>, String>),
}

#[allow(inconsistent_fields)]
#[derive(Debug, Clone)]
pub enum Message {
    /// A push from the daemon: this is the only thing that drives the display.
    Live(Status),
    /// The stream broke, so the daemon or the cooler is gone.
    Offline,
    CurveSelected(usize),
    PointAdded(Point),
    PointMoved { index: usize, point: Point },
    PointRemoved(usize),
    /// The pointer was released: the drag is over and the change can go out.
    PointsSettled,
    ManualToggled(bool),
    /// Dragging: local only, because the socket call is blocking and doing one
    /// per pixel of travel makes the slider crawl.
    ManualChanged(u16),
    ManualCommitted,
    Reload,
    TabSelected(Tab),
    /// Dragging the slider, which is not worth a write to the cooler yet.
    GearMoved { index: usize, rpm: u16 },
    /// The slider was let go, so the value is meant.
    GearCommitted(usize),
    CurveAdded,
    CurveRemoved,
    CurveRenamed(String),
    CurveNameCommitted,
    CurveSensorPicked(SensorChoice),
    CurvePanicChanged(u8),
    CurvePanicCommitted,
    /// Dragging inside the picker, which only moves the swatch.
    ColorPicked(Rgb),
    ColorCommitted,
    ModePicked(LightMode),
    BrightnessChanged(u8),
    BrightnessCommitted,
    IndicatorsToggled(bool),
    FollowScreensToggled(bool),
    StandbySelected(Standby),
    ExportConfig,
    Undo,
    Redo,
    /// A frame went by, which is how the note knows its time is up.
    Ticked,
    /// A request the interface sent has come back.
    Done(Answer),
}

/// Something to be done about a message.
#[allow(inconsistent_fields)]
#[derive(Debug)]
pub enum Effect {
    GetConfig,
    GetSensors,
    GetGears,
    SetConfig { config: Config },
    SetManual { rpm: Option<u16> },
    SetGear { name: String, rpm: u16 },
    SetLighting { lighting: Lighting },
    SetStandby { standby: Standby },
    /// Show a colour in the picker.
    Pick { color: Rgb },
    /// Copy a config out as text.
    Export { config: Config },
}

#[allow(inconsistent_fields)]
#[verifier::ext_equal]
pub enum EffectView {
    GetConfig,
    GetSensors,
    GetGears,
    SetConfig { config: config::ConfigView },
    SetManual { rpm: Option<u16> },
    SetGear { name: Seq<char>, rpm: u16 },
    SetLighting { lighting: Lighting },
    SetStandby { standby: Standby },
    Pick { color: Rgb },
    Export { config: config::ConfigView },
}

impl View for Effect {
    type V = EffectView;

    open spec fn view(&self) -> EffectView {
        match self {
            Effect::GetConfig => EffectView::GetConfig,
            Effect::GetSensors => EffectView::GetSensors,
            Effect::GetGears => EffectView::GetGears,
            Effect::SetConfig { config } => EffectView::SetConfig { config: config@ },
            Effect::SetManual { rpm } => EffectView::SetManual { rpm: *rpm },
            Effect::SetGear { name, rpm } => EffectView::SetGear { name: name@, rpm: *rpm },
            Effect::SetLighting { lighting } => EffectView::SetLighting { lighting: *lighting },
            Effect::SetStandby { standby } => EffectView::SetStandby { standby: *standby },
            Effect::Pick { color } => EffectView::Pick { color: *color },
            Effect::Export { config } => EffectView::Export { config: config@ },
        }
    }
}

pub open spec fn effect_views(effects: Seq<Effect>) -> Seq<EffectView> {
    Seq::new(effects.len(), |i: int| effects[i]@)
}

#[derive(Debug)]
pub struct State {
    pub status: Option<Status>,
    pub config: Option<Config>,
    pub writable: bool,
    pub selected: usize,
    /// One-off news: a command that failed, or one that worked with a caveat.
    ///
    /// Standing conditions do not belong here. A read-only config is true
    /// whether or not the last click succeeded, so it is drawn from `writable`
    /// instead - keeping it here meant the next successful command wiped a
    /// warning that was still true.
    pub note: Option<Note>,
    pub tab: Tab,
    /// Read from the cooler rather than from the config: the gear table lives
    /// in the device and the physical button changes it too.
    pub gears: Vec<ipc::Gear>,
    /// What the controls are set to, which is not always what the cooler is
    /// showing: the truth is in the status, this is the draft being edited.
    pub light: Lighting,
    /// What was last asked for, until the daemon says the same thing back.
    ///
    /// Without it the control draws the daemon's answer only, so a click sits
    /// there doing nothing for as long as the round trip takes and the window
    /// looks stuck when it is merely waiting.
    pub manual_intent: Option<Option<u16>>,
    /// As the daemon reports them, and the choices built from that.
    pub available: Vec<SensorInfo>,
    pub sensors: Vec<SensorChoice>,
    /// How many requests are out, which is only worth knowing where there is
    /// nothing yet to draw.
    pub pending: usize,
    /// Lighting takes the cooler the best part of a second, and a slider let go
    /// twice would otherwise queue two of them. Only the latest state matters,
    /// so a change made while one is out replaces it instead of following it.
    pub lighting_out: bool,
    pub lighting_again: bool,
    /// When the queue last went from empty to busy, for the turning arc.
    pub working_since: Option<u64>,
    /// The config as the daemon last had it, and the way back and forward.
    ///
    /// Snapshots are taken when a change is sent rather than as it is made:
    /// dragging a point produces a message per pixel, and undo should return
    /// to where the point was before the drag, not to halfway through it.
    pub committed: Option<Config>,
    pub history: Vec<Config>,
    pub future: Vec<Config>,
    /// Held while it is being typed, because sending on every keystroke means
    /// a socket round trip per letter.
    pub name_draft: Option<String>,
}

#[verifier::ext_equal]
pub struct StateView {
    pub status: Option<ipc::StatusView>,
    pub config: Option<config::ConfigView>,
    pub writable: bool,
    pub selected: usize,
    pub note: Option<NoteView>,
    pub tab: Tab,
    pub gears: Seq<ipc::GearView>,
    pub light: Lighting,
    pub manual_intent: Option<Option<u16>>,
    pub available: Seq<ipc::SensorInfoView>,
    pub sensors: Seq<choices::ChoiceView>,
    pub pending: usize,
    pub lighting_out: bool,
    pub lighting_again: bool,
    pub working_since: Option<u64>,
    pub committed: Option<config::ConfigView>,
    pub history: Seq<config::ConfigView>,
    pub future: Seq<config::ConfigView>,
    pub name_draft: Option<Seq<char>>,
}

pub open spec fn config_view(config: Option<Config>) -> Option<config::ConfigView> {
    match config {
        Some(config) => Some(config@),
        None => None,
    }
}

pub open spec fn config_views(configs: Seq<Config>) -> Seq<config::ConfigView> {
    Seq::new(configs.len(), |i: int| configs[i]@)
}

pub open spec fn note_view(note: Option<Note>) -> Option<NoteView> {
    match note {
        Some(note) => Some(note@),
        None => None,
    }
}

impl View for State {
    type V = StateView;

    open spec fn view(&self) -> StateView {
        StateView {
            status: crate::control::status_view(self.status),
            config: config_view(self.config),
            writable: self.writable,
            selected: self.selected,
            note: note_view(self.note),
            tab: self.tab,
            gears: ipc::gear_views(self.gears@),
            light: self.light,
            manual_intent: self.manual_intent,
            available: ipc::sensor_info_views(self.available@),
            sensors: choices::choice_views(self.sensors@),
            pending: self.pending,
            lighting_out: self.lighting_out,
            lighting_again: self.lighting_again,
            working_since: self.working_since,
            committed: config_view(self.committed),
            history: config_views(self.history@),
            future: config_views(self.future@),
            name_draft: text::opt_view(self.name_draft),
        }
    }
}

/// What an acknowledgement says.
pub open spec fn outcome_view(outcome: Result<Option<Warning>, String>) -> Result<
    Option<ipc::WarningView>,
    Seq<char>,
> {
    match outcome {
        Ok(warning) => Ok(ipc::warning_view(warning)),
        Err(error) => Err(error@),
    }
}

#[verifier::ext_equal]
pub enum AnswerView {
    Acked(Result<Option<ipc::WarningView>, Seq<char>>),
    Light(Result<Option<ipc::WarningView>, Seq<char>>),
    Config(Result<(config::ConfigView, bool), Seq<char>>),
    Gears(Result<Seq<ipc::GearView>, Seq<char>>),
    Sensors(Result<Seq<ipc::SensorInfoView>, Seq<char>>),
}

impl View for Answer {
    type V = AnswerView;

    open spec fn view(&self) -> AnswerView {
        match self {
            Answer::Acked(outcome) => AnswerView::Acked(outcome_view(*outcome)),
            Answer::Light(outcome) => AnswerView::Light(outcome_view(*outcome)),
            Answer::Config(Ok((config, writable))) => AnswerView::Config(Ok((config@, *writable))),
            Answer::Config(Err(error)) => AnswerView::Config(Err(error@)),
            Answer::Gears(Ok(gears)) => AnswerView::Gears(Ok(ipc::gear_views(gears@))),
            Answer::Gears(Err(error)) => AnswerView::Gears(Err(error@)),
            Answer::Sensors(Ok(sensors)) => AnswerView::Sensors(
                Ok(ipc::sensor_info_views(sensors@)),
            ),
            Answer::Sensors(Err(error)) => AnswerView::Sensors(Err(error@)),
        }
    }
}

fn clone_outcome(outcome: &Result<Option<Warning>, String>) -> (r: Result<Option<Warning>, String>)
    ensures
        outcome_view(r) == outcome_view(*outcome),
{
    match outcome {
        Ok(Some(warning)) => Ok(Some(warning.clone())),
        Ok(None) => Ok(None),
        Err(error) => Err(error.clone()),
    }
}

impl Clone for Answer {
    fn clone(&self) -> (r: Self)
        ensures
            r@ == self@,
    {
        match self {
            Answer::Acked(outcome) => Answer::Acked(clone_outcome(outcome)),
            Answer::Light(outcome) => Answer::Light(clone_outcome(outcome)),
            Answer::Config(Ok((config, writable))) => Answer::Config(
                Ok((config.clone(), *writable)),
            ),
            Answer::Config(Err(error)) => Answer::Config(Err(error.clone())),
            Answer::Gears(Ok(gears)) => {
                let copy = gears.clone();
                proof {
                    assert(ipc::gear_views(copy@) =~= ipc::gear_views(gears@));
                }
                Answer::Gears(Ok(copy))
            },
            Answer::Gears(Err(error)) => Answer::Gears(Err(error.clone())),
            Answer::Sensors(Ok(sensors)) => {
                let copy = sensors.clone();
                proof {
                    assert(ipc::sensor_info_views(copy@) =~= ipc::sensor_info_views(sensors@));
                }
                Answer::Sensors(Ok(copy))
            },
            Answer::Sensors(Err(error)) => Answer::Sensors(Err(error.clone())),
        }
    }
}

/// The last thing that can be selected among so many, at most.
pub open spec fn within(selected: usize, len: nat) -> usize {
    if len == 0 {
        0
    } else if selected < len {
        selected
    } else {
        (len - 1) as usize
    }
}

/// A history cut to how far undo reaches.
pub open spec fn bounded(history: Seq<config::ConfigView>) -> Seq<config::ConfigView> {
    if history.len() > HISTORY {
        history.drop_first()
    } else {
        history
    }
}

impl StateView {
    /// Undo and redo together never hold more than undo reaches back.
    pub open spec fn wf(self) -> bool {
        self.history.len() + self.future.len() <= HISTORY
    }

    /// A window that was just opened, before its first requests.
    pub open spec fn opened() -> StateView {
        StateView {
            status: None,
            config: None,
            writable: false,
            selected: 0,
            note: None,
            tab: Tab::Curve,
            gears: Seq::empty(),
            light: Lighting { mode: LightMode::Off, brightness: 100, indicators: true },
            manual_intent: None,
            available: Seq::empty(),
            sensors: Seq::empty(),
            pending: 0,
            lighting_out: false,
            lighting_again: false,
            working_since: None,
            committed: None,
            history: Seq::empty(),
            future: Seq::empty(),
            name_draft: None,
        }
    }

    /// A request goes out.
    pub open spec fn asking(self, now: u64) -> StateView {
        StateView {
            working_since: if self.pending == 0 {
                Some(now)
            } else {
                self.working_since
            },
            pending: if self.pending < usize::MAX {
                (self.pending + 1) as usize
            } else {
                self.pending
            },
            ..self
        }
    }

    /// A request came back.
    pub open spec fn answered(self) -> StateView {
        let pending = if self.pending > 0 {
            (self.pending - 1) as usize
        } else {
            0
        };
        StateView {
            pending,
            working_since: if pending == 0 {
                None
            } else {
                self.working_since
            },
            ..self
        }
    }

    /// The speed the supply allows.
    pub open spec fn ceiling(self) -> u16 {
        match self.status {
            Some(status) => match status.supply_max_rpm {
                Some(max) => max,
                None => MAX_RPM,
            },
            None => MAX_RPM,
        }
    }

    pub open spec fn says(self, text: Seq<char>, now: u64) -> StateView {
        StateView { note: Some(NoteView { text, said: now }), ..self }
    }

    /// Failures and caveats are worth a note; that the config cannot be saved
    /// is a standing condition and is drawn elsewhere.
    pub open spec fn reported(
        self,
        outcome: Result<Option<ipc::WarningView>, Seq<char>>,
        now: u64,
    ) -> StateView {
        match outcome {
            Ok(Some(warning)) => if warning.code == WarningCode::ConfigReadOnly {
                StateView { note: None, ..self }
            } else {
                self.says(warning.message, now)
            },
            Ok(None) => StateView { note: None, ..self },
            Err(error) => self.says(error, now),
        }
    }

    /// The curve being edited, if there is one.
    pub open spec fn curve(self) -> Option<config::CurveView> {
        match self.config {
            Some(config) => if self.selected < config.curves.len() {
                Some(config.curves[self.selected as int])
            } else {
                None
            },
            None => None,
        }
    }

    /// The curve being edited becomes another.
    pub open spec fn with_curve(self, curve: config::CurveView) -> StateView {
        match self.config {
            Some(config) => StateView {
                config: Some(
                    config::ConfigView {
                        curves: config.curves.update(self.selected as int, curve),
                        ..config
                    },
                ),
                ..self
            },
            None => self,
        }
    }

    pub open spec fn with_points(self, points: Seq<Point>) -> StateView {
        match self.curve() {
            Some(curve) => self.with_curve(config::CurveView { points, ..curve }),
            None => self,
        }
    }

    // -- Sending ------------------------------------------------------------

    /// Send a config without touching the history, which undo needs.
    pub open spec fn sending(self, config: config::ConfigView, now: u64) -> (
        StateView,
        Seq<EffectView>,
    ) {
        (self.asking(now), seq![EffectView::SetConfig { config }])
    }

    /// Push the edited config back. The daemon sorts the points and applies the
    /// result immediately, so there is nothing to apply separately. What was
    /// committed before can be undone, if this differs.
    pub open spec fn pushing(self, now: u64) -> (StateView, Seq<EffectView>) {
        match self.config {
            None => (self, Seq::empty()),
            Some(config) => {
                let next = StateView { committed: Some(config), ..self };
                (match self.committed {
                    Some(previous) => if previous.equals(config) {
                        next
                    } else {
                        StateView {
                            history: bounded(self.history.push(previous)),
                            future: Seq::empty(),
                            ..next
                        }
                    },
                    None => next,
                }).sending(config, now)
            },
        }
    }

    /// Go to a config from the history, or back from there.
    pub open spec fn goes_to(self, config: config::ConfigView, now: u64) -> (
        StateView,
        Seq<EffectView>,
    ) {
        (StateView {
            selected: within(self.selected, config.curves.len()),
            name_draft: None,
            committed: Some(config),
            config: Some(config),
            ..self
        }).sending(config, now)
    }

    pub open spec fn undone(self, now: u64) -> (StateView, Seq<EffectView>) {
        if self.history.len() == 0 {
            (self, Seq::empty())
        } else {
            (StateView {
                history: self.history.drop_last(),
                future: match self.config {
                    Some(current) => self.future.push(current),
                    None => self.future,
                },
                ..self
            }).goes_to(self.history.last(), now)
        }
    }

    pub open spec fn redone(self, now: u64) -> (StateView, Seq<EffectView>) {
        if self.future.len() == 0 {
            (self, Seq::empty())
        } else {
            (StateView {
                future: self.future.drop_last(),
                history: match self.config {
                    Some(current) => self.history.push(current),
                    None => self.history,
                },
                ..self
            }).goes_to(self.future.last(), now)
        }
    }

    /// Send the draft as it stands, or remember to once the one that is out has
    /// come back. The daemon works out which reports that actually needs, so a
    /// brightness nudge does not restart an animation it did not have to.
    pub open spec fn lighting_up(self, now: u64) -> (StateView, Seq<EffectView>) {
        if self.lighting_out {
            (StateView { lighting_again: true, ..self }, Seq::empty())
        } else {
            (
                (StateView { lighting_out: true, ..self }).asking(now),
                seq![EffectView::SetLighting { lighting: self.light }],
            )
        }
    }

    // -- Messages -----------------------------------------------------------

    pub open spec fn after_answer(self, answer: Answer, now: u64) -> (
        StateView,
        Seq<EffectView>,
    ) {
        let s = self.answered();
        match answer {
            Answer::Acked(outcome) => (s.reported(outcome_view(outcome), now), Seq::empty()),
            Answer::Light(outcome) => {
                let free = StateView {
                    lighting_out: false,
                    ..s.reported(outcome_view(outcome), now)
                };
                if s.lighting_again {
                    (StateView { lighting_again: false, ..free }).lighting_up(now)
                } else {
                    (free, Seq::empty())
                }
            },
            Answer::Config(Ok((config, writable))) => (
                StateView {
                    selected: within(s.selected, config@.curves.len()),
                    committed: Some(config@),
                    config: Some(config@),
                    writable,
                    ..s
                },
                Seq::empty(),
            ),
            Answer::Gears(Ok(gears)) => (
                StateView { gears: ipc::gear_views(gears@), ..s },
                Seq::empty(),
            ),
            Answer::Sensors(Ok(sensors)) => (
                StateView {
                    sensors: choices::choices(ipc::sensor_info_views(sensors@)),
                    available: ipc::sensor_info_views(sensors@),
                    ..s
                },
                Seq::empty(),
            ),
            Answer::Config(Err(error)) => (s.says(error@, now), Seq::empty()),
            Answer::Gears(Err(error)) => (s.says(error@, now), Seq::empty()),
            Answer::Sensors(Err(error)) => (s.says(error@, now), Seq::empty()),
        }
    }

    /// The first status of a connection brings the lighting along, and a daemon
    /// that just came back may be running a different config, with sensors of
    /// its own to report. What was asked for by hand is let go once the daemon
    /// reports the same, so a change made elsewhere is not held off the screen.
    pub open spec fn after_status(self, status: ipc::StatusView, now: u64) -> (
        StateView,
        Seq<EffectView>,
    ) {
        let first = self.status is None;
        let s = StateView {
            status: Some(status),
            manual_intent: if self.manual_intent == Some(status.manual_rpm) {
                None
            } else {
                self.manual_intent
            },
            ..self
        };
        if first {
            (
                (match status.lighting {
                    Some(lighting) => StateView { light: lighting, ..s },
                    None => s,
                }).asking(now).asking(now),
                (match status.lighting {
                    Some(Lighting { mode: LightMode::Static { color }, .. }) => seq![
                        EffectView::Pick { color },
                    ],
                    _ => Seq::empty(),
                }) + seq![EffectView::GetConfig, EffectView::GetSensors],
            )
        } else {
            (s, Seq::empty())
        }
    }

    /// The speed the slider starts from when a speed is to be held by hand.
    pub open spec fn manual_start(self) -> u16 {
        let target = match self.status {
            Some(status) => match status.target_rpm {
                Some(rpm) => rpm,
                None => MIN_RPM,
            },
            None => MIN_RPM,
        };
        if target < MIN_RPM {
            MIN_RPM
        } else if target > self.ceiling() {
            self.ceiling()
        } else {
            target
        }
    }

    pub open spec fn new_curve(self) -> config::CurveView {
        config::CurveView {
            name: Seq::empty(),
            sensor: if self.sensors.len() > 0 {
                self.sensors[0].sensor
            } else {
                config::default_sensor()
            },
            points: seq![Point { temp_c: 50, rpm: 500 }, Point { temp_c: 80, rpm: 2600 }],
            panic_c: None,
        }
    }

    pub open spec fn after_curve_added(self, now: u64) -> (StateView, Seq<EffectView>) {
        (match self.config {
            Some(config) => StateView {
                config: Some(
                    config::ConfigView { curves: config.curves.push(self.new_curve()), ..config },
                ),
                selected: config.curves.len() as usize,
                name_draft: None,
                ..self
            },
            None => StateView { name_draft: None, ..self },
        }).pushing(now)
    }

    /// The last curve stays: nothing left to follow is a way to cook a machine.
    pub open spec fn after_curve_removed(self, now: u64) -> (StateView, Seq<EffectView>) {
        let s = StateView { name_draft: None, ..self };
        (match self.config {
            Some(config) => if config.curves.len() > 1 && self.selected < config.curves.len() {
                StateView {
                    config: Some(
                        config::ConfigView {
                            curves: config.curves.remove(self.selected as int),
                            ..config
                        },
                    ),
                    selected: within(self.selected, (config.curves.len() - 1) as nat),
                    ..s
                }
            } else {
                s
            },
            None => s,
        }).pushing(now)
    }

    pub open spec fn after_point_added(self, point: Point, now: u64) -> (
        StateView,
        Seq<EffectView>,
    ) {
        match self.curve() {
            Some(curve) => self.with_points(config::sorted(curve.points.push(point))).pushing(now),
            None => self.pushing(now),
        }
    }

    /// Sorting mid-drag would renumber points under the hand dragging one.
    pub open spec fn after_point_moved(self, index: usize, point: Point) -> (
        StateView,
        Seq<EffectView>,
    ) {
        match self.curve() {
            Some(curve) => if index < curve.points.len() {
                (self.with_points(curve.points.update(index as int, point)), Seq::empty())
            } else {
                (self, Seq::empty())
            },
            None => (self, Seq::empty()),
        }
    }

    /// The last point stays: a curve without any asks for nothing.
    pub open spec fn after_point_removed(self, index: usize, now: u64) -> (
        StateView,
        Seq<EffectView>,
    ) {
        match self.curve() {
            Some(curve) => if curve.points.len() > 1 && index < curve.points.len() {
                self.with_points(curve.points.remove(index as int)).pushing(now)
            } else {
                self.pushing(now)
            },
            None => self.pushing(now),
        }
    }

    pub open spec fn after_points_settled(self, now: u64) -> (StateView, Seq<EffectView>) {
        match self.curve() {
            Some(curve) => self.with_points(config::sorted(curve.points)).pushing(now),
            None => self.pushing(now),
        }
    }

    pub open spec fn after_manual_toggled(self, on: bool, now: u64) -> (
        StateView,
        Seq<EffectView>,
    ) {
        let rpm = if on {
            Some(self.manual_start())
        } else {
            None
        };
        (
            (StateView { manual_intent: Some(rpm), ..self }).asking(now),
            seq![EffectView::SetManual { rpm }],
        )
    }

    pub open spec fn after_gear_moved(self, index: usize, rpm: u16) -> (
        StateView,
        Seq<EffectView>,
    ) {
        if index < self.gears.len() {
            (
                StateView {
                    gears: self.gears.update(
                        index as int,
                        ipc::GearView { rpm, ..self.gears[index as int] },
                    ),
                    ..self
                },
                Seq::empty(),
            )
        } else {
            (self, Seq::empty())
        }
    }

    /// The cooler rounds what it stores, so the table is read back.
    pub open spec fn after_gear_committed(self, index: usize, now: u64) -> (
        StateView,
        Seq<EffectView>,
    ) {
        if index < self.gears.len() {
            (
                self.asking(now).asking(now),
                seq![
                    EffectView::SetGear {
                        name: self.gears[index as int].name,
                        rpm: self.gears[index as int].rpm,
                    },
                    EffectView::GetGears,
                ],
            )
        } else {
            (self, Seq::empty())
        }
    }

    pub open spec fn after_name_committed(self, now: u64) -> (StateView, Seq<EffectView>) {
        match self.name_draft {
            Some(name) => {
                let s = StateView { name_draft: None, ..self };
                (match self.curve() {
                    Some(curve) => s.with_curve(
                        config::CurveView { name: text::trim(name), ..curve },
                    ),
                    None => s,
                }).pushing(now)
            },
            None => (self, Seq::empty()),
        }
    }

    pub open spec fn after_sensor_picked(self, sensor: config::SensorView, now: u64) -> (
        StateView,
        Seq<EffectView>,
    ) {
        (match self.curve() {
            Some(curve) => self.with_curve(config::CurveView { sensor, ..curve }),
            None => self,
        }).pushing(now)
    }

    pub open spec fn after_panic_changed(self, panic_c: u8) -> (StateView, Seq<EffectView>) {
        (
            match self.curve() {
                Some(curve) => self.with_curve(
                    config::CurveView { panic_c: Some(panic_c), ..curve },
                ),
                None => self,
            },
            Seq::empty(),
        )
    }

    pub open spec fn after_mode_picked(self, mode: LightMode, now: u64) -> (
        StateView,
        Seq<EffectView>,
    ) {
        let (s, effects) = (StateView {
            light: Lighting { mode, ..self.light },
            ..self
        }).lighting_up(now);
        (
            s,
            (match mode {
                LightMode::Static { color } => seq![EffectView::Pick { color }],
                _ => Seq::empty(),
            }) + effects,
        )
    }

    pub open spec fn after_follow_toggled(self, on: bool, now: u64) -> (
        StateView,
        Seq<EffectView>,
    ) {
        match self.config {
            Some(config) => (StateView {
                config: Some(config::ConfigView { lights_follow_screens: on, ..config }),
                ..self
            }).pushing(now),
            None => (self, Seq::empty()),
        }
    }

    pub open spec fn after_standby_selected(self, standby: Standby, now: u64) -> (
        StateView,
        Seq<EffectView>,
    ) {
        (
            (match self.config {
                Some(config) => StateView {
                    config: Some(config::ConfigView { standby: Some(standby), ..config }),
                    ..self
                },
                None => self,
            }).asking(now),
            seq![EffectView::SetStandby { standby }],
        )
    }

    pub open spec fn updated(self, message: Message, now: u64) -> (StateView, Seq<EffectView>) {
        match message {
            Message::Done(answer) => self.after_answer(answer, now),
            Message::Live(status) => self.after_status(status@, now),
            Message::Offline => (
                StateView { status: None, config: None, ..self },
                Seq::empty(),
            ),
            Message::Reload => (self.asking(now), seq![EffectView::GetConfig]),
            Message::CurveSelected(index) => (
                StateView { selected: index, name_draft: None, ..self },
                Seq::empty(),
            ),
            Message::PointAdded(point) => self.after_point_added(point, now),
            Message::PointMoved { index, point } => self.after_point_moved(index, point),
            Message::PointRemoved(index) => self.after_point_removed(index, now),
            Message::PointsSettled => self.after_points_settled(now),
            Message::ManualToggled(on) => self.after_manual_toggled(on, now),
            Message::ManualChanged(rpm) => (
                StateView { manual_intent: Some(Some(rpm)), ..self },
                Seq::empty(),
            ),
            Message::ManualCommitted => match self.manual_intent {
                Some(Some(rpm)) => (
                    self.asking(now),
                    seq![EffectView::SetManual { rpm: Some(rpm) }],
                ),
                _ => (self, Seq::empty()),
            },
            Message::TabSelected(tab) => {
                let s = StateView { tab, ..self };
                if tab == Tab::Gears {
                    (s.asking(now), seq![EffectView::GetGears])
                } else {
                    (s, Seq::empty())
                }
            },
            Message::GearMoved { index, rpm } => self.after_gear_moved(index, rpm),
            Message::GearCommitted(index) => self.after_gear_committed(index, now),
            Message::CurveAdded => self.after_curve_added(now),
            Message::CurveRemoved => self.after_curve_removed(now),
            Message::CurveRenamed(name) => (
                StateView { name_draft: Some(name@), ..self },
                Seq::empty(),
            ),
            Message::CurveNameCommitted => self.after_name_committed(now),
            Message::CurveSensorPicked(choice) => self.after_sensor_picked(choice@.sensor, now),
            Message::CurvePanicChanged(panic_c) => self.after_panic_changed(panic_c),
            Message::CurvePanicCommitted => self.pushing(now),
            Message::ColorPicked(color) => (
                StateView {
                    light: Lighting { mode: LightMode::Static { color }, ..self.light },
                    ..self
                },
                Seq::empty(),
            ),
            Message::ColorCommitted => self.lighting_up(now),
            Message::ModePicked(mode) => self.after_mode_picked(mode, now),
            Message::BrightnessChanged(brightness) => (
                StateView { light: Lighting { brightness, ..self.light }, ..self },
                Seq::empty(),
            ),
            Message::BrightnessCommitted => self.lighting_up(now),
            Message::IndicatorsToggled(on) => (StateView {
                light: Lighting { indicators: on, ..self.light },
                ..self
            }).lighting_up(now),
            Message::FollowScreensToggled(on) => self.after_follow_toggled(on, now),
            Message::StandbySelected(standby) => self.after_standby_selected(standby, now),
            // The daemon holds the config, and on NixOS the file it reads is a
            // store path nobody can edit. Handing it over as text is what makes
            // a curve dragged into shape here reusable anywhere else.
            Message::ExportConfig => match self.config {
                Some(config) => (self, seq![EffectView::Export { config }]),
                None => (self, Seq::empty()),
            },
            Message::Undo => self.undone(now),
            Message::Redo => self.redone(now),
            Message::Ticked => (
                match self.note {
                    Some(note) => if crate::control::since(note.said, now) >= NOTE_LIFE {
                        StateView { note: None, ..self }
                    } else {
                        self
                    },
                    None => self,
                },
                Seq::empty(),
            ),
        }
    }
}

fn none() -> (effects: Vec<Effect>)
    ensures
        effect_views(effects@) == Seq::<EffectView>::empty(),
{
    let effects: Vec<Effect> = Vec::new();
    proof {
        assert(effect_views(effects@) =~= Seq::<EffectView>::empty());
    }
    effects
}

fn one(effect: Effect) -> (effects: Vec<Effect>)
    ensures
        effect_views(effects@) == seq![effect@],
{
    let ghost view = effect@;
    let mut effects: Vec<Effect> = Vec::new();
    effects.push(effect);
    proof {
        assert(effect_views(effects@) =~= seq![view]);
    }
    effects
}

fn two(first: Effect, second: Effect) -> (effects: Vec<Effect>)
    ensures
        effect_views(effects@) == seq![first@, second@],
{
    let ghost views = seq![first@, second@];
    let mut effects: Vec<Effect> = Vec::new();
    effects.push(first);
    effects.push(second);
    proof {
        assert(effect_views(effects@) =~= views);
    }
    effects
}

fn clamp_selected(selected: usize, len: usize) -> (r: usize)
    ensures
        r == within(selected, len as nat),
{
    if len == 0 {
        0
    } else if selected < len {
        selected
    } else {
        len - 1
    }
}

impl State {
    /// A window that was just opened, and the requests it opens with.
    pub fn new(now: u64) -> (r: (State, Vec<Effect>))
        ensures
            r.0@ == StateView::opened().asking(now).asking(now),
            r.0@.wf(),
            effect_views(r.1@) == seq![EffectView::GetConfig, EffectView::GetSensors],
    {
        let mut state = State {
            status: None,
            config: None,
            writable: false,
            selected: 0,
            note: None,
            tab: Tab::Curve,
            gears: Vec::new(),
            light: Lighting::default(),
            manual_intent: None,
            available: Vec::new(),
            sensors: Vec::new(),
            pending: 0,
            lighting_out: false,
            lighting_again: false,
            working_since: None,
            committed: None,
            history: Vec::new(),
            future: Vec::new(),
            name_draft: None,
        };
        proof {
            assert(state@ =~= StateView::opened());
        }
        state.ask(now);
        state.ask(now);
        (state, two(Effect::GetConfig, Effect::GetSensors))
    }

    /// True while a request is out, which is only worth knowing where there is
    /// nothing yet to draw.
    pub fn busy(&self) -> (r: bool)
        ensures
            r == (self@.pending > 0),
    {
        self.pending > 0
    }

    /// Is anything moving on the screen, so that frames are worth asking for?
    pub fn animated(&self) -> (r: bool)
        ensures
            r == (self@.note is Some || self@.pending > 0),
    {
        self.note.is_some() || self.busy()
    }

    fn ask(&mut self, now: u64)
        ensures
            final(self)@ == old(self)@.asking(now),
    {
        if self.pending == 0 {
            self.working_since = Some(now);
        }
        if self.pending < usize::MAX {
            self.pending = self.pending + 1;
        }
    }

    fn say(&mut self, text: String, now: u64)
        ensures
            final(self)@ == old(self)@.says(text@, now),
    {
        self.note = Some(Note { text, said: now });
    }

    fn report(&mut self, outcome: Result<Option<Warning>, String>, now: u64)
        ensures
            final(self)@ == old(self)@.reported(outcome_view(outcome), now),
    {
        match outcome {
            Ok(Some(warning)) => {
                if warning.code == WarningCode::ConfigReadOnly {
                    self.note = None;
                } else {
                    self.say(warning.message, now);
                }
            },
            Ok(None) => {
                self.note = None;
            },
            Err(error) => self.say(error, now),
        }
    }

    /// The speed the supply allows.
    pub fn ceiling(&self) -> (r: u16)
        ensures
            r == self@.ceiling(),
    {
        match &self.status {
            Some(status) => match status.supply_max_rpm {
                Some(max) => max,
                None => MAX_RPM,
            },
            None => MAX_RPM,
        }
    }

    fn send(&mut self, config: Config, now: u64) -> (effects: Vec<Effect>)
        ensures
            (final(self)@, effect_views(effects@)) == old(self)@.sending(config@, now),
    {
        self.ask(now);
        one(Effect::SetConfig { config })
    }

    fn push(&mut self, now: u64) -> (effects: Vec<Effect>)
        requires
            old(self)@.wf(),
        ensures
            (final(self)@, effect_views(effects@)) == old(self)@.pushing(now),
            final(self)@.wf(),
    {
        let ghost before = self@;
        let config = match &self.config {
            Some(config) => config.clone(),
            None => return none(),
        };
        let previous = self.committed.take();
        self.committed = Some(config.clone());
        if let Some(previous) = previous {
            if previous != config {
                let ghost was = previous@;
                self.history.push(previous);
                proof {
                    assert(config_views(self.history@) =~= before.history.push(was));
                }
                if self.history.len() > HISTORY {
                    let ghost long = config_views(self.history@);
                    let _ = self.history.remove(0);
                    proof {
                        assert(config_views(self.history@) =~= long.drop_first());
                    }
                }
                self.future.clear();
                proof {
                    assert(config_views(self.future@) =~= Seq::<config::ConfigView>::empty());
                }
            }
        }
        self.send(config, now)
    }

    fn go_to(&mut self, config: Config, now: u64) -> (effects: Vec<Effect>)
        ensures
            (final(self)@, effect_views(effects@)) == old(self)@.goes_to(config@, now),
    {
        self.selected = clamp_selected(self.selected, config.curves.len());
        self.name_draft = None;
        self.committed = Some(config.clone());
        self.config = Some(config.clone());
        self.send(config, now)
    }

    fn undo(&mut self, now: u64) -> (effects: Vec<Effect>)
        requires
            old(self)@.wf(),
        ensures
            (final(self)@, effect_views(effects@)) == old(self)@.undone(now),
            final(self)@.wf(),
    {
        let ghost before = self@;
        match self.history.pop() {
            None => none(),
            Some(config) => {
                proof {
                    assert(config_views(self.history@) =~= before.history.drop_last());
                }
                if let Some(current) = self.config.take() {
                    let ghost view = current@;
                    self.future.push(current);
                    proof {
                        assert(config_views(self.future@) =~= before.future.push(view));
                    }
                }
                self.go_to(config, now)
            },
        }
    }

    fn redo(&mut self, now: u64) -> (effects: Vec<Effect>)
        requires
            old(self)@.wf(),
        ensures
            (final(self)@, effect_views(effects@)) == old(self)@.redone(now),
            final(self)@.wf(),
    {
        let ghost before = self@;
        match self.future.pop() {
            None => none(),
            Some(config) => {
                proof {
                    assert(config_views(self.future@) =~= before.future.drop_last());
                }
                if let Some(current) = self.config.take() {
                    let ghost view = current@;
                    self.history.push(current);
                    proof {
                        assert(config_views(self.history@) =~= before.history.push(view));
                    }
                }
                self.go_to(config, now)
            },
        }
    }

    fn apply_light(&mut self, now: u64) -> (effects: Vec<Effect>)
        ensures
            (final(self)@, effect_views(effects@)) == old(self)@.lighting_up(now),
    {
        if self.lighting_out {
            self.lighting_again = true;
            return none();
        }
        self.lighting_out = true;
        self.ask(now);
        one(Effect::SetLighting { lighting: self.light })
    }

    fn current(&self) -> (r: Option<Curve>)
        ensures
            match r {
                Some(curve) => self@.curve() == Some(curve@),
                None => self@.curve() is None,
            },
    {
        match &self.config {
            Some(config) => if self.selected < config.curves.len() {
                Some(config.curves[self.selected].clone())
            } else {
                None
            },
            None => None,
        }
    }

    fn replace(&mut self, curve: Curve)
        requires
            old(self)@.curve() is Some,
        ensures
            final(self)@ == old(self)@.with_curve(curve@),
    {
        let ghost before = self@;
        let ghost view = curve@;
        if let Some(config) = self.config.take() {
            let mut config = config;
            config.curves.set(self.selected, curve);
            proof {
                assert(config::curve_views(config.curves@) =~= before.config->0.curves.update(
                    self.selected as int,
                    view,
                ));
            }
            self.config = Some(config);
        }
    }

    fn replace_points(&mut self, curve: Curve, points: Vec<Point>)
        requires
            old(self)@.curve() == Some(curve@),
        ensures
            final(self)@ == old(self)@.with_points(points@),
    {
        let mut curve = curve;
        curve.points = points;
        self.replace(curve);
    }

    fn answer(&mut self, answer: Answer, now: u64) -> (effects: Vec<Effect>)
        requires
            old(self)@.wf(),
        ensures
            (final(self)@, effect_views(effects@)) == old(self)@.after_answer(answer, now),
            final(self)@.wf(),
    {
        if self.pending > 0 {
            self.pending = self.pending - 1;
        }
        if self.pending == 0 {
            self.working_since = None;
        }
        match answer {
            Answer::Acked(outcome) => self.report(outcome, now),
            Answer::Light(outcome) => {
                self.report(outcome, now);
                self.lighting_out = false;
                if self.lighting_again {
                    self.lighting_again = false;
                    return self.apply_light(now);
                }
            },
            Answer::Config(Ok((config, writable))) => {
                self.selected = clamp_selected(self.selected, config.curves.len());
                self.committed = Some(config.clone());
                self.config = Some(config);
                self.writable = writable;
            },
            Answer::Gears(Ok(gears)) => {
                self.gears = gears;
            },
            Answer::Sensors(Ok(sensors)) => {
                self.sensors = choices::sensor_choices(&sensors);
                self.available = sensors;
            },
            Answer::Config(Err(error)) => self.say(error, now),
            Answer::Gears(Err(error)) => self.say(error, now),
            Answer::Sensors(Err(error)) => self.say(error, now),
        }
        none()
    }

    fn live(&mut self, status: Status, now: u64) -> (effects: Vec<Effect>)
        requires
            old(self)@.wf(),
        ensures
            (final(self)@, effect_views(effects@)) == old(self)@.after_status(status@, now),
            final(self)@.wf(),
    {
        let first = self.status.is_none();
        let lighting = status.lighting;
        if let Some(intent) = self.manual_intent {
            if intent == status.manual_rpm {
                self.manual_intent = None;
            }
        }
        self.status = Some(status);
        if !first {
            return none();
        }
        let mut effects = none();
        if let Some(lighting) = lighting {
            self.light = lighting;
            if let LightMode::Static { color } = lighting.mode {
                effects.push(Effect::Pick { color });
                proof {
                    assert(effect_views(effects@) =~= seq![EffectView::Pick { color }]);
                }
            }
        }
        self.ask(now);
        self.ask(now);
        let ghost so_far = effect_views(effects@);
        effects.push(Effect::GetConfig);
        effects.push(Effect::GetSensors);
        proof {
            assert(effect_views(effects@) =~= so_far + seq![
                EffectView::GetConfig,
                EffectView::GetSensors,
            ]);
        }
        effects
    }

    fn manual_start(&self) -> (r: u16)
        ensures
            r == self@.manual_start(),
    {
        let target: u16 = match &self.status {
            Some(status) => match status.target_rpm {
                Some(rpm) => rpm,
                None => MIN_RPM,
            },
            None => MIN_RPM,
        };
        let ceiling = self.ceiling();
        if target < MIN_RPM {
            MIN_RPM
        } else if target > ceiling {
            ceiling
        } else {
            target
        }
    }

    fn add_curve(&mut self, now: u64) -> (effects: Vec<Effect>)
        requires
            old(self)@.wf(),
        ensures
            (final(self)@, effect_views(effects@)) == old(self)@.after_curve_added(now),
            final(self)@.wf(),
    {
        let ghost before = self@;
        let sensor = if self.sensors.len() > 0 {
            self.sensors[0].sensor.clone()
        } else {
            Sensor::default()
        };
        self.name_draft = None;
        if let Some(config) = self.config.take() {
            let mut config = config;
            let points: Vec<Point> = vec![
                Point { temp_c: 50, rpm: 500 },
                Point { temp_c: 80, rpm: 2600 },
            ];
            let curve = Curve { name: String::new(), sensor, points, panic_c: None };
            proof {
                assert(points@ =~= before.new_curve().points);
                assert(curve@ =~= before.new_curve());
            }
            self.selected = config.curves.len();
            config.curves.push(curve);
            proof {
                assert(config::curve_views(config.curves@) =~= before.config->0.curves.push(
                    before.new_curve(),
                ));
            }
            self.config = Some(config);
        }
        self.push(now)
    }

    fn remove_curve(&mut self, now: u64) -> (effects: Vec<Effect>)
        requires
            old(self)@.wf(),
        ensures
            (final(self)@, effect_views(effects@)) == old(self)@.after_curve_removed(now),
            final(self)@.wf(),
    {
        let ghost before = self@;
        self.name_draft = None;
        if let Some(config) = self.config.take() {
            let mut config = config;
            if config.curves.len() > 1 && self.selected < config.curves.len() {
                let _ = config.curves.remove(self.selected);
                proof {
                    assert(config::curve_views(config.curves@) =~= before.config->0.curves.remove(
                        self.selected as int,
                    ));
                }
                self.selected = clamp_selected(self.selected, config.curves.len());
            }
            self.config = Some(config);
        }
        self.push(now)
    }

    fn add_point(&mut self, point: Point, now: u64) -> (effects: Vec<Effect>)
        requires
            old(self)@.wf(),
        ensures
            (final(self)@, effect_views(effects@)) == old(self)@.after_point_added(point, now),
            final(self)@.wf(),
    {
        if let Some(curve) = self.current() {
            let mut points = config::clone_points(&curve.points);
            points.push(point);
            config::sort_points(&mut points);
            self.replace_points(curve, points);
        }
        self.push(now)
    }

    fn move_point(&mut self, index: usize, point: Point) -> (effects: Vec<Effect>)
        requires
            old(self)@.wf(),
        ensures
            (final(self)@, effect_views(effects@)) == old(self)@.after_point_moved(index, point),
            final(self)@.wf(),
    {
        if let Some(curve) = self.current() {
            if index < curve.points.len() {
                let mut points = config::clone_points(&curve.points);
                points.set(index, point);
                self.replace_points(curve, points);
            }
        }
        none()
    }

    fn remove_point(&mut self, index: usize, now: u64) -> (effects: Vec<Effect>)
        requires
            old(self)@.wf(),
        ensures
            (final(self)@, effect_views(effects@)) == old(self)@.after_point_removed(index, now),
            final(self)@.wf(),
    {
        if let Some(curve) = self.current() {
            if curve.points.len() > 1 && index < curve.points.len() {
                let mut points = config::clone_points(&curve.points);
                let _ = points.remove(index);
                self.replace_points(curve, points);
            }
        }
        self.push(now)
    }

    fn settle_points(&mut self, now: u64) -> (effects: Vec<Effect>)
        requires
            old(self)@.wf(),
        ensures
            (final(self)@, effect_views(effects@)) == old(self)@.after_points_settled(now),
            final(self)@.wf(),
    {
        if let Some(curve) = self.current() {
            let mut points = config::clone_points(&curve.points);
            config::sort_points(&mut points);
            self.replace_points(curve, points);
        }
        self.push(now)
    }

    fn toggle_manual(&mut self, on: bool, now: u64) -> (effects: Vec<Effect>)
        requires
            old(self)@.wf(),
            on ==> MIN_RPM <= old(self)@.ceiling(),
        ensures
            (final(self)@, effect_views(effects@)) == old(self)@.after_manual_toggled(on, now),
            final(self)@.wf(),
    {
        let rpm = if on {
            Some(self.manual_start())
        } else {
            None
        };
        self.manual_intent = Some(rpm);
        self.ask(now);
        one(Effect::SetManual { rpm })
    }

    fn move_gear(&mut self, index: usize, rpm: u16) -> (effects: Vec<Effect>)
        requires
            old(self)@.wf(),
        ensures
            (final(self)@, effect_views(effects@)) == old(self)@.after_gear_moved(index, rpm),
            final(self)@.wf(),
    {
        if index < self.gears.len() {
            let ghost before = self@.gears;
            let mut gear = self.gears[index].clone();
            gear.rpm = rpm;
            let ghost view = gear@;
            self.gears.set(index, gear);
            proof {
                assert(ipc::gear_views(self.gears@) =~= before.update(index as int, view));
            }
        }
        none()
    }

    fn commit_gear(&mut self, index: usize, now: u64) -> (effects: Vec<Effect>)
        requires
            old(self)@.wf(),
        ensures
            (final(self)@, effect_views(effects@)) == old(self)@.after_gear_committed(index, now),
            final(self)@.wf(),
    {
        if index < self.gears.len() {
            let name = self.gears[index].name.clone();
            let rpm = self.gears[index].rpm;
            self.ask(now);
            self.ask(now);
            two(Effect::SetGear { name, rpm }, Effect::GetGears)
        } else {
            none()
        }
    }

    fn commit_name(&mut self, now: u64) -> (effects: Vec<Effect>)
        requires
            old(self)@.wf(),
        ensures
            (final(self)@, effect_views(effects@)) == old(self)@.after_name_committed(now),
            final(self)@.wf(),
    {
        let name = match self.name_draft.take() {
            Some(name) => name,
            None => return none(),
        };
        if let Some(curve) = self.current() {
            let mut curve = curve;
            curve.name = text::trimmed_string(name.as_str());
            self.replace(curve);
        }
        self.push(now)
    }

    fn pick_sensor(&mut self, sensor: Sensor, now: u64) -> (effects: Vec<Effect>)
        requires
            old(self)@.wf(),
        ensures
            (final(self)@, effect_views(effects@)) == old(self)@.after_sensor_picked(sensor@, now),
            final(self)@.wf(),
    {
        if let Some(curve) = self.current() {
            let mut curve = curve;
            curve.sensor = sensor;
            self.replace(curve);
        }
        self.push(now)
    }

    fn change_panic(&mut self, panic_c: u8) -> (effects: Vec<Effect>)
        requires
            old(self)@.wf(),
        ensures
            (final(self)@, effect_views(effects@)) == old(self)@.after_panic_changed(panic_c),
            final(self)@.wf(),
    {
        if let Some(curve) = self.current() {
            let mut curve = curve;
            curve.panic_c = Some(panic_c);
            self.replace(curve);
        }
        none()
    }

    fn pick_mode(&mut self, mode: LightMode, now: u64) -> (effects: Vec<Effect>)
        requires
            old(self)@.wf(),
        ensures
            (final(self)@, effect_views(effects@)) == old(self)@.after_mode_picked(mode, now),
            final(self)@.wf(),
    {
        self.light.mode = mode;
        let mut rest = self.apply_light(now);
        let ghost sent = effect_views(rest@);
        match mode {
            LightMode::Static { color } => {
                let mut effects = one(Effect::Pick { color });
                effects.append(&mut rest);
                proof {
                    assert(effect_views(effects@) =~= seq![EffectView::Pick { color }]
                        + sent);
                }
                effects
            },
            _ => {
                proof {
                    assert(Seq::<EffectView>::empty() + sent =~= sent);
                }
                rest
            },
        }
    }

    fn toggle_follow(&mut self, on: bool, now: u64) -> (effects: Vec<Effect>)
        requires
            old(self)@.wf(),
        ensures
            (final(self)@, effect_views(effects@)) == old(self)@.after_follow_toggled(on, now),
            final(self)@.wf(),
    {
        if let Some(config) = self.config.take() {
            let mut config = config;
            config.lights_follow_screens = on;
            self.config = Some(config);
            self.push(now)
        } else {
            none()
        }
    }

    fn select_standby(&mut self, standby: Standby, now: u64) -> (effects: Vec<Effect>)
        requires
            old(self)@.wf(),
        ensures
            (final(self)@, effect_views(effects@)) == old(self)@.after_standby_selected(
                standby,
                now,
            ),
            final(self)@.wf(),
    {
        if let Some(config) = self.config.take() {
            let mut config = config;
            config.standby = Some(standby);
            self.config = Some(config);
        }
        self.ask(now);
        one(Effect::SetStandby { standby })
    }

    /// Take a message in.
    ///
    /// Holding a speed by hand starts from one between the slowest speed and
    /// what the supply allows, so the supply has to allow the slowest speed.
    pub fn update(&mut self, message: Message, now: u64) -> (effects: Vec<Effect>)
        requires
            old(self)@.wf(),
            message matches Message::ManualToggled(true) ==> MIN_RPM <= old(self)@.ceiling(),
        ensures
            (final(self)@, effect_views(effects@)) == old(self)@.updated(message, now),
            final(self)@.wf(),
    {
        match message {
            Message::Done(answer) => self.answer(answer, now),
            Message::Live(status) => self.live(status, now),
            Message::Offline => {
                self.status = None;
                self.config = None;
                none()
            },
            Message::Reload => {
                self.ask(now);
                one(Effect::GetConfig)
            },
            Message::CurveSelected(index) => {
                self.selected = index;
                self.name_draft = None;
                none()
            },
            Message::PointAdded(point) => self.add_point(point, now),
            Message::PointMoved { index, point } => self.move_point(index, point),
            Message::PointRemoved(index) => self.remove_point(index, now),
            Message::PointsSettled => self.settle_points(now),
            Message::ManualToggled(on) => self.toggle_manual(on, now),
            Message::ManualChanged(rpm) => {
                self.manual_intent = Some(Some(rpm));
                none()
            },
            Message::ManualCommitted => {
                if let Some(Some(rpm)) = self.manual_intent {
                    self.ask(now);
                    one(Effect::SetManual { rpm: Some(rpm) })
                } else {
                    none()
                }
            },
            Message::TabSelected(tab) => {
                self.tab = tab;
                if tab == Tab::Gears {
                    self.ask(now);
                    one(Effect::GetGears)
                } else {
                    none()
                }
            },
            Message::GearMoved { index, rpm } => self.move_gear(index, rpm),
            Message::GearCommitted(index) => self.commit_gear(index, now),
            Message::CurveAdded => self.add_curve(now),
            Message::CurveRemoved => self.remove_curve(now),
            Message::CurveRenamed(name) => {
                self.name_draft = Some(name);
                none()
            },
            Message::CurveNameCommitted => self.commit_name(now),
            Message::CurveSensorPicked(choice) => self.pick_sensor(choice.sensor, now),
            Message::CurvePanicChanged(panic_c) => self.change_panic(panic_c),
            Message::CurvePanicCommitted => self.push(now),
            Message::ColorPicked(color) => {
                self.light.mode = LightMode::Static { color };
                none()
            },
            Message::ColorCommitted => self.apply_light(now),
            Message::ModePicked(mode) => self.pick_mode(mode, now),
            Message::BrightnessChanged(brightness) => {
                self.light.brightness = brightness;
                none()
            },
            Message::BrightnessCommitted => self.apply_light(now),
            Message::IndicatorsToggled(on) => {
                self.light.indicators = on;
                self.apply_light(now)
            },
            Message::FollowScreensToggled(on) => self.toggle_follow(on, now),
            Message::StandbySelected(standby) => self.select_standby(standby, now),
            Message::ExportConfig => match &self.config {
                Some(config) => one(Effect::Export { config: config.clone() }),
                None => none(),
            },
            Message::Undo => self.undo(now),
            Message::Redo => self.redo(now),
            Message::Ticked => {
                let over = match &self.note {
                    Some(note) => {
                        let spent: u64 = if now >= note.said {
                            now - note.said
                        } else {
                            0
                        };
                        spent >= NOTE_LIFE
                    },
                    None => false,
                };
                if over {
                    self.note = None;
                }
                none()
            },
        }
    }

    /// A config was copied out, or could not be written as text.
    pub fn exported(&mut self, outcome: Result<(), String>, now: u64)
        ensures
            final(self)@ == old(self)@.says(
                match outcome {
                    Ok(()) => "Configuration copied as TOML"@,
                    Err(error) => error@,
                },
                now,
            ),
    {
        match outcome {
            Ok(()) => self.say("Configuration copied as TOML".to_owned(), now),
            Err(error) => self.say(error, now),
        }
    }
}

// ---------------------------------------------------------------------------
// What the window promises

/// Undo returns to what was in force before the last change that was sent.
pub proof fn law_undo_takes_back_a_change(
    s: StateView,
    before: config::ConfigView,
    now: u64,
    later: u64,
)
    requires
        s.config is Some,
        s.committed == Some(before),
        !before.equals(s.config->0),
    ensures
        ({
            let (back, effects) = s.pushing(now).0.undone(later);
            &&& back.config == Some(before)
            &&& back.committed == Some(before)
            &&& effects == seq![EffectView::SetConfig { config: before }]
        }),
{
    let long = s.history.push(before);
    assert(bounded(long).last() == before);
}

/// Redo takes an undo back, and leaves both ways as they were.
pub proof fn law_redo_takes_back_an_undo(s: StateView, now: u64, later: u64)
    requires
        s.config is Some,
        s.history.len() > 0,
    ensures
        ({
            let (again, effects) = s.undone(now).0.redone(later);
            &&& again.config == s.config
            &&& again.history == s.history
            &&& again.future == s.future
            &&& effects == seq![EffectView::SetConfig { config: s.config->0 }]
        }),
{
    let undone = s.undone(now).0;
    assert(undone.future.drop_last() =~= s.future);
    assert(s.history.drop_last().push(s.history.last()) =~= s.history);
}

/// And the other way round.
pub proof fn law_undo_takes_back_a_redo(s: StateView, now: u64, later: u64)
    requires
        s.config is Some,
        s.future.len() > 0,
    ensures
        ({
            let (again, effects) = s.redone(now).0.undone(later);
            &&& again.config == s.config
            &&& again.history == s.history
            &&& again.future == s.future
            &&& effects == seq![EffectView::SetConfig { config: s.config->0 }]
        }),
{
    let redone = s.redone(now).0;
    assert(redone.history.drop_last() =~= s.history);
    assert(s.future.drop_last().push(s.future.last()) =~= s.future);
}

/// Where dragging points around leads, move by move.
pub open spec fn dragged(s: StateView, moves: Seq<(usize, Point)>) -> StateView
    decreases moves.len(),
{
    if moves.len() == 0 {
        s
    } else {
        dragged(s, moves.drop_last()).after_point_moved(moves.last().0, moves.last().1).0
    }
}

proof fn lemma_dragging_sends_nothing(s: StateView, moves: Seq<(usize, Point)>)
    ensures
        dragged(s, moves).committed == s.committed,
        dragged(s, moves).history == s.history,
        dragged(s, moves).future == s.future,
        dragged(s, moves).pending == s.pending,
        dragged(s, moves).config is Some <==> s.config is Some,
    decreases moves.len(),
{
    if moves.len() > 0 {
        lemma_dragging_sends_nothing(s, moves.drop_last());
    }
}

/// However many moves a drag took, undo returns to where it began and not to
/// halfway through it.
pub proof fn law_a_drag_is_undone_whole(
    s: StateView,
    before: config::ConfigView,
    moves: Seq<(usize, Point)>,
    now: u64,
    later: u64,
)
    requires
        s.config == Some(before),
        s.committed == Some(before),
        !before.equals(dragged(s, moves).after_points_settled(now).0.config->0),
    ensures
        dragged(s, moves).pending == s.pending,
        dragged(s, moves).after_points_settled(now).0.undone(later).0.config == Some(before),
{
    lemma_dragging_sends_nothing(s, moves);
    let d = dragged(s, moves);
    let settled = match d.curve() {
        Some(curve) => d.with_points(config::sorted(curve.points)),
        None => d,
    };
    law_undo_takes_back_a_change(settled, before, now, later);
}

/// One lighting request is out at a time. What is chosen meanwhile waits, and
/// when the answer comes the draft goes out as it stands then.
pub proof fn law_only_the_latest_lighting_follows(
    s: StateView,
    outcome: Result<Option<Warning>, String>,
    now: u64,
)
    requires
        s.lighting_out,
    ensures
        s.lighting_up(now).1 == Seq::<EffectView>::empty(),
        s.lighting_up(now).0.after_answer(Answer::Light(outcome), now).1 == seq![
            EffectView::SetLighting { lighting: s.light },
        ],
{
}

/// There is always a curve left, and every curve keeps a point.
pub proof fn law_something_is_always_followed(s: StateView, index: usize, now: u64)
    requires
        s.config matches Some(config) && config.curves.len() > 0,
    ensures
        s.after_curve_removed(now).0.config matches Some(config) && config.curves.len() > 0,
        s.curve() matches Some(curve) && curve.points.len() > 0 ==> s.after_point_removed(
            index,
            now,
        ).0.curve()->0.points.len() > 0,
{
}

/// A choice made by hand is let go once the daemon reports the same speed, and
/// not before.
pub proof fn law_intent_yields_to_the_daemon(s: StateView, status: ipc::StatusView, now: u64)
    ensures
        s.after_status(status, now).0.manual_intent == (if s.manual_intent == Some(
            status.manual_rpm,
        ) {
            None
        } else {
            s.manual_intent
        }),
{
}

// ---------------------------------------------------------------------------
// What every message does

/// What is sent along with a config that was edited: that config, once.
pub open spec fn sends_its_config(step: (StateView, Seq<EffectView>)) -> bool {
    step.0.config matches Some(config) && step.1 == seq![EffectView::SetConfig { config }]
        && step.0.committed == Some(config)
}

/// Is everything but the curve being edited the same in two states, as far as
/// the configuration goes?
pub open spec fn same_but_the_curve(s: StateView, t: StateView) -> bool {
    match (s.config, t.config) {
        (Some(a), Some(b)) => b == (config::ConfigView { curves: b.curves, ..a }) && a.curves.len()
            == b.curves.len() && s.selected == t.selected && (forall|i: int|
            0 <= i < a.curves.len() && i != s.selected ==> (#[trigger] b.curves[i])
                == a.curves[i]),
        _ => false,
    }
}

/// A point put on the graph joins the points of the curve being edited, which
/// stay in order of temperature, and goes out at once; nothing else changes.
pub proof fn law_an_added_point_joins_the_curve(s: StateView, point: Point, now: u64)
    requires
        s.curve() is Some,
    ensures
        ({
            let step = s.updated(Message::PointAdded(point), now);
            &&& sends_its_config(step)
            &&& same_but_the_curve(s, step.0)
            &&& step.0.curve() matches Some(curve) && config::ascending(curve.points)
                && curve.points.to_multiset() == s.curve()->0.points.to_multiset().insert(point)
                && curve.name == s.curve()->0.name && curve.sensor == s.curve()->0.sensor
                && curve.panic_c == s.curve()->0.panic_c
        }),
{
    broadcast use vstd::seq_lib::group_to_multiset_ensures;

    config::law_sorting_keeps_every_point(s.curve()->0.points.push(point));
}

/// A dragged point goes where the pointer is, alone, and nothing goes out until
/// it is let go; then the points are put in order and sent.
pub proof fn law_a_dragged_point_moves_alone(
    s: StateView,
    index: usize,
    point: Point,
    other: int,
    now: u64,
)
    requires
        s.curve() is Some,
        index < s.curve()->0.points.len(),
        0 <= other < s.curve()->0.points.len(),
    ensures
        ({
            let (next, effects) = s.updated(Message::PointMoved { index, point }, now);
            &&& effects.len() == 0
            &&& same_but_the_curve(s, next)
            &&& next.committed == s.committed && next.history == s.history
            &&& next.curve() matches Some(curve) && curve.points.len()
                == s.curve()->0.points.len() && curve.points[index as int] == point && (other
                != index ==> curve.points[other] == s.curve()->0.points[other]) && curve.name
                == s.curve()->0.name && curve.sensor == s.curve()->0.sensor
        }),
        ({
            let step = s.updated(Message::PointsSettled, now);
            &&& sends_its_config(step)
            &&& same_but_the_curve(s, step.0)
            &&& step.0.curve() matches Some(curve) && config::ascending(curve.points)
                && curve.points.to_multiset() == s.curve()->0.points.to_multiset()
        }),
{
    config::law_sorting_keeps_every_point(s.curve()->0.points);
}

/// A point is taken out where it stands, unless it is the last one.
pub proof fn law_a_removed_point_is_gone(s: StateView, index: usize, now: u64)
    requires
        s.curve() is Some,
        index < s.curve()->0.points.len(),
    ensures
        ({
            let step = s.updated(Message::PointRemoved(index), now);
            let points = s.curve()->0.points;
            &&& sends_its_config(step)
            &&& same_but_the_curve(s, step.0)
            &&& step.0.curve() matches Some(curve) && (points.len() > 1 ==> curve.points
                == points.take(index as int) + points.skip(index as int + 1)) && (points.len() == 1
                ==> curve.points == points)
        }),
{
    let points = s.curve()->0.points;
    assert(points.remove(index as int) =~= points.take(index as int) + points.skip(
        index as int + 1,
    ));
}

/// Holding a speed by hand starts at what the cooler was told last, as far as
/// the fan and the supply allow, and is asked of the daemon; letting go asks for
/// none. What was asked for is what the control shows.
pub proof fn law_manual_starts_where_the_fan_is(s: StateView, target: u16, max: u16, now: u64)
    requires
        s.status matches Some(status) && status.target_rpm == Some(target)
            && status.supply_max_rpm == Some(max),
        max >= 500,
    ensures
        ({
            let (on, effects) = s.updated(Message::ManualToggled(true), now);
            let start = if target < 500 {
                500
            } else if target > max {
                max
            } else {
                target
            };
            &&& effects == seq![EffectView::SetManual { rpm: Some(start) }]
            &&& on.manual_intent == Some(Some(start))
        }),
        s.updated(Message::ManualToggled(false), now).1 == seq![
            EffectView::SetManual { rpm: None },
        ],
        s.updated(Message::ManualToggled(false), now).0.manual_intent == Some(None::<u16>),
{
}

/// A slider that is dragged sends nothing; let go it sends where it stands.
pub proof fn law_sliders_send_when_they_are_let_go(s: StateView, rpm: u16, now: u64, later: u64)
    ensures
        s.updated(Message::ManualChanged(rpm), now).1.len() == 0,
        s.updated(Message::ManualChanged(rpm), now).0.updated(Message::ManualCommitted, later).1
            == seq![EffectView::SetManual { rpm: Some(rpm) }],
        s.manual_intent is None ==> s.updated(Message::ManualCommitted, now).1.len() == 0,
{
}

/// A gear's slider moves that gear alone; let go, the speed it stands at is
/// stored under the gear's name and the table is read back.
pub proof fn law_gears_are_stored_when_they_are_let_go(
    s: StateView,
    index: usize,
    other: int,
    rpm: u16,
    now: u64,
    later: u64,
)
    requires
        index < s.gears.len(),
        0 <= other < s.gears.len(),
    ensures
        ({
            let (moved, effects) = s.updated(Message::GearMoved { index, rpm }, now);
            &&& effects.len() == 0
            &&& moved.gears.len() == s.gears.len()
            &&& moved.gears[index as int].rpm == rpm
            &&& moved.gears[index as int].name == s.gears[index as int].name
            &&& moved.gears[index as int].allowed == s.gears[index as int].allowed
            &&& other != index ==> moved.gears[other] == s.gears[other]
            &&& moved.updated(Message::GearCommitted(index), later).1 == seq![
                EffectView::SetGear { name: s.gears[index as int].name, rpm },
                EffectView::GetGears,
            ]
        }),
{
}

/// A new curve stands behind the others, is the one being edited, and goes out;
/// it has points and follows the first sensor there is to choose.
pub proof fn law_a_new_curve_stands_last(s: StateView, i: int, now: u64)
    requires
        s.config is Some,
        s.config->0.curves.len() < usize::MAX,
    ensures
        ({
            let step = s.updated(Message::CurveAdded, now);
            let before = s.config->0.curves;
            let after = step.0.config->0.curves;
            &&& sends_its_config(step)
            &&& after.len() == before.len() + 1
            &&& step.0.selected == before.len()
            &&& 0 <= i < before.len() ==> after[i] == before[i]
            &&& after.last().points.len() >= 2 && config::ascending(after.last().points)
            &&& after.last().name.len() == 0 && after.last().panic_c is None
            &&& s.sensors.len() > 0 ==> after.last().sensor == s.sensors[0].sensor
            &&& step.0.name_draft is None
        }),
{
}

/// A removed curve is the one that was being edited, and one that is still there
/// is edited next; the last curve stays.
pub proof fn law_the_edited_curve_is_removed(s: StateView, i: int, now: u64)
    requires
        s.config is Some,
        s.selected < s.config->0.curves.len(),
    ensures
        ({
            let step = s.updated(Message::CurveRemoved, now);
            let before = s.config->0.curves;
            let after = step.0.config->0.curves;
            let at = s.selected as int;
            &&& sends_its_config(step)
            &&& before.len() > 1 ==> after.len() == before.len() - 1 && (0 <= i < at ==> after[i]
                == before[i]) && (at <= i < after.len() ==> after[i] == before[i + 1])
            &&& before.len() == 1 ==> after == before
            &&& step.0.selected < after.len()
        }),
{
}

/// A name that was typed is the curve's once it is meant, without the white
/// space around it, and nothing before that.
pub proof fn law_names_are_taken_when_they_are_meant(
    s: StateView,
    name: String,
    now: u64,
    later: u64,
)
    requires
        s.curve() is Some,
    ensures
        ({
            let (typed, effects) = s.updated(Message::CurveRenamed(name), now);
            let step = typed.updated(Message::CurveNameCommitted, later);
            &&& effects.len() == 0 && typed.config == s.config
            &&& sends_its_config(step)
            &&& same_but_the_curve(s, step.0)
            &&& step.0.name_draft is None
            &&& step.0.curve() matches Some(curve) && curve.name == text::trim(name@)
                && curve.points == s.curve()->0.points && curve.sensor == s.curve()->0.sensor
                && curve.panic_c == s.curve()->0.panic_c
        }),
        s.name_draft is None ==> s.updated(Message::CurveNameCommitted, now) == (
            s,
            Seq::<EffectView>::empty(),
        ),
{
}

/// A sensor that is picked becomes the curve's and goes out at once; a panic
/// threshold that is dragged becomes the curve's and goes out when it is let go.
pub proof fn law_sensors_and_thresholds_are_the_curves_own(
    s: StateView,
    choice: SensorChoice,
    panic_c: u8,
    now: u64,
)
    requires
        s.curve() is Some,
    ensures
        ({
            let step = s.updated(Message::CurveSensorPicked(choice), now);
            &&& sends_its_config(step)
            &&& same_but_the_curve(s, step.0)
            &&& step.0.curve() == Some(
                config::CurveView { sensor: choice@.sensor, ..s.curve()->0 },
            )
        }),
        ({
            let (moved, effects) = s.updated(Message::CurvePanicChanged(panic_c), now);
            &&& effects.len() == 0
            &&& same_but_the_curve(s, moved)
            &&& moved.curve() == Some(
                config::CurveView { panic_c: Some(panic_c), ..s.curve()->0 },
            )
            &&& sends_its_config(moved.updated(Message::CurvePanicCommitted, now))
        }),
{
}

/// Lighting is a draft until it is meant: a colour and a brightness that are
/// dragged only change the draft, and what is sent is the draft as it stands.
pub proof fn law_lighting_is_a_draft_until_it_is_meant(
    s: StateView,
    color: Rgb,
    brightness: u8,
    on: bool,
    mode: LightMode,
    now: u64,
)
    requires
        !s.lighting_out,
    ensures
        s.updated(Message::ColorPicked(color), now).1.len() == 0,
        s.updated(Message::ColorPicked(color), now).0.light == (Lighting {
            mode: LightMode::Static { color },
            brightness: s.light.brightness,
            indicators: s.light.indicators,
        }),
        s.updated(Message::BrightnessChanged(brightness), now).1.len() == 0,
        s.updated(Message::BrightnessChanged(brightness), now).0.light == (Lighting {
            mode: s.light.mode,
            brightness,
            indicators: s.light.indicators,
        }),
        s.updated(Message::ColorCommitted, now).1 == seq![
            EffectView::SetLighting { lighting: s.light },
        ],
        s.updated(Message::BrightnessCommitted, now).1 == seq![
            EffectView::SetLighting { lighting: s.light },
        ],
        s.updated(Message::IndicatorsToggled(on), now).1 == seq![
            EffectView::SetLighting {
                lighting: Lighting {
                    mode: s.light.mode,
                    brightness: s.light.brightness,
                    indicators: on,
                },
            },
        ],
        s.updated(Message::ModePicked(mode), now).1.last() == (EffectView::SetLighting {
            lighting: Lighting {
                mode,
                brightness: s.light.brightness,
                indicators: s.light.indicators,
            },
        }),
        s.updated(Message::ColorCommitted, now).0.lighting_out,
{
}

/// Standby and whether the lights follow the screens are asked for as picked,
/// and shown as picked.
pub proof fn law_settings_are_sent_as_picked(s: StateView, standby: Standby, on: bool, now: u64)
    requires
        s.config is Some,
    ensures
        ({
            let (next, effects) = s.updated(Message::StandbySelected(standby), now);
            &&& effects == seq![EffectView::SetStandby { standby }]
            &&& next.config == Some(
                config::ConfigView { standby: Some(standby), ..s.config->0 },
            )
        }),
        ({
            let step = s.updated(Message::FollowScreensToggled(on), now);
            &&& sends_its_config(step)
            &&& step.0.config == Some(
                config::ConfigView { lights_follow_screens: on, ..s.config->0 },
            )
        }),
{
}

/// The first status of a connection fetches the config and the sensors and takes
/// the lighting over; later ones only replace the picture. A stream that breaks
/// takes the picture and the config away.
pub proof fn law_a_connection_starts_afresh(s: StateView, status: Status, now: u64)
    ensures
        ({
            let (next, effects) = s.updated(Message::Live(status), now);
            &&& next.status == Some(status@)
            &&& s.status is None ==> effects.contains(EffectView::GetConfig) && effects.contains(
                EffectView::GetSensors,
            )
            &&& s.status is None ==> (status@.lighting matches Some(lighting) ==> next.light
                == lighting)
            &&& s.status is Some ==> effects.len() == 0 && next.light == s.light && next.config
                == s.config && next.pending == s.pending
        }),
        s.updated(Message::Offline, now).0 == (StateView { status: None, config: None, ..s }),
        s.updated(Message::Offline, now).1.len() == 0,
{
    let effects = s.updated(Message::Live(status), now).1;
    if s.status is None {
        assert(effects[effects.len() - 2] == EffectView::GetConfig);
        assert(effects[effects.len() - 1] == EffectView::GetSensors);
    }
}

/// An answer is shown as what it is: a config, gears, sensors, or the note that
/// there was a fault.
pub proof fn law_answers_are_shown(
    s: StateView,
    config: Config,
    writable: bool,
    gears: Vec<ipc::Gear>,
    sensors: Vec<SensorInfo>,
    fault: String,
    now: u64,
)
    ensures
        ({
            let next = s.updated(Message::Done(Answer::Config(Ok((config, writable)))), now).0;
            &&& next.config == Some(config@) && next.committed == Some(config@)
            &&& next.writable == writable
            &&& config@.curves.len() > 0 ==> next.selected < config@.curves.len()
            &&& s.selected < config@.curves.len() ==> next.selected == s.selected
        }),
        s.updated(Message::Done(Answer::Gears(Ok(gears))), now).0.gears == ipc::gear_views(
            gears@,
        ),
        s.updated(Message::Done(Answer::Sensors(Ok(sensors))), now).0.available
            == ipc::sensor_info_views(sensors@),
        s.updated(Message::Done(Answer::Sensors(Ok(sensors))), now).0.sensors == choices::choices(
            ipc::sensor_info_views(sensors@),
        ),
        s.updated(Message::Done(Answer::Config(Err(fault))), now).0.note == Some(
            NoteView { text: fault@, said: now },
        ),
        s.updated(Message::Done(Answer::Gears(Err(fault))), now).0.note == Some(
            NoteView { text: fault@, said: now },
        ),
        s.updated(Message::Done(Answer::Sensors(Err(fault))), now).0.note == Some(
            NoteView { text: fault@, said: now },
        ),
        s.updated(Message::Done(Answer::Acked(Err(fault))), now).0.note == Some(
            NoteView { text: fault@, said: now },
        ),
{
}

/// A command that worked clears the note, one that worked with a caveat says so;
/// that the config cannot be saved is not said here.
pub proof fn law_caveats_are_noted(s: StateView, warning: Warning, now: u64)
    ensures
        s.updated(Message::Done(Answer::Acked(Ok(None))), now).0.note is None,
        warning@.code == WarningCode::ConfigReadOnly ==> s.updated(
            Message::Done(Answer::Acked(Ok(Some(warning)))),
            now,
        ).0.note is None,
        warning@.code != WarningCode::ConfigReadOnly ==> s.updated(
            Message::Done(Answer::Acked(Ok(Some(warning)))),
            now,
        ).0.note == Some(NoteView { text: warning@.message, said: now }),
{
}

/// A note is up for six seconds.
pub proof fn law_notes_take_themselves_away(s: StateView, note: NoteView, now: u64)
    requires
        s.note == Some(note),
        note.said <= now,
    ensures
        s.updated(Message::Ticked, now).0.note is None <==> now - note.said >= 6_000_000_000,
        s.updated(Message::Ticked, now).0 == (StateView {
            note: s.updated(Message::Ticked, now).0.note,
            ..s
        }),
{
}

/// Requests are counted as they go out and come back, and the window is busy
/// from the first until the last of them is back.
pub proof fn law_requests_are_counted(s: StateView, now: u64)
    requires
        s.pending < usize::MAX,
    ensures
        s.asking(now).pending == s.pending + 1,
        s.asking(now).answered().pending == s.pending,
        s.pending == 0 ==> s.asking(now).working_since == Some(now),
        s.pending > 0 ==> s.asking(now).working_since == s.working_since,
        s.pending > 0 ==> s.answered().pending == s.pending - 1,
        s.pending <= 1 ==> s.answered().working_since is None,
        s.pending > 1 ==> s.answered().working_since == s.working_since,
{
}

/// A change that is sent can be taken back, up to sixty-four of them; sending
/// the same again adds nothing, and a change forgets what was undone.
pub proof fn law_history_reaches_so_far_back(s: StateView, now: u64)
    requires
        s.wf(),
        s.config is Some,
        s.committed is Some,
    ensures
        s.pushing(now).0.history.len() <= 64,
        s.committed->0.equals(s.config->0) ==> s.pushing(now).0.history == s.history,
        !s.committed->0.equals(s.config->0) ==> s.pushing(now).0.history.last()
            == s.committed->0 && s.pushing(now).0.future.len() == 0,
        !s.committed->0.equals(s.config->0) && s.history.len() < 64 ==> s.pushing(now).0.history
            == s.history.push(s.committed->0),
        s.pushing(now).0.committed == s.config,
{
}

/// Picking a tab, a curve or the export changes nothing of the configuration;
/// the gears are read when their tab is picked, and the export is of what is
/// shown.
pub proof fn law_looking_changes_nothing(s: StateView, tab: Tab, index: usize, now: u64)
    ensures
        s.updated(Message::TabSelected(tab), now).0.tab == tab,
        s.updated(Message::TabSelected(tab), now).0.config == s.config,
        s.updated(Message::TabSelected(tab), now).1 == (if tab == Tab::Gears {
            seq![EffectView::GetGears]
        } else {
            Seq::empty()
        }),
        s.updated(Message::CurveSelected(index), now).0 == (StateView {
            selected: index,
            name_draft: None,
            ..s
        }),
        s.updated(Message::CurveSelected(index), now).1.len() == 0,
        s.updated(Message::ExportConfig, now).0 == s,
        s.config matches Some(config) ==> s.updated(Message::ExportConfig, now).1 == seq![
            EffectView::Export { config },
        ],
        s.updated(Message::Reload, now).1 == seq![EffectView::GetConfig],
{
}

/// Undo and redo are what their messages do, and with nothing to go back or
/// forward to they do nothing.
pub proof fn law_undo_and_redo_need_somewhere_to_go(s: StateView, now: u64)
    ensures
        s.history.len() == 0 ==> s.updated(Message::Undo, now) == (s, Seq::<EffectView>::empty()),
        s.future.len() == 0 ==> s.updated(Message::Redo, now) == (s, Seq::<EffectView>::empty()),
        s.history.len() > 0 ==> s.updated(Message::Undo, now).0.config == Some(s.history.last()),
        s.future.len() > 0 ==> s.updated(Message::Redo, now).0.config == Some(s.future.last()),
{
}

/// Without a target to start from, holding a speed by hand starts at the slowest
/// the fan can run; without a known supply it may go up to the rated ceiling.
pub proof fn law_manual_starts_slow_without_a_target(s: StateView, now: u64)
    ensures
        s.status is None ==> s.updated(Message::ManualToggled(true), now).1 == seq![
            EffectView::SetManual { rpm: Some(500) },
        ],
        s.status is None ==> s.ceiling() == 4000,
        s.status matches Some(status) ==> status.supply_max_rpm is None ==> s.ceiling() == 4000,
        s.status matches Some(status) ==> status.supply_max_rpm matches Some(max) ==> s.ceiling()
            == max,
        s.status matches Some(status) ==> status.target_rpm is None && status.supply_max_rpm is None
            ==> s.updated(Message::ManualToggled(true), now).1 == seq![
            EffectView::SetManual { rpm: Some(500) },
        ],
        s.status matches Some(status) ==> status.supply_max_rpm is None ==> (status.target_rpm
            matches Some(target) ==> 500 <= target <= 4000 ==> s.updated(
            Message::ManualToggled(true),
            now,
        ).1 == seq![EffectView::SetManual { rpm: Some(target) }]),
{
}

/// Lighting that came back frees the cooler for the next, and with nothing
/// chosen meanwhile nothing follows.
pub proof fn law_lighting_that_came_back_frees_the_cooler(
    s: StateView,
    outcome: Result<Option<Warning>, String>,
    now: u64,
)
    requires
        !s.lighting_again,
    ensures
        s.updated(Message::Done(Answer::Light(outcome)), now).1.len() == 0,
        !s.updated(Message::Done(Answer::Light(outcome)), now).0.lighting_out,
        s.updated(Message::Done(Answer::Light(outcome)), now).0.light == s.light,
{
}

/// A window opens with nothing known, nothing asked for and its first tab.
pub proof fn law_a_window_opens_empty()
    ensures
        ({
            let s = StateView::opened();
            &&& s.wf()
            &&& s.status is None && s.config is None && s.committed is None && s.note is None
            &&& s.tab == Tab::Curve && s.selected == 0 && s.pending == 0
            &&& s.manual_intent is None && s.name_draft is None
            &&& s.history.len() == 0 && s.future.len() == 0
            &&& !s.lighting_out && !s.lighting_again && !s.writable
        }),
{
}

} // verus!
