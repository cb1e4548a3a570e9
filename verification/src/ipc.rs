//! Newline-delimited JSON over a unix socket.
//!
//! Deliberately boring: a GUI in any language can speak it, and it debugs with
//! `socat - UNIX-CONNECT:/run/flydigictl/flydigictl.sock`.

use crate::config;
use crate::config::{Config, Kind};
use crate::curve;
use crate::curve::Demand;
use crate::lighting;
use crate::lighting::{LightMode, Lighting, EFFECT_COUNT};
use crate::protocol::Standby;
use crate::text;
use vstd::prelude::*;

verus! {

pub const DEFAULT_SOCKET: &'static str = "/run/flydigictl/flydigictl.sock";

#[allow(inconsistent_fields)]
#[derive(Debug)]
pub enum Request {
    /// Current fan state as the daemon sees it.
    Status,
    /// Turn this connection into a stream of [`Reply::Status`].
    ///
    /// The daemon writes one every time its picture of the cooler changes and
    /// nothing in between, so a client sees new speeds as fast as the cooler
    /// reports them without asking for them. No further requests are read on a
    /// subscribed connection: open a second one for those.
    Subscribe,
    /// The configuration in force.
    GetConfig,
    /// Replace the configuration.
    SetConfig { config: Config },
    /// Hold a fixed speed; `null` returns to the curves.
    SetManual { rpm: Option<u16> },
    /// The temperature inputs the daemon can read.
    Sensors,
    /// The four speeds stored in the cooler.
    Gears,
    /// Rewrite one of them. Named rather than numbered so a client does not
    /// have to know the order the firmware keeps them in.
    SetGear { gear: String, rpm: u16 },
    /// Change one thing about the lighting.
    Light { light: Light },
    /// Replace the lighting as a whole.
    SetLighting { lighting: Lighting },
    /// What the cooler should do on its own once the host goes away.
    SetStandby { standby: Standby },
}

#[derive(Debug)]
pub enum Light {
    /// Turn the side strip off.
    Off,
    /// Paint it a single colour, `rrggbb` with or without a leading hash.
    Static { color: String, brightness: u8 },
    /// Play one of the firmware's own animations, 1 to 5.
    Effect { mode: u8 },
    /// The gear indicator LEDs, which are a separate light entirely.
    Indicators { on: bool },
}

impl Light {
    /// The lighting a change leads to from another; nothing when it names no
    /// colour or no animation there is.
    pub open spec fn change(self, from: Lighting) -> Option<Lighting> {
        match self {
            Light::Off => Some(Lighting { mode: LightMode::Off, ..from }),
            Light::Static { color, brightness } => match lighting::exact_color(color@) {
                Some(color) => Some(
                    Lighting { mode: LightMode::Static { color }, brightness, ..from },
                ),
                None => None,
            },
            Light::Effect { mode } => if 1 <= mode <= EFFECT_COUNT {
                Some(Lighting { mode: LightMode::Effect { effect: mode }, ..from })
            } else {
                None
            },
            Light::Indicators { on } => Some(Lighting { indicators: on, ..from }),
        }
    }

    /// The lighting this leads to from what is wanted now, or what is wrong
    /// with it.
    pub fn applied(&self, from: Lighting) -> (r: Result<Lighting, String>)
        ensures
            match r {
                Ok(lighting) => self.change(from) == Some(lighting),
                Err(message) => self.change(from) is None && message@ == (match self {
                    Light::Static { color, .. } => "bad color: "@ + color@,
                    Light::Effect { mode } => "no effect "@ + text::dec(*mode as nat),
                    _ => Seq::empty(),
                }),
            },
    {
        match self {
            Self::Off => Ok(Lighting { mode: LightMode::Off, ..from }),
            Self::Static { color, brightness } => match lighting::read_exact_color(
                color.as_str(),
            ) {
                Some(rgb) => Ok(
                    Lighting {
                        mode: LightMode::Static { color: rgb },
                        brightness: *brightness,
                        ..from
                    },
                ),
                None => Err(text::joined("bad color: ", color.as_str())),
            },
            Self::Effect { mode } => if 1 <= *mode && *mode <= EFFECT_COUNT {
                Ok(Lighting { mode: LightMode::Effect { effect: *mode }, ..from })
            } else {
                let mut message = "no effect ".to_owned();
                text::push_dec(&mut message, *mode as u64);
                Err(message)
            },
            Self::Indicators { on } => Ok(Lighting { indicators: *on, ..from }),
        }
    }
}

/// One temperature input as the daemon reports it.
#[derive(Debug)]
pub struct SensorInfo {
    pub kind: Kind,
    pub hwmon: String,
    /// Stable address of the chip or card.
    pub device: String,
    /// What the kernel calls it right now, or a card's power state.
    pub kernel: String,
    pub label: String,
    pub temp_c: Option<u8>,
}

#[verifier::ext_equal]
pub struct SensorInfoView {
    pub kind: Kind,
    pub hwmon: Seq<char>,
    pub device: Seq<char>,
    pub kernel: Seq<char>,
    pub label: Seq<char>,
    pub temp_c: Option<u8>,
}

impl View for SensorInfo {
    type V = SensorInfoView;

    open spec fn view(&self) -> SensorInfoView {
        SensorInfoView {
            kind: self.kind,
            hwmon: self.hwmon@,
            device: self.device@,
            kernel: self.kernel@,
            label: self.label@,
            temp_c: self.temp_c,
        }
    }
}

impl Clone for SensorInfo {
    fn clone(&self) -> (r: Self)
        ensures
            r@ == self@,
    {
        SensorInfo {
            kind: self.kind,
            hwmon: self.hwmon.clone(),
            device: self.device.clone(),
            kernel: self.kernel.clone(),
            label: self.label.clone(),
            temp_c: self.temp_c,
        }
    }
}

pub open spec fn sensor_info_views(sensors: Seq<SensorInfo>) -> Seq<SensorInfoView> {
    Seq::new(sensors.len(), |i: int| sensors[i]@)
}

#[derive(Debug)]
pub enum Reply {
    Status(Status),
    Gears { gears: Vec<Gear> },
    Config {
        config: Config,
        /// False when the daemon cannot persist changes, e.g. a NixOS store path.
        writable: bool,
    },
    Sensors { sensors: Vec<SensorInfo> },
    Done {
        /// Set when a change was applied but could not be written to disk.
        warning: Option<Warning>,
    },
    Error { message: String },
}

#[verifier::ext_equal]
pub enum ReplyView {
    Status(StatusView),
    Gears { gears: Seq<GearView> },
    Config { config: config::ConfigView, writable: bool },
    Sensors { sensors: Seq<SensorInfoView> },
    Done { warning: Option<WarningView> },
    Error { message: Seq<char> },
}

impl View for Reply {
    type V = ReplyView;

    open spec fn view(&self) -> ReplyView {
        match self {
            Reply::Status(status) => ReplyView::Status(status@),
            Reply::Gears { gears } => ReplyView::Gears { gears: gear_views(gears@) },
            Reply::Config { config, writable } => ReplyView::Config {
                config: config@,
                writable: *writable,
            },
            Reply::Sensors { sensors } => ReplyView::Sensors {
                sensors: sensor_info_views(sensors@),
            },
            Reply::Done { warning } => ReplyView::Done { warning: warning_view(*warning) },
            Reply::Error { message } => ReplyView::Error { message: message@ },
        }
    }
}

/// One stored gear speed.
#[derive(Debug)]
pub struct Gear {
    pub name: String,
    pub rpm: u16,
    /// False when the supply cannot carry this gear, so the cooler stores the
    /// speed but refuses to run it.
    pub allowed: bool,
}

#[verifier::ext_equal]
pub struct GearView {
    pub name: Seq<char>,
    pub rpm: u16,
    pub allowed: bool,
}

impl View for Gear {
    type V = GearView;

    open spec fn view(&self) -> GearView {
        GearView { name: self.name@, rpm: self.rpm, allowed: self.allowed }
    }
}

impl Clone for Gear {
    fn clone(&self) -> (r: Self)
        ensures
            r@ == self@,
    {
        Gear { name: self.name.clone(), rpm: self.rpm, allowed: self.allowed }
    }
}

pub open spec fn gear_views(gears: Seq<Gear>) -> Seq<GearView> {
    Seq::new(gears.len(), |i: int| gears[i]@)
}

/// A warning carries a stable code alongside its text.
///
/// The text names the config path, and on NixOS that path changes on every
/// rebuild - so a client that wants to show each warning once must dedupe on
/// `code`, never on `message`.
#[derive(Debug)]
pub struct Warning {
    pub code: WarningCode,
    pub message: String,
}

#[verifier::ext_equal]
pub struct WarningView {
    pub code: WarningCode,
    pub message: Seq<char>,
}

impl View for Warning {
    type V = WarningView;

    open spec fn view(&self) -> WarningView {
        WarningView { code: self.code, message: self.message@ }
    }
}

impl Clone for Warning {
    fn clone(&self) -> (r: Self)
        ensures
            r@ == self@,
    {
        Warning { code: self.code, message: self.message.clone() }
    }
}

pub open spec fn warning_view(warning: Option<Warning>) -> Option<WarningView> {
    match warning {
        Some(warning) => Some(warning@),
        None => None,
    }
}

#[derive(Debug, Clone, Copy, PartialEq, Eq, Structural)]
pub enum WarningCode {
    /// The config cannot be written: changes are live but not persisted.
    ConfigReadOnly,
    /// The config is writable in principle, but saving failed.
    ConfigSaveFailed,
    /// The cooler's power supply caps the speed below what was asked for.
    SupplyLimited,
}

#[derive(Debug)]
pub struct Status {
    pub model: String,
    pub connected: bool,
    pub temp_c: Option<u8>,
    pub current_rpm: Option<u16>,
    pub target_rpm: Option<u16>,
    pub manual: bool,
    /// The speed held by hand, if one is.
    pub manual_rpm: Option<u16>,
    /// What the cooler is powered by: `low`, `medium`, `full` or unknown.
    pub supply: Option<String>,
    /// The speed the supply allows. A target above this is clamped by the
    /// firmware, so a client showing the curve should show this line too.
    pub supply_max_rpm: Option<u16>,
    /// The lighting last asked for; nothing reports what is showing.
    pub lighting: Option<Lighting>,
    /// Whether the side strip is powered, where the cooler said so.
    pub strip_on: Option<bool>,
    /// Curve currently setting the speed, so a client can say *why* it is loud.
    pub leading: Option<String>,
    /// Curves that read nothing because what they watch is asleep.
    pub asleep: Vec<String>,
    /// Curves whose sensor is there and awake and still gives nothing.
    pub unreadable: Vec<String>,
    /// Moves whenever the configuration changed, so a client knows to refetch.
    pub revision: u64,
    /// Every curve's reading and demand, for graphs and debugging.
    pub demands: Vec<Demand>,
}

#[verifier::ext_equal]
pub struct StatusView {
    pub model: Seq<char>,
    pub connected: bool,
    pub temp_c: Option<u8>,
    pub current_rpm: Option<u16>,
    pub target_rpm: Option<u16>,
    pub manual: bool,
    pub manual_rpm: Option<u16>,
    pub supply: Option<Seq<char>>,
    pub supply_max_rpm: Option<u16>,
    pub lighting: Option<Lighting>,
    pub strip_on: Option<bool>,
    pub leading: Option<Seq<char>>,
    pub asleep: Seq<Seq<char>>,
    pub unreadable: Seq<Seq<char>>,
    pub revision: u64,
    pub demands: Seq<curve::DemandView>,
}

impl View for Status {
    type V = StatusView;

    open spec fn view(&self) -> StatusView {
        StatusView {
            model: self.model@,
            connected: self.connected,
            temp_c: self.temp_c,
            current_rpm: self.current_rpm,
            target_rpm: self.target_rpm,
            manual: self.manual,
            manual_rpm: self.manual_rpm,
            supply: text::opt_view(self.supply),
            supply_max_rpm: self.supply_max_rpm,
            lighting: self.lighting,
            strip_on: self.strip_on,
            leading: text::opt_view(self.leading),
            asleep: text::views(self.asleep@),
            unreadable: text::views(self.unreadable@),
            revision: self.revision,
            demands: curve::demand_views(self.demands@),
        }
    }
}

impl Clone for Status {
    fn clone(&self) -> (r: Self)
        ensures
            r@ == self@,
    {
        Status {
            model: self.model.clone(),
            connected: self.connected,
            temp_c: self.temp_c,
            current_rpm: self.current_rpm,
            target_rpm: self.target_rpm,
            manual: self.manual,
            manual_rpm: self.manual_rpm,
            supply: text::clone_opt(&self.supply),
            supply_max_rpm: self.supply_max_rpm,
            lighting: self.lighting,
            strip_on: self.strip_on,
            leading: text::clone_opt(&self.leading),
            asleep: text::clone_strings(&self.asleep),
            unreadable: text::clone_strings(&self.unreadable),
            revision: self.revision,
            demands: curve::clone_demands(&self.demands),
        }
    }
}

impl StatusView {
    /// What subscribers are told while no cooler is attached.
    pub open spec fn disconnected() -> StatusView {
        StatusView {
            model: Seq::empty(),
            connected: false,
            temp_c: None,
            current_rpm: None,
            target_rpm: None,
            manual: false,
            manual_rpm: None,
            supply: None,
            supply_max_rpm: None,
            lighting: None,
            strip_on: None,
            leading: None,
            asleep: Seq::empty(),
            unreadable: Seq::empty(),
            revision: 0,
            demands: Seq::empty(),
        }
    }
}

impl Status {
    /// What subscribers are told while no cooler is attached.
    ///
    /// Sent rather than nothing so a client can tell "the cooler is unplugged"
    /// from "the daemon died", which look identical if silence is the only
    /// signal.
    pub fn disconnected() -> (status: Self)
        ensures
            status@ == StatusView::disconnected(),
    {
        let status = Self {
            model: String::new(),
            connected: false,
            temp_c: None,
            current_rpm: None,
            target_rpm: None,
            manual: false,
            manual_rpm: None,
            supply: None,
            supply_max_rpm: None,
            lighting: None,
            strip_on: None,
            leading: None,
            asleep: Vec::new(),
            unreadable: Vec::new(),
            revision: 0,
            demands: Vec::new(),
        };
        proof {
            assert(status@ =~= StatusView::disconnected());
        }
        status
    }
}

/// A change to one thing about the lighting leaves everything else about it as
/// it was.
pub proof fn law_one_thing_changes_at_a_time(light: Light, from: Lighting)
    ensures
        light is Off ==> light.change(from) == Some(
            Lighting {
                mode: LightMode::Off,
                brightness: from.brightness,
                indicators: from.indicators,
            },
        ),
        light matches Light::Indicators { on } ==> light.change(from) == Some(
            Lighting { mode: from.mode, brightness: from.brightness, indicators: on },
        ),
        light matches Light::Effect { mode } ==> (light.change(from) is Some <==> 1 <= mode <= 5),
        light matches Light::Effect { mode } ==> light.change(from) matches Some(lighting)
            ==> lighting.mode == (LightMode::Effect { effect: mode }) && lighting.brightness
            == from.brightness && lighting.indicators == from.indicators,
        light matches Light::Static { color, brightness } ==> (light.change(from) is Some
            <==> lighting::exact_color(color@) is Some),
        light matches Light::Static { color, brightness } ==> light.change(from) matches Some(
            lighting,
        ) ==> lighting::exact_color(color@) is Some && lighting.mode == (LightMode::Static {
            color: lighting::exact_color(color@)->0,
        }) && lighting.brightness == brightness && lighting.indicators == from.indicators,
{
}

} // verus!
