//! Client for the daemon socket.
//!
//! Every call opens its own connection. Requests are rare and answered from a
//! snapshot, and reconnecting per call means a restarted daemon needs no
//! recovery logic here. What is here is what to make of the answers.

use crate::config;
use crate::config::Config;
use crate::gui;
use crate::gui::{Answer, Effect};
use crate::ipc;
use crate::ipc::{Gear, Reply, Request, SensorInfo, Status, Warning};
use crate::text;
use vstd::prelude::*;

verus! {

#[derive(Debug)]
pub struct Client {
    pub path: String,
}

impl Clone for Client {
    fn clone(&self) -> (r: Self)
        ensures
            r.path@ == self.path@,
    {
        Client { path: self.path.clone() }
    }
}

impl Client {
    pub fn new(path: String) -> (client: Self)
        ensures
            client.path == path,
    {
        Client { path }
    }

    pub fn socket(&self) -> (path: &str)
        ensures
            path@ == self.path@,
    {
        self.path.as_str()
    }
}

/// Why the daemon cannot be reached.
#[derive(Debug)]
pub enum Unreachable {
    NotFound,
    PermissionDenied,
    Other(String),
}

pub fn connect_fault(why: Unreachable) -> (message: String)
    ensures
        message@ == (match why {
            Unreachable::NotFound => "daemon is not running"@,
            Unreachable::PermissionDenied => "no permission for the daemon socket"@,
            Unreachable::Other(fault) => fault@,
        }),
{
    match why {
        Unreachable::NotFound => "daemon is not running".to_owned(),
        Unreachable::PermissionDenied => "no permission for the daemon socket".to_owned(),
        Unreachable::Other(fault) => fault,
    }
}

/// Did the daemon answer anything at all?
pub fn answered(line: &str) -> (r: Result<(), String>)
    ensures
        match r {
            Ok(()) => text::trim(line@).len() > 0,
            Err(message) => text::trim(line@).len() == 0 && message@
                == "daemon closed the connection"@,
        },
{
    if text::is_blank(line) {
        Err("daemon closed the connection".to_owned())
    } else {
        Ok(())
    }
}

/// An answer that was understood: an error reply is an error, anything else is
/// for the caller.
pub fn received(parsed: Result<Reply, String>) -> (r: Result<Reply, String>)
    ensures
        match parsed {
            Err(fault) => r matches Err(message) && message@ == fault@,
            Ok(Reply::Error { message: told }) => r matches Err(message) && message@ == told@,
            Ok(reply) => r matches Ok(got) && got@ == reply@,
        },
{
    match parsed {
        Err(fault) => Err(fault),
        Ok(Reply::Error { message }) => Err(message),
        Ok(reply) => Ok(reply),
    }
}

/// What to say about a reply that does not answer the request.
pub fn unexpected(shown: &str) -> (message: String)
    ensures
        message@ == unexpected_view(shown@),
{
    text::joined("unexpected reply: ", shown)
}

/// Milliseconds to wait for an answer: long enough for a daemon busy talking to
/// the cooler, short enough that a wedged one cannot freeze the window.
pub const TIMEOUT_MS: u64 = 500;

/// Lighting is a burst of twenty-odd reports the daemon sends one at a time, so
/// its answer is slow by construction rather than by fault.
pub const LIGHT_TIMEOUT_MS: u64 = 3000;

/// What kind of answer a request is due.
#[derive(Debug, Clone, Copy, PartialEq, Eq, Structural)]
pub enum Expected {
    Acked,
    Light,
    Config,
    Gears,
    Sensors,
}

/// A request to be made.
#[derive(Debug)]
pub struct Call {
    pub request: Request,
    pub timeout_ms: u64,
    pub expected: Expected,
}

/// A reply, by what it says.
pub open spec fn reply_view(reply: Result<Reply, String>) -> Result<ipc::ReplyView, Seq<char>> {
    match reply {
        Ok(reply) => Ok(reply@),
        Err(fault) => Err(fault@),
    }
}

pub open spec fn unexpected_view(shown: Seq<char>) -> Seq<char> {
    "unexpected reply: "@ + shown
}

/// What a reply says to a request that changes something.
pub open spec fn acked(reply: Result<ipc::ReplyView, Seq<char>>, shown: Seq<char>) -> Result<
    Option<ipc::WarningView>,
    Seq<char>,
> {
    match reply {
        Ok(ipc::ReplyView::Done { warning }) => Ok(warning),
        Ok(_) => Err(unexpected_view(shown)),
        Err(fault) => Err(fault),
    }
}

/// What a reply says to a request for the config.
pub open spec fn configured(reply: Result<ipc::ReplyView, Seq<char>>, shown: Seq<char>) -> Result<
    (config::ConfigView, bool),
    Seq<char>,
> {
    match reply {
        Ok(ipc::ReplyView::Config { config, writable }) => Ok((config, writable)),
        Ok(_) => Err(unexpected_view(shown)),
        Err(fault) => Err(fault),
    }
}

/// What a reply says to a request for the gear table.
pub open spec fn geared(reply: Result<ipc::ReplyView, Seq<char>>, shown: Seq<char>) -> Result<
    Seq<ipc::GearView>,
    Seq<char>,
> {
    match reply {
        Ok(ipc::ReplyView::Gears { gears }) => Ok(gears),
        Ok(_) => Err(unexpected_view(shown)),
        Err(fault) => Err(fault),
    }
}

/// What a reply says to a request for the sensors.
pub open spec fn sensed(reply: Result<ipc::ReplyView, Seq<char>>, shown: Seq<char>) -> Result<
    Seq<ipc::SensorInfoView>,
    Seq<char>,
> {
    match reply {
        Ok(ipc::ReplyView::Sensors { sensors }) => Ok(sensors),
        Ok(_) => Err(unexpected_view(shown)),
        Err(fault) => Err(fault),
    }
}

impl Client {
    /// The request that carries out an effect, if it takes one.
    pub fn call(effect: Effect) -> (call: Option<Call>)
        ensures
            match call {
                Some(call) => call.timeout_ms == (if effect is SetLighting {
                    LIGHT_TIMEOUT_MS
                } else {
                    TIMEOUT_MS
                }) && (match effect {
                    Effect::GetConfig => call.request is GetConfig && call.expected is Config,
                    Effect::GetSensors => call.request is Sensors && call.expected is Sensors,
                    Effect::GetGears => call.request is Gears && call.expected is Gears,
                    Effect::SetConfig { config } => call.request == (Request::SetConfig { config })
                        && call.expected is Acked,
                    Effect::SetManual { rpm } => call.request == (Request::SetManual { rpm })
                        && call.expected is Acked,
                    Effect::SetGear { name, rpm } => call.request == (Request::SetGear {
                        gear: name,
                        rpm,
                    }) && call.expected is Acked,
                    Effect::SetLighting { lighting } => call.request == (Request::SetLighting {
                        lighting,
                    }) && call.expected is Light,
                    Effect::SetStandby { standby } => call.request == (Request::SetStandby {
                        standby,
                    }) && call.expected is Acked,
                    Effect::Pick { .. } | Effect::Export { .. } => false,
                }),
                None => effect is Pick || effect is Export,
            },
    {
        let (request, timeout_ms, expected): (Request, u64, Expected) = match effect {
            Effect::GetConfig => (Request::GetConfig, TIMEOUT_MS, Expected::Config),
            Effect::GetSensors => (Request::Sensors, TIMEOUT_MS, Expected::Sensors),
            Effect::GetGears => (Request::Gears, TIMEOUT_MS, Expected::Gears),
            Effect::SetConfig { config } => (
                Request::SetConfig { config },
                TIMEOUT_MS,
                Expected::Acked,
            ),
            Effect::SetManual { rpm } => (Request::SetManual { rpm }, TIMEOUT_MS, Expected::Acked),
            Effect::SetGear { name, rpm } => (
                Request::SetGear { gear: name, rpm },
                TIMEOUT_MS,
                Expected::Acked,
            ),
            Effect::SetLighting { lighting } => (
                Request::SetLighting { lighting },
                LIGHT_TIMEOUT_MS,
                Expected::Light,
            ),
            Effect::SetStandby { standby } => (
                Request::SetStandby { standby },
                TIMEOUT_MS,
                Expected::Acked,
            ),
            Effect::Pick { .. } | Effect::Export { .. } => return None,
        };
        Some(Call { request, timeout_ms, expected })
    }

    /// The config plus whether the daemon can write it back.
    pub fn config(reply: Result<Reply, String>, shown: &str) -> (r: Result<(Config, bool), String>)
        ensures
            (match r {
                Ok((config, writable)) => Ok((config@, writable)),
                Err(fault) => Err(fault@),
            }) == configured(reply_view(reply), shown@),
    {
        match reply {
            Err(fault) => Err(fault),
            Ok(Reply::Config { config, writable }) => Ok((config, writable)),
            Ok(_) => Err(unexpected(shown)),
        }
    }

    pub fn sensors(reply: Result<Reply, String>, shown: &str) -> (r: Result<
        Vec<SensorInfo>,
        String,
    >)
        ensures
            (match r {
                Ok(sensors) => Ok(ipc::sensor_info_views(sensors@)),
                Err(fault) => Err(fault@),
            }) == sensed(reply_view(reply), shown@),
    {
        match reply {
            Err(fault) => Err(fault),
            Ok(Reply::Sensors { sensors }) => Ok(sensors),
            Ok(_) => Err(unexpected(shown)),
        }
    }

    pub fn gears(reply: Result<Reply, String>, shown: &str) -> (r: Result<Vec<Gear>, String>)
        ensures
            (match r {
                Ok(gears) => Ok(ipc::gear_views(gears@)),
                Err(fault) => Err(fault@),
            }) == geared(reply_view(reply), shown@),
    {
        match reply {
            Err(fault) => Err(fault),
            Ok(Reply::Gears { gears }) => Ok(gears),
            Ok(_) => Err(unexpected(shown)),
        }
    }

    /// The answer to a request that changes something.
    pub fn acknowledged(reply: Result<Reply, String>, shown: &str) -> (r: Result<
        Option<Warning>,
        String,
    >)
        ensures
            gui::outcome_view(r) == acked(reply_view(reply), shown@),
    {
        match reply {
            Err(fault) => Err(fault),
            Ok(Reply::Done { warning }) => Ok(warning),
            Ok(_) => Err(unexpected(shown)),
        }
    }

    /// What an answer means to the window.
    pub fn answer(expected: Expected, reply: Result<Reply, String>, shown: &str) -> (answer: Answer)
        ensures
            answer@ == (match expected {
                Expected::Acked => gui::AnswerView::Acked(acked(reply_view(reply), shown@)),
                Expected::Light => gui::AnswerView::Light(acked(reply_view(reply), shown@)),
                Expected::Config => gui::AnswerView::Config(configured(reply_view(reply), shown@)),
                Expected::Gears => gui::AnswerView::Gears(geared(reply_view(reply), shown@)),
                Expected::Sensors => gui::AnswerView::Sensors(sensed(reply_view(reply), shown@)),
            }),
    {
        match expected {
            Expected::Acked => Answer::Acked(Self::acknowledged(reply, shown)),
            Expected::Light => Answer::Light(Self::acknowledged(reply, shown)),
            Expected::Config => Answer::Config(Self::config(reply, shown)),
            Expected::Gears => Answer::Gears(Self::gears(reply, shown)),
            Expected::Sensors => Answer::Sensors(Self::sensors(reply, shown)),
        }
    }
}

/// What to make of a line of a subscribed connection.
#[derive(Debug)]
pub enum Next {
    Update(Status),
    /// The daemon sends nothing but status updates down this connection, so
    /// anything else is a version mismatch worth ignoring rather than tearing
    /// the stream down for.
    Skip,
    /// The stream broke.
    End,
}

/// Is a line of the stream worth parsing? Blank ones are not.
pub fn worth_parsing(line: &str) -> (r: bool)
    ensures
        r == (text::trim(line@).len() != 0),
{
    !text::is_blank(line)
}

pub fn next(parsed: Result<Reply, String>) -> (r: Next)
    ensures
        match parsed {
            Ok(Reply::Status(status)) => r == Next::Update(status),
            Ok(_) => r is Skip,
            Err(_) => r is End,
        },
{
    match parsed {
        Ok(Reply::Status(status)) => Next::Update(status),
        Ok(_) => Next::Skip,
        Err(_) => Next::End,
    }
}

} // verus!
