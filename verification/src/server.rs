//! The daemon's side of the socket: what clients are told without disturbing
//! the control loop, and where their requests go.

use crate::config;
use crate::config::Kind;
use crate::control;
use crate::error::Error;
use crate::ipc;
use crate::ipc::{Reply, Request, SensorInfo, Status};
use crate::nvidia;
use crate::nvidia::Part;
use crate::runner;
use crate::sensor;
use crate::sensor::Available;
use crate::text;
use vstd::prelude::*;

verus! {

/// Everything a client can read without disturbing the control loop.
#[derive(Debug)]
pub struct Snapshot {
    pub status: Option<Status>,
}

/// What subscribers are told when one picture of the cooler replaces another. A
/// cooler that stays away is no news.
pub open spec fn update(
    before: Option<ipc::StatusView>,
    after: Option<ipc::StatusView>,
) -> Option<ipc::StatusView> {
    match (before, after) {
        (_, Some(status)) => Some(status),
        (Some(_), None) => Some(ipc::StatusView::disconnected()),
        (None, None) => None,
    }
}

/// What a client that just subscribed is told first.
pub open spec fn greeting(status: Option<ipc::StatusView>) -> ipc::StatusView {
    match status {
        Some(status) => status,
        None => ipc::StatusView::disconnected(),
    }
}

/// A client that subscribes after an update is greeted with what the others
/// were just told, so it does not matter when one attaches.
pub proof fn law_late_subscribers_miss_nothing(
    before: Option<ipc::StatusView>,
    after: Option<ipc::StatusView>,
)
    ensures
        update(before, after) matches Some(told) ==> greeting(after) == told,
        update(before, after) is None ==> greeting(after) == greeting(before),
{
}

impl Snapshot {
    pub fn new() -> (snapshot: Self)
        ensures
            snapshot.status is None,
    {
        Snapshot { status: None }
    }

    /// Store a new picture of the cooler, and say what every subscriber is to
    /// be told.
    pub fn publish(&mut self, status: Option<Status>) -> (update: Option<Status>)
        ensures
            control::status_view(final(self).status) == control::status_view(status),
            control::status_view(update) == self::update(
                control::status_view(old(self).status),
                control::status_view(status),
            ),
    {
        match status {
            Some(status) => {
                let update = status.clone();
                self.status = Some(status);
                Some(update)
            },
            None => {
                if self.status.is_none() {
                    return None;
                }
                self.status = None;
                Some(Status::disconnected())
            },
        }
    }

    /// What a client that just subscribed is told first.
    ///
    /// The current snapshot goes out before any update so a client that
    /// connects between two has something to draw immediately rather than an
    /// empty window.
    pub fn first(&self) -> (status: Status)
        ensures
            status@ == greeting(control::status_view(self.status)),
    {
        match &self.status {
            Some(status) => status.clone(),
            None => Status::disconnected(),
        }
    }

    /// The answer to a request for the status.
    pub fn answer(&self) -> (reply: Reply)
        ensures
            reply@ == (match self.status {
                Some(status) => ipc::ReplyView::Status(status@),
                None => ipc::ReplyView::Error { message: "no device yet"@ },
            }),
    {
        match &self.status {
            Some(status) => Reply::Status(status.clone()),
            None => Reply::Error { message: "no device yet".to_owned() },
        }
    }
}

/// Is a line from a client worth parsing?
pub fn worth_parsing(line: &str) -> (r: bool)
    ensures
        r == (text::trim(line@).len() != 0),
{
    !text::is_blank(line)
}

/// Where a request goes.
#[derive(Debug)]
pub enum Route {
    /// Turn the connection into a stream of updates.
    Stream,
    /// Answer right here.
    Answer(Reply),
    /// Ask the control loop.
    Forward(Request),
}

/// Decide where a request goes.
///
/// Status is served straight from the shared snapshot so a stuck control loop
/// cannot block a client that is only polling.
pub fn route(parsed: Result<Request, String>, snapshot: &Snapshot) -> (route: Route)
    ensures
        match parsed {
            Err(fault) => route matches Route::Answer(reply) && reply@ == (ipc::ReplyView::Error {
                message: "bad request: "@ + fault@,
            }),
            Ok(Request::Subscribe) => route is Stream,
            Ok(Request::Status) => route matches Route::Answer(reply) && reply@ == (
            match snapshot.status {
                Some(status) => ipc::ReplyView::Status(status@),
                None => ipc::ReplyView::Error { message: "no device yet"@ },
            }),
            Ok(request) => route == Route::Forward(request),
        },
{
    match parsed {
        Err(fault) => Route::Answer(
            Reply::Error { message: text::joined("bad request: ", fault.as_str()) },
        ),
        Ok(Request::Subscribe) => Route::Stream,
        Ok(Request::Status) => Route::Answer(snapshot.answer()),
        Ok(request) => Route::Forward(request),
    }
}

/// What a client is told when the control loop is gone.
pub fn shutting_down() -> (reply: Reply)
    ensures
        reply@ == (ipc::ReplyView::Error { message: "daemon shutting down"@ }),
{
    Reply::Error { message: "daemon shutting down".to_owned() }
}

/// A line that stands in for a reply that could not be written out.
pub fn unwritable(fault: &str) -> (line: String)
    ensures
        line@ == "{\"reply\":\"error\",\"message\":\""@ + fault@ + "\"}"@,
{
    let mut line = text::joined("{\"reply\":\"error\",\"message\":\"", fault);
    line.append("\"}");
    line
}

/// Whose listening socket to use.
#[derive(Debug, Clone, Copy, PartialEq, Eq, Structural)]
pub enum Listener {
    /// The one systemd passed.
    Inherited,
    /// Our own.
    Bound,
    /// Our own, because systemd passed some other number than one.
    BoundInstead,
}

/// Whose socket the environment tells to use.
pub open spec fn passed(
    listen_pid: Option<Seq<char>>,
    pid: nat,
    listen_fds: Option<Seq<char>>,
) -> Listener {
    match (listen_pid, listen_fds) {
        (Some(whose), Some(fds)) => if whose != text::dec(pid) {
            Listener::Bound
        } else if fds == "1"@ {
            Listener::Inherited
        } else {
            Listener::BoundInstead
        },
        _ => Listener::Bound,
    }
}

/// Did systemd pass us a listener?
///
/// Ownership and permissions of the socket are systemd's business: it creates
/// it before the daemon starts, which is also how the daemon can drop root and
/// still hand a usable socket to a desktop client.
pub fn inherited_listener(listen_pid: Option<&str>, pid: u32, listen_fds: Option<&str>) -> (r:
    Listener)
    ensures
        r == (if text::str_view(listen_pid) != Some(text::dec(pid as nat)) || listen_fds is None {
            Listener::Bound
        } else if text::str_view(listen_fds) == Some("1"@) {
            Listener::Inherited
        } else {
            Listener::BoundInstead
        }),
        r == passed(text::str_view(listen_pid), pid as nat, text::str_view(listen_fds)),
{
    let ours = match listen_pid {
        Some(listen_pid) => text::same(listen_pid, text::decimal(pid as u64).as_str()),
        None => false,
    };
    if !ours {
        return Listener::Bound;
    }
    match listen_fds {
        Some(listen_fds) => if text::same(listen_fds, "1") {
            Listener::Inherited
        } else {
            Listener::BoundInstead
        },
        None => Listener::Bound,
    }
}

/// What is wrong when our own socket cannot be bound.
pub fn bind_fault(path: String, denied: bool, source: String) -> (error: Error)
    ensures
        error@ == (if denied {
            crate::error::ErrorView::Config(
                "no socket was passed and "@ + path@ + " cannot be created here: start "@
                    + "flydigictld.socket, or point --socket somewhere writable"@,
            )
        } else {
            crate::error::ErrorView::Open { path: path@, source: source@ }
        }),
{
    if denied {
        let mut message = text::joined("no socket was passed and ", path.as_str());
        message.append(" cannot be created here: start ");
        message.append("flydigictld.socket, or point --socket somewhere writable");
        Error::Config(message)
    } else {
        Error::Open { path, source }
    }
}

/// An NVIDIA card as found: its power state, and what it answered for each of
/// its parts if it was asked.
#[derive(Debug)]
pub struct Card {
    pub address: String,
    pub status: Option<String>,
    pub core: Option<String>,
    pub memory: Option<String>,
}

impl Card {
    /// What it answered for a part.
    pub open spec fn answer(self, part: Part) -> Option<Seq<char>> {
        match part {
            Part::Core => text::opt_view(self.core),
            Part::Memory => text::opt_view(self.memory),
        }
    }

    /// How a client sees a part of it. A sleeping card has no reading; the
    /// state is carried so a client can say so rather than guess.
    pub open spec fn info(self, part: Part) -> ipc::SensorInfoView {
        ipc::SensorInfoView {
            kind: Kind::Nvidia,
            hwmon: "nvidia"@,
            device: self.address@,
            kernel: match self.status {
                Some(status) => text::trim(status@),
                None => Seq::empty(),
            },
            label: part.words(),
            temp_c: nvidia::temperature(text::opt_view(self.status), self.answer(part)),
        }
    }

    fn described(&self, part: Part) -> (info: SensorInfo)
        ensures
            info@ == self.info(part),
    {
        let status = text::as_str(&self.status);
        let kernel = match nvidia::power_state(status) {
            Some(state) => state,
            None => String::new(),
        };
        let answer = match part {
            Part::Core => text::as_str(&self.core),
            Part::Memory => text::as_str(&self.memory),
        };
        let info = SensorInfo {
            kind: Kind::Nvidia,
            hwmon: "nvidia".to_owned(),
            device: self.address.clone(),
            kernel,
            label: part.label().to_owned(),
            temp_c: nvidia::read_temperature(status, answer),
        };
        proof {
            assert(info@ =~= self.info(part));
        }
        info
    }
}

/// How a client sees the cards: two readings for each, its core and then its
/// memory.
pub open spec fn card_infos(cards: Seq<Card>) -> Seq<ipc::SensorInfoView> {
    Seq::new(
        2 * cards.len(),
        |i: int|
            cards[i / 2].info(
                if i % 2 == 0 {
                    Part::Core
                } else {
                    Part::Memory
                },
            ),
    )
}

/// A curve set to a reading as it is listed follows the part of the card that
/// the reading came from.
pub proof fn law_a_listed_part_is_the_one_followed(
    card: Card,
    part: Part,
    list: Seq<sensor::AvailableView>,
    cards: Seq<Seq<char>>,
)
    requires
        card.address@.len() > 0,
    ensures
        runner::SourceView::of(
            config::SensorView {
                kind: card.info(part).kind,
                hwmon: card.info(part).hwmon,
                device: card.info(part).device,
                label: card.info(part).label,
            },
            list,
            cards,
        ) == (runner::SourceView::Nvidia {
            card: card.address@,
            part,
            present: cards.contains(card.address@),
        }),
{
    nvidia::law_parts_are_found_by_their_label(part);
}

/// How a client sees an input of a chip, with what its file holds.
pub open spec fn input_info(
    entry: sensor::AvailableView,
    contents: Option<Seq<char>>,
) -> ipc::SensorInfoView {
    ipc::SensorInfoView {
        kind: Kind::Hwmon,
        hwmon: entry.hwmon,
        device: entry.device,
        kernel: entry.kernel,
        label: entry.label,
        temp_c: match contents {
            Some(contents) => sensor::degrees(contents),
            None => None,
        },
    }
}

/// The inputs the daemon can read and what they read, chips first, then cards.
pub fn sensors_listed(list: &Vec<Available>, contents: &Vec<Option<String>>, cards: &Vec<Card>) -> (
reply: Reply)
    requires
        list@.len() == contents@.len(),
    ensures
        reply@ == (ipc::ReplyView::Sensors {
            sensors: Seq::new(
                list@.len(),
                |i: int| input_info(list@[i]@, text::opt_view(contents@[i])),
            ) + card_infos(cards@),
        }),
{
    let mut sensors: Vec<SensorInfo> = Vec::new();
    let mut i: usize = 0;
    while i < list.len()
        invariant
            i <= list@.len(),
            list@.len() == contents@.len(),
            sensors@.len() == i,
            forall|k: int|
                0 <= k < i ==> (#[trigger] sensors@[k])@ == input_info(
                    list@[k]@,
                    text::opt_view(contents@[k]),
                ),
        decreases list@.len() - i,
    {
        let entry = &list[i];
        let temp_c = match &contents[i] {
            Some(contents) => sensor::read(contents.as_str()),
            None => None,
        };
        sensors.push(
            SensorInfo {
                kind: Kind::Hwmon,
                hwmon: entry.hwmon.clone(),
                device: entry.device.clone(),
                kernel: entry.kernel.clone(),
                label: entry.label.clone(),
                temp_c,
            },
        );
        i += 1;
    }
    let mut k: usize = 0;
    while k < cards.len()
        invariant
            k <= cards@.len(),
            list@.len() == contents@.len(),
            sensors@.len() == list@.len() + 2 * k,
            forall|j: int|
                0 <= j < list@.len() ==> (#[trigger] sensors@[j])@ == input_info(
                    list@[j]@,
                    text::opt_view(contents@[j]),
                ),
            forall|j: int|
                list@.len() <= j < list@.len() + 2 * k ==> (#[trigger] sensors@[j])@
                    == card_infos(cards@)[j - list@.len()],
        decreases cards@.len() - k,
    {
        sensors.push(cards[k].described(Part::Core));
        sensors.push(cards[k].described(Part::Memory));
        proof {
            assert(card_infos(cards@)[2 * k] == cards@[k as int].info(Part::Core));
            assert(card_infos(cards@)[2 * k + 1] == cards@[k as int].info(Part::Memory));
        }
        k += 1;
    }
    let reply = Reply::Sensors { sensors };
    proof {
        assert(ipc::sensor_info_views(sensors@) =~= Seq::new(
            list@.len(),
            |i: int| input_info(list@[i]@, text::opt_view(contents@[i])),
        ) + card_infos(cards@));
    }
    reply
}

/// Does a batch of directory events concern the config file? Events without a
/// name do not.
pub fn touches(names: &Vec<Option<String>>, name: &str) -> (r: bool)
    ensures
        r == exists|i: int|
            0 <= i < names@.len() && text::opt_view(#[trigger] names@[i]) == Some(name@),
{
    let mut i: usize = 0;
    while i < names.len()
        invariant
            i <= names@.len(),
            forall|k: int| 0 <= k < i ==> text::opt_view(#[trigger] names@[k]) != Some(name@),
        decreases names@.len() - i,
    {
        if let Some(one) = &names[i] {
            if text::same(one.as_str(), name) {
                proof {
                    assert(text::opt_view(names@[i as int]) == Some(name@));
                }
                return true;
            }
        }
        i += 1;
    }
    false
}

/// A card is listed twice, its core before its memory, both under its address
/// and power state and each with its own label and reading.
pub proof fn law_cards_are_listed_part_by_part(cards: Seq<Card>, k: int)
    requires
        0 <= k < cards.len(),
    ensures
        ({
            let all = card_infos(cards);
            let core = all[2 * k];
            let memory = all[2 * k + 1];
            &&& all.len() == 2 * cards.len()
            &&& core.label == "core"@ && memory.label == "memory"@
            &&& core.kind == Kind::Nvidia && memory.kind == Kind::Nvidia
            &&& core.hwmon == "nvidia"@ && memory.hwmon == "nvidia"@
            &&& core.device == cards[k].address@ && memory.device == cards[k].address@
            &&& core.kernel == memory.kernel
            &&& cards[k].status is None ==> core.kernel.len() == 0
            &&& cards[k].status matches Some(status) ==> core.kernel == text::trim(status@)
            &&& core.temp_c == nvidia::temperature(
                text::opt_view(cards[k].status),
                text::opt_view(cards[k].core),
            )
            &&& memory.temp_c == nvidia::temperature(
                text::opt_view(cards[k].status),
                text::opt_view(cards[k].memory),
            )
        }),
{
    nvidia::law_parts_have_names_of_their_own(Seq::empty());
}

/// An input of a chip is listed as it is offered, with what its file reads.
pub proof fn law_inputs_are_listed_as_offered(
    entry: sensor::AvailableView,
    contents: Option<Seq<char>>,
)
    ensures
        ({
            let info = input_info(entry, contents);
            &&& info.kind == Kind::Hwmon
            &&& info.hwmon == entry.hwmon && info.device == entry.device
            &&& info.kernel == entry.kernel && info.label == entry.label
            &&& contents is None ==> info.temp_c is None
            &&& contents matches Some(text) ==> info.temp_c == sensor::degrees(text)
        }),
{
}

/// Subscribers are told of every picture of a cooler, of its going away, and of
/// nothing while there is none.
pub proof fn law_subscribers_are_told_what_changed(
    before: Option<ipc::StatusView>,
    after: Option<ipc::StatusView>,
)
    ensures
        after is Some ==> update(before, after) == after,
        after is None && before is Some ==> (update(before, after) matches Some(told)
            && !told.connected),
        after is None && before is None ==> update(before, after) is None,
        greeting(None).connected == false,
{
}

/// A listener is taken over only when it was passed to this very process and is
/// the only one; any other number of them is not, and neither is one meant for
/// another process.
pub proof fn law_only_our_own_listener_is_taken_over(
    listen_pid: Option<Seq<char>>,
    pid: nat,
    listen_fds: Option<Seq<char>>,
)
    ensures
        passed(listen_pid, pid, listen_fds) == Listener::Inherited <==> listen_pid == Some(
            text::dec(pid),
        ) && listen_fds == Some("1"@),
        passed(listen_pid, pid, listen_fds) == Listener::BoundInstead <==> listen_pid == Some(
            text::dec(pid),
        ) && listen_fds is Some && listen_fds != Some("1"@),
        passed(listen_pid, pid, listen_fds) == Listener::Bound <==> listen_pid != Some(
            text::dec(pid),
        ) || listen_fds is None,
{
}

} // verus!
