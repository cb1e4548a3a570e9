//! Temperature of an NVIDIA GPU, asked for only when it is awake.
//!
//! The driver publishes no hwmon, so the only way in is the vendor tool - and
//! that wakes a sleeping card. On a laptop the card sleeps nearly all the time
//! and pulling it out of D3cold costs power, seconds of latency and, on this
//! chassis, a fan spin-up: the exact things a fan curve is meant to avoid.
//!
//! So the power state is checked first, in sysfs, where looking costs nothing.
//! A sleeping card reports no temperature at all, which is the truth: it is
//! making no heat worth answering.

use crate::text;
use vstd::prelude::*;

verus! {

/// One entry under `/sys/bus/pci/devices`, by what its files hold.
#[derive(Debug)]
pub struct PciDevice {
    pub address: String,
    pub vendor: Option<String>,
    pub class: Option<String>,
}

impl PciDevice {
    /// A display controller with NVIDIA's vendor identifier.
    pub open spec fn gpu(self) -> bool {
        &&& self.vendor matches Some(vendor) && text::trim(vendor@) == "0x10de"@
        &&& self.class matches Some(class) && text::begins(text::trim(class@), "0x030"@)
    }
}

/// The addresses of the GPUs among the devices of a machine.
pub open spec fn gpus(devices: Seq<PciDevice>) -> Seq<Seq<char>>
    decreases devices.len(),
{
    if devices.len() == 0 {
        Seq::empty()
    } else if devices.last().gpu() {
        gpus(devices.drop_last()).push(devices.last().address@)
    } else {
        gpus(devices.drop_last())
    }
}

fn is_gpu(device: &PciDevice) -> (r: bool)
    ensures
        r == device.gpu(),
{
    let ours = match &device.vendor {
        Some(vendor) => text::same(text::trimmed_string(vendor.as_str()).as_str(), "0x10de"),
        None => false,
    };
    let display = match &device.class {
        Some(class) => {
            let chars = text::chars_of(class.as_str());
            text::begins_with(text::trimmed(chars.as_slice()), "0x030")
        },
        None => false,
    };
    ours && display
}

/// Every NVIDIA GPU on the machine, by PCI address.
pub fn cards(devices: &Vec<PciDevice>) -> (found: Vec<String>)
    ensures
        text::views(found@) == text::in_order(gpus(devices@)),
{
    let mut found: Vec<String> = Vec::new();
    let mut i: usize = 0;
    proof {
        assert(devices@.take(0) =~= Seq::<PciDevice>::empty());
        assert(text::views(found@) =~= Seq::<Seq<char>>::empty());
    }
    while i < devices.len()
        invariant
            i <= devices@.len(),
            text::views(found@) == gpus(devices@.take(i as int)),
        decreases devices@.len() - i,
    {
        let ghost before = text::views(found@);
        proof {
            let next = devices@.take(i + 1);
            assert(next.drop_last() =~= devices@.take(i as int));
            assert(next.last() == devices@[i as int]);
        }
        if is_gpu(&devices[i]) {
            found.push(devices[i].address.clone());
            proof {
                assert(text::views(found@) =~= before.push(devices@[i as int].address@));
            }
        }
        i += 1;
    }
    proof {
        assert(devices@.take(i as int) =~= devices@);
    }
    text::sort_names(found)
}

/// A card's power state, out of the file that holds it.
pub open spec fn state(status: Option<Seq<char>>) -> Option<Seq<char>> {
    match status {
        Some(status) => Some(text::trim(status)),
        None => None,
    }
}

/// Is a card known to be asleep?
pub open spec fn sleeping(status: Option<Seq<char>>) -> bool {
    state(status) matches Some(state) && state != "active"@
}

/// Is the card awake? `None` when it has no runtime power management at all,
/// in which case it is always awake.
pub fn awake(status: Option<&str>) -> (r: Option<bool>)
    ensures
        r == (match status {
            Some(status) => Some(text::trim(status@) == "active"@),
            None => None,
        }),
{
    match status {
        Some(status) => Some(text::same(text::trimmed_string(status).as_str(), "active")),
        None => None,
    }
}

/// A card's power state, for anyone wanting to show it.
pub fn power_state(status: Option<&str>) -> (r: Option<String>)
    ensures
        text::opt_view(r) == state(text::str_view(status)),
{
    match status {
        Some(status) => Some(text::trimmed_string(status)),
        None => None,
    }
}

/// Should a card be asked for its temperature at all? Not while it sleeps: the
/// asking is what would wake it.
pub fn worth_asking(status: Option<&str>) -> (r: bool)
    ensures
        r == !sleeping(text::str_view(status)),
{
    match awake(status) {
        Some(awake) => awake,
        None => true,
    }
}

/// The parts of a card that have a temperature of their own.
#[derive(Debug, Clone, Copy, PartialEq, Eq, Structural)]
pub enum Part {
    Core,
    Memory,
}

impl Part {
    /// What a reading of the part is labelled.
    pub open spec fn words(self) -> Seq<char> {
        match self {
            Part::Core => "core"@,
            Part::Memory => "memory"@,
        }
    }

    /// The part a label stands for. Only the memory has to be asked for: a
    /// curve that names no part follows the core.
    pub open spec fn of(label: Seq<char>) -> Part {
        if label == Part::Memory.words() {
            Part::Memory
        } else {
            Part::Core
        }
    }

    /// The field the vendor tool is asked for.
    pub open spec fn field(self) -> Seq<char> {
        match self {
            Part::Core => "temperature.gpu"@,
            Part::Memory => "temperature.memory"@,
        }
    }

    pub fn label(self) -> (r: &'static str)
        ensures
            r@ == self.words(),
    {
        match self {
            Part::Core => "core",
            Part::Memory => "memory",
        }
    }

    pub fn named(label: &str) -> (r: Part)
        ensures
            r == Part::of(label@),
    {
        if text::same(label, "memory") {
            Part::Memory
        } else {
            Part::Core
        }
    }

    pub fn query(self) -> (r: &'static str)
        ensures
            r@ == self.field(),
    {
        match self {
            Part::Core => "temperature.gpu",
            Part::Memory => "temperature.memory",
        }
    }
}

/// A part is found again by its label, so the two are told apart by it, and a
/// curve without a label follows the core.
pub proof fn law_parts_are_found_by_their_label(part: Part)
    ensures
        Part::of(part.words()) == part,
        part.words().len() > 0,
        Part::of(Seq::empty()) == Part::Core,
{
    reveal_strlit("core");
    reveal_strlit("memory");
    assert("core"@.len() != "memory"@.len());
}

/// The temperature an answer gives, if it makes sense for a card.
pub open spec fn parsed(answer: Seq<char>) -> Option<u8> {
    match text::unsigned(text::trim(answer), 10, 0xFFFF_FFFF) {
        Some(v) => if 0 < v < 128 {
            Some(v as u8)
        } else {
            None
        },
        None => None,
    }
}

/// The temperature of a part, by the card's power state and the answer.
pub open spec fn temperature(status: Option<Seq<char>>, answer: Option<Seq<char>>) -> Option<u8> {
    match answer {
        Some(answer) => if sleeping(status) {
            None
        } else {
            parsed(answer)
        },
        None => None,
    }
}

pub fn parse(text: &str) -> (r: Option<u8>)
    ensures
        r == parsed(text@),
{
    let chars = text::chars_of(text);
    match text::read_unsigned(text::trimmed(chars.as_slice()), 10, 0xFFFF_FFFF) {
        Some(v) => if v > 0 && v < 128 {
            Some(v as u8)
        } else {
            None
        },
        None => None,
    }
}

/// The temperature of a part of a card in whole degrees, or `None` when the
/// card is asleep, when there is no tool to ask with, or when the answer makes
/// no sense.
///
/// `answer` is what the vendor tool printed when asked for the part, if it was
/// there and succeeded.
pub fn read_temperature(status: Option<&str>, answer: Option<&str>) -> (r: Option<u8>)
    ensures
        r == temperature(text::str_view(status), text::str_view(answer)),
{
    if !worth_asking(status) {
        return None;
    }
    match answer {
        Some(answer) => parse(answer),
        None => None,
    }
}

/// An answer is a whole number of degrees, from one up to what a byte with a
/// sign holds; anything else makes no sense for a card.
pub proof fn law_answers_are_whole_degrees(answer: Seq<char>, n: nat)
    ensures
        text::trim(answer) == text::dec(n) ==> parsed(answer) == (if 1 <= n <= 127 {
            Some(n as u8)
        } else {
            None
        }),
        text::trim(answer).len() == 0 ==> parsed(answer) is None,
        parsed(answer) matches Some(t) ==> 1 <= t <= 127,
{
    text::law_decimals_read_back(n, 0xFFFF_FFFF);
}

/// A card is asleep when its power state is known and anything but active. A
/// sleeping card has no temperature whatever it answered, and any other has the
/// one it answered.
pub proof fn law_sleeping_cards_have_no_temperature(
    status: Option<Seq<char>>,
    answer: Option<Seq<char>>,
)
    ensures
        sleeping(status) <==> status is Some && text::trim(status->0) != "active"@,
        sleeping(status) ==> temperature(status, answer) is None,
        answer is None ==> temperature(status, answer) is None,
        answer is Some && (status is None || text::trim(status->0) == "active"@) ==> temperature(
            status,
            answer,
        ) == parsed(answer->0),
        state(status) is Some <==> status is Some,
        status is Some ==> state(status) == Some(text::trim(status->0)),
{
}

/// A GPU of a machine is a device of NVIDIA's that is a display controller; all
/// of them are found, each by its address, and nothing else is.
pub proof fn law_every_gpu_is_found(devices: Seq<PciDevice>, device: PciDevice)
    ensures
        gpus(devices.push(device)) == (if device.gpu() {
            gpus(devices).push(device.address@)
        } else {
            gpus(devices)
        }),
        gpus(Seq::empty()).len() == 0,
        device.gpu() ==> device.vendor is Some && device.class is Some,
        device.gpu() <==> device.vendor is Some && device.class is Some && text::trim(
            device.vendor->0@,
        ) == "0x10de"@ && text::begins(text::trim(device.class->0@), "0x030"@),
{
    assert(devices.push(device).drop_last() =~= devices);
}

/// What each part of a card is called and asked for by.
pub proof fn law_parts_have_names_of_their_own(label: Seq<char>)
    ensures
        Part::Core.words() == "core"@,
        Part::Memory.words() == "memory"@,
        Part::Core.field() == "temperature.gpu"@,
        Part::Memory.field() == "temperature.memory"@,
        Part::of(label) == Part::Memory <==> label == "memory"@,
{
}

} // verus!
