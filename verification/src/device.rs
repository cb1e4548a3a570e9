//! hidraw discovery, and what to make of what is read there.
//!
//! Coolers paired over Bluetooth hang off `uhid` and have no USB parent, so
//! matching on `idVendor` in sysfs does not work. `HID_ID` in the hid parent's
//! uevent carries `bus:vendor:product` for both transports, so match on that.

use crate::error;
use crate::error::Error;
use crate::protocol;
use crate::protocol::{Model, Status, REPORT_ID_IN, REPORT_LEN, VID};
use crate::text;
use vstd::prelude::*;
use vstd::slice::slice_subrange;

verus! {

/// How the cooler is attached, which decides how a report is framed.
///
/// Over Bluetooth the report descriptor declares ids, so the kernel prepends
/// one and the reports are 25 bytes. Over USB it declares none: writes are 31
/// bytes starting at the magic, and reads are 32 starting at a constant 0x03
/// that belongs to the firmware rather than to HID.
#[derive(Debug, Clone, Copy, PartialEq, Eq, Structural)]
pub enum Transport {
    Usb,
    Bluetooth,
}

/// What a report read over USB starts with.
pub const USB_LEAD: u8 = 0x03;

impl Transport {
    pub open spec fn of_bus(bus: nat) -> Transport {
        if bus == 0x03 {
            Transport::Usb
        } else {
            Transport::Bluetooth
        }
    }

    /// Bytes a written report must have, and where its magic starts.
    pub open spec fn shape(self) -> (usize, usize) {
        match self {
            Transport::Usb => (31, 1),
            Transport::Bluetooth => (REPORT_LEN, 0),
        }
    }

    pub fn from_bus(bus: u32) -> (transport: Self)
        ensures
            transport == Transport::of_bus(bus as nat),
    {
        match bus {
            0x03 => Self::Usb,
            _ => Self::Bluetooth,
        }
    }

    /// Bytes a written report must have, and where its magic starts.
    pub fn write_shape(self) -> (shape: (usize, usize))
        ensures
            shape == self.shape(),
    {
        match self {
            Self::Usb => (31, 1),
            Self::Bluetooth => (REPORT_LEN, 0),
        }
    }
}

// ---------------------------------------------------------------------------
// Finding a cooler

/// The line of a text that starts at `from`, without what ends it.
pub open spec fn line(s: Seq<char>, from: int) -> Seq<char> {
    let end = text::next_at(s, from, '\n');
    if end < s.len() && end > from && s[end - 1] == '\r' {
        s.subrange(from, end - 1)
    } else {
        s.subrange(from, end)
    }
}

/// What follows `HID_ID=` on the first line that starts with it.
pub open spec fn hid_id(s: Seq<char>, from: int) -> Option<Seq<char>>
    decreases s.len() - from,
{
    if from < 0 || from >= s.len() {
        None
    } else if text::begins(line(s, from), "HID_ID="@) {
        Some(line(s, from).skip(7))
    } else {
        let end = text::next_at(s, from, '\n');
        if from <= end < s.len() {
            hid_id(s, end + 1)
        } else {
            None
        }
    }
}

/// The three hexadecimal numbers of `bus:vendor:product`; anything behind
/// another colon does not matter.
pub open spec fn ids(id: Seq<char>) -> Option<(nat, nat, nat)> {
    let first = text::next_at(id, 0, ':');
    let second = text::next_at(id, first + 1, ':');
    let third = text::next_at(id, second + 1, ':');
    if first < id.len() && second < id.len() {
        match (
            text::unsigned(id.subrange(0, first), 16, 0xFFFF_FFFF),
            text::unsigned(id.subrange(first + 1, second), 16, 0xFFFF_FFFF),
            text::unsigned(id.subrange(second + 1, third), 16, 0xFFFF_FFFF),
        ) {
            (Some(bus), Some(vendor), Some(product)) => Some((bus, vendor, product)),
            _ => None,
        }
    } else {
        None
    }
}

/// The cooler a uevent describes, if it describes one.
pub open spec fn cooler(uevent: Seq<char>) -> Option<(Model, Transport)> {
    match hid_id(uevent, 0) {
        Some(id) => match ids(id) {
            Some((bus, vendor, product)) => match Model::of_pid((product % 0x1_0000) as u16) {
                Some(model) => if vendor == VID {
                    Some((model, Transport::of_bus(bus)))
                } else {
                    None
                },
                None => None,
            },
            None => None,
        },
        None => None,
    }
}

fn find_hid_id(s: &[char]) -> (r: Option<&[char]>)
    ensures
        match r {
            Some(id) => hid_id(s@, 0) == Some(id@),
            None => hid_id(s@, 0) is None,
        },
{
    let mut from: usize = 0;
    while from < s.len()
        invariant
            from <= s@.len(),
            hid_id(s@, 0) == hid_id(s@, from as int),
        decreases s@.len() - from,
    {
        let end = text::find_from(s, from, '\n');
        let stop: usize = if end < s.len() && end > from && s[end - 1] == '\r' {
            end - 1
        } else {
            end
        };
        let text = slice_subrange(s, from, stop);
        if text::begins_with(text, "HID_ID=") {
            proof {
                reveal_strlit("HID_ID=");
                assert(text@.subrange(7, text@.len() as int) =~= text@.skip(7));
            }
            return Some(slice_subrange(text, 7, text.len()));
        }
        if end == s.len() {
            return None;
        }
        from = end + 1;
    }
    None
}

fn read_ids(id: &[char]) -> (r: Option<(u32, u32, u32)>)
    ensures
        match r {
            Some((bus, vendor, product)) => ids(id@) == Some(
                (bus as nat, vendor as nat, product as nat),
            ),
            None => ids(id@) is None,
        },
{
    let first = text::find_from(id, 0, ':');
    if first == id.len() {
        return None;
    }
    let second = text::find_from(id, first + 1, ':');
    if second == id.len() {
        return None;
    }
    let third = text::find_from(id, second + 1, ':');
    match (
        text::read_unsigned(slice_subrange(id, 0, first), 16, 0xFFFF_FFFF),
        text::read_unsigned(slice_subrange(id, first + 1, second), 16, 0xFFFF_FFFF),
        text::read_unsigned(slice_subrange(id, second + 1, third), 16, 0xFFFF_FFFF),
    ) {
        (Some(bus), Some(vendor), Some(product)) => Some(
            (bus as u32, vendor as u32, product as u32),
        ),
        _ => None,
    }
}

/// Extract the model from a `HID_ID=bus:vendor:product` line.
pub fn parse_hid_id(uevent: &str) -> (r: Option<(Model, Transport)>)
    ensures
        r == cooler(uevent@),
{
    let chars = text::chars_of(uevent);
    match find_hid_id(chars.as_slice()) {
        None => None,
        Some(id) => match read_ids(id) {
            None => None,
            Some((bus, vendor, product)) => {
                if vendor != VID as u32 {
                    return None;
                }
                match Model::from_pid((product % 0x1_0000) as u16) {
                    Some(model) => Some((model, Transport::from_bus(bus))),
                    None => None,
                }
            },
        },
    }
}

#[derive(Debug)]
pub struct Found {
    pub path: String,
    pub model: Model,
    pub transport: Transport,
}

#[verifier::ext_equal]
pub struct FoundView {
    pub path: Seq<char>,
    pub model: Model,
    pub transport: Transport,
}

impl View for Found {
    type V = FoundView;

    open spec fn view(&self) -> FoundView {
        FoundView { path: self.path@, model: self.model, transport: self.transport }
    }
}

impl Clone for Found {
    fn clone(&self) -> (r: Self)
        ensures
            r@ == self@,
    {
        Found { path: self.path.clone(), model: self.model, transport: self.transport }
    }
}

pub open spec fn found_views(found: Seq<Found>) -> Seq<FoundView> {
    Seq::new(found.len(), |i: int| found[i]@)
}

/// The coolers on one transport, in the order they came.
pub open spec fn over(found: Seq<FoundView>, transport: Transport) -> Seq<FoundView>
    decreases found.len(),
{
    if found.len() == 0 {
        found
    } else if found.last().transport == transport {
        over(found.drop_last(), transport).push(found.last())
    } else {
        over(found.drop_last(), transport)
    }
}

/// The wired path first: it survives the power renegotiation that drops the
/// Bluetooth link, and a cooler plugged into this machine is on both at once.
/// Names are no guide - which node is which changes across reboots.
pub fn wired_first(found: &Vec<Found>) -> (r: Vec<Found>)
    ensures
        found_views(r@) == over(found_views(found@), Transport::Usb) + over(
            found_views(found@),
            Transport::Bluetooth,
        ),
{
    let mut wired: Vec<Found> = Vec::new();
    let mut wireless: Vec<Found> = Vec::new();
    let ghost all = found_views(found@);
    let mut i: usize = 0;
    proof {
        assert(all.take(0) =~= Seq::<FoundView>::empty());
        assert(found_views(wired@) =~= Seq::<FoundView>::empty());
        assert(found_views(wireless@) =~= Seq::<FoundView>::empty());
    }
    while i < found.len()
        invariant
            i <= found@.len(),
            all == found_views(found@),
            found_views(wired@) == over(all.take(i as int), Transport::Usb),
            found_views(wireless@) == over(all.take(i as int), Transport::Bluetooth),
        decreases found@.len() - i,
    {
        proof {
            let next = all.take(i + 1);
            assert(next.drop_last() =~= all.take(i as int));
            assert(next.last() == found@[i as int]@);
        }
        let ghost before = (found_views(wired@), found_views(wireless@));
        let one = found[i].clone();
        let ghost view = one@;
        match one.transport {
            Transport::Usb => {
                wired.push(one);
                proof {
                    assert(found_views(wired@) =~= before.0.push(view));
                }
            },
            Transport::Bluetooth => {
                wireless.push(one);
                proof {
                    assert(found_views(wireless@) =~= before.1.push(view));
                }
            },
        }
        i += 1;
    }
    let ghost (a, b) = (found_views(wired@), found_views(wireless@));
    wired.append(&mut wireless);
    proof {
        assert(all.take(i as int) =~= all);
        assert(found_views(wired@) =~= a + b);
    }
    wired
}

/// One entry under `/sys/class/hidraw`, and its uevent if it could be read.
#[derive(Debug)]
pub struct Node {
    pub name: String,
    pub uevent: Option<String>,
}

impl Node {
    /// What is behind it, if it is a cooler.
    pub open spec fn found(self) -> Option<FoundView> {
        match self.uevent {
            Some(uevent) => match cooler(uevent@) {
                Some((model, transport)) => Some(
                    FoundView { path: "/dev/"@ + self.name@, model, transport },
                ),
                None => None,
            },
            None => None,
        }
    }
}

/// The coolers among a run of nodes.
pub open spec fn coolers(nodes: Seq<Node>) -> Seq<FoundView>
    decreases nodes.len(),
{
    if nodes.len() == 0 {
        Seq::empty()
    } else {
        match nodes.last().found() {
            Some(found) => coolers(nodes.drop_last()).push(found),
            None => coolers(nodes.drop_last()),
        }
    }
}

/// What a run of nodes is called.
pub open spec fn node_names(nodes: Seq<Node>) -> Seq<Seq<char>> {
    Seq::new(nodes.len(), |i: int| nodes[i].name@)
}

/// The nodes in order of name.
pub open spec fn by_name(nodes: Seq<Node>) -> Seq<Node> {
    Seq::new(nodes.len(), |k: int| nodes[text::ranked(node_names(nodes))[k]])
}

fn names_of(nodes: &Vec<Node>) -> (names: Vec<String>)
    ensures
        text::views(names@) == node_names(nodes@),
        names@.len() == nodes@.len(),
{
    let mut names: Vec<String> = Vec::new();
    let mut i: usize = 0;
    while i < nodes.len()
        invariant
            i <= nodes@.len(),
            names@.len() == i,
            forall|k: int| 0 <= k < i ==> (#[trigger] names@[k])@ == nodes@[k].name@,
        decreases nodes@.len() - i,
    {
        names.push(nodes[i].name.clone());
        i += 1;
    }
    proof {
        assert(text::views(names@) =~= node_names(nodes@));
    }
    names
}

/// Scan what is under `/sys/class/hidraw`, in order of name, for Flydigi BS
/// series coolers. Wired ones come first.
pub fn find_all(nodes: &Vec<Node>) -> (r: Vec<Found>)
    ensures
        found_views(r@) == over(coolers(by_name(nodes@)), Transport::Usb) + over(
            coolers(by_name(nodes@)),
            Transport::Bluetooth,
        ),
{
    let names = names_of(nodes);
    let order = text::rank(&names);
    let mut found: Vec<Found> = Vec::new();
    let mut i: usize = 0;
    let ghost sorted = by_name(nodes@);
    proof {
        assert(sorted.take(0) =~= Seq::<Node>::empty());
        assert(found_views(found@) =~= Seq::<FoundView>::empty());
    }
    while i < order.len()
        invariant
            i <= order@.len(),
            order@.len() == nodes@.len(),
            text::places(order@) == text::ranked(node_names(nodes@)),
            forall|k: int| 0 <= k < order@.len() ==> #[trigger] order@[k] < nodes@.len(),
            sorted == by_name(nodes@),
            found_views(found@) == coolers(sorted.take(i as int)),
        decreases order@.len() - i,
    {
        let node = &nodes[order[i]];
        proof {
            let next = sorted.take(i + 1);
            assert(next.drop_last() =~= sorted.take(i as int));
            assert(text::places(order@)[i as int] == order@[i as int]);
            assert(next.last() == *node);
        }
        let ghost before = found_views(found@);
        if let Some(uevent) = &node.uevent {
            if let Some((model, transport)) = parse_hid_id(uevent.as_str()) {
                let path = text::joined("/dev/", node.name.as_str());
                let one = Found { path, model, transport };
                let ghost view = one@;
                found.push(one);
                proof {
                    assert(found_views(found@) =~= before.push(view));
                }
            }
        }
        i += 1;
    }
    proof {
        assert(sorted.take(i as int) =~= sorted);
    }
    wired_first(&found)
}

/// No cooler's path comes before that of one in front of it.
pub open spec fn paths_in_order(found: Seq<FoundView>) -> bool {
    forall|i: int, j: int|
        0 <= i < j < found.len() ==> !text::precedes(
            (#[trigger] found[j]).path,
            (#[trigger] found[i]).path,
        )
}

/// Coolers found among nodes in order of name are in order of path.
proof fn lemma_coolers_in_order(nodes: Seq<Node>)
    requires
        text::alphabetical(node_names(nodes)),
    ensures
        paths_in_order(coolers(nodes)),
        forall|k: int|
            0 <= k < coolers(nodes).len() ==> exists|m: int|
                0 <= m < nodes.len() && (#[trigger] coolers(nodes)[k]).path == "/dev/"@ + (
                #[trigger] nodes[m]).name@,
    decreases nodes.len(),
{
    if nodes.len() > 0 {
        let rest = nodes.drop_last();
        let n = nodes.len() - 1;
        let names = node_names(nodes);
        assert forall|i: int, j: int| 0 <= i < j < rest.len() implies !text::precedes(
            #[trigger] node_names(rest)[j],
            #[trigger] node_names(rest)[i],
        ) by {
            assert(node_names(rest)[i] == names[i] && node_names(rest)[j] == names[j]);
        }
        lemma_coolers_in_order(rest);
        let inner = coolers(rest);
        let all = coolers(nodes);
        assert forall|k: int| 0 <= k < all.len() implies exists|m: int|
            0 <= m < nodes.len() && (#[trigger] all[k]).path == "/dev/"@ + (
            #[trigger] nodes[m]).name@ by {
            if k < inner.len() {
                assert(all[k] == inner[k]);
                let m = choose|m: int|
                    0 <= m < rest.len() && inner[k].path == "/dev/"@ + (#[trigger] rest[m]).name@;
                assert(nodes[m] == rest[m]);
            } else {
                assert(nodes[n] == nodes.last());
            }
        }
        assert forall|i: int, j: int| 0 <= i < j < all.len() implies !text::precedes(
            (#[trigger] all[j]).path,
            (#[trigger] all[i]).path,
        ) by {
            assert(all[i] == inner[i]);
            if j < inner.len() {
                assert(all[j] == inner[j]);
            } else {
                let m = choose|m: int|
                    0 <= m < rest.len() && inner[i].path == "/dev/"@ + (#[trigger] rest[m]).name@;
                assert(names[m] == rest[m].name@ && names[n] == nodes.last().name@);
                text::lemma_precedes_behind("/dev/"@, names[n], names[m]);
            }
        }
    }
}

/// Picking out one transport keeps the order.
proof fn lemma_over_keeps_order(found: Seq<FoundView>, transport: Transport)
    requires
        paths_in_order(found),
    ensures
        paths_in_order(over(found, transport)),
        forall|k: int|
            0 <= k < over(found, transport).len() ==> found.contains(
                #[trigger] over(found, transport)[k],
            ),
    decreases found.len(),
{
    if found.len() > 0 {
        let rest = found.drop_last();
        let n = found.len() - 1;
        assert forall|i: int, j: int| 0 <= i < j < rest.len() implies !text::precedes(
            (#[trigger] rest[j]).path,
            (#[trigger] rest[i]).path,
        ) by {
            assert(rest[i] == found[i] && rest[j] == found[j]);
        }
        lemma_over_keeps_order(rest, transport);
        let inner = over(rest, transport);
        let r = over(found, transport);
        assert forall|k: int| 0 <= k < r.len() implies found.contains(#[trigger] r[k]) by {
            if k < inner.len() {
                assert(r[k] == inner[k]);
                assert(rest.contains(inner[k]));
                let m = choose|m: int| 0 <= m < rest.len() && rest[m] == inner[k];
                assert(found[m] == r[k]);
            } else {
                assert(found[n] == r[k]);
            }
        }
        assert forall|i: int, j: int| 0 <= i < j < r.len() implies !text::precedes(
            (#[trigger] r[j]).path,
            (#[trigger] r[i]).path,
        ) by {
            assert(r[i] == inner[i]);
            if j < inner.len() {
                assert(r[j] == inner[j]);
            } else {
                assert(rest.contains(inner[i]));
                let m = choose|m: int| 0 <= m < rest.len() && rest[m] == inner[i];
                assert(found[m] == r[i] && found[n] == r[j]);
            }
        }
    }
}

/// Whatever order the nodes come in, the coolers on one transport are found in
/// order of name.
pub proof fn law_coolers_come_in_order_of_name(nodes: Seq<Node>, transport: Transport)
    ensures
        paths_in_order(over(coolers(by_name(nodes)), transport)),
{
    let names = node_names(nodes);
    text::law_ranking_orders_every_name(names);
    assert forall|k: int| 0 <= k < nodes.len() implies #[trigger] node_names(by_name(nodes))[k]
        == names[text::ranked(names)[k]] by {
        assert(0 <= text::ranked(names)[k] < names.len());
    }
    assert(node_names(by_name(nodes)) =~= text::at_places(names, text::ranked(names)));
    lemma_coolers_in_order(by_name(nodes));
    lemma_over_keeps_order(coolers(by_name(nodes)), transport);
}

/// Nobody on the transport asked for is left out, and nobody else gets in.
proof fn lemma_over(found: Seq<FoundView>, transport: Transport)
    ensures
        over(found, transport).len() <= found.len(),
        forall|i: int|
            0 <= i < over(found, transport).len() ==> (#[trigger] over(
                found,
                transport,
            )[i]).transport == transport,
        forall|i: int|
            0 <= i < found.len() && (#[trigger] found[i]).transport == transport ==> over(
                found,
                transport,
            ).contains(found[i]),
    decreases found.len(),
{
    if found.len() > 0 {
        let rest = found.drop_last();
        lemma_over(rest, transport);
        let inner = over(rest, transport);
        let r = over(found, transport);
        assert forall|i: int|
            0 <= i < found.len() && (#[trigger] found[i]).transport == transport implies r.contains(
            found[i],
        ) by {
            if i < rest.len() {
                assert(rest[i] == found[i]);
                let k = choose|k: int| 0 <= k < inner.len() && inner[k] == found[i];
                assert(r[k] == found[i]);
            } else {
                assert(r[r.len() - 1] == found[i]);
            }
        }
    }
}

/// A cooler on the wire comes first whenever there is one.
pub proof fn law_a_wired_cooler_comes_first(found: Seq<FoundView>, i: int)
    requires
        0 <= i < found.len(),
        found[i].transport == Transport::Usb,
    ensures
        ({
            let order = over(found, Transport::Usb) + over(found, Transport::Bluetooth);
            order.len() > 0 && order[0].transport == Transport::Usb
        }),
{
    lemma_over(found, Transport::Usb);
    assert(over(found, Transport::Usb).contains(found[i]));
}

/// The model behind a node, out of its uevent.
pub fn probe_model(uevent: Option<&str>) -> (r: Option<Model>)
    ensures
        r == (match uevent {
            Some(uevent) => match cooler(uevent@) {
                Some((model, _)) => Some(model),
                None => None,
            },
            None => None,
        }),
{
    match uevent {
        Some(uevent) => match parse_hid_id(uevent) {
            Some((model, _)) => Some(model),
            None => None,
        },
        None => None,
    }
}

/// How a node is attached, out of its uevent.
pub fn transport_of(uevent: Option<&str>) -> (r: Option<Transport>)
    ensures
        r == (match uevent {
            Some(uevent) => match cooler(uevent@) {
                Some((_, transport)) => Some(transport),
                None => None,
            },
            None => None,
        }),
{
    match uevent {
        Some(uevent) => match parse_hid_id(uevent) {
            Some((_, transport)) => Some(transport),
            None => None,
        },
        None => None,
    }
}

/// What a node somebody named is taken for.
pub open spec fn taken_for(uevent: Option<Seq<char>>) -> (Model, Transport) {
    match uevent {
        Some(uevent) => match cooler(uevent) {
            Some(found) => found,
            None => (Model::Bs3Pro, Transport::Bluetooth),
        },
        None => (Model::Bs3Pro, Transport::Bluetooth),
    }
}

/// A path somebody named, taken for a BS3 Pro over Bluetooth where its uevent
/// says nothing.
pub fn named(path: String, uevent: Option<&str>) -> (found: Found)
    ensures
        found@ == (FoundView {
            path: path@,
            model: match uevent {
                Some(uevent) => match cooler(uevent@) {
                    Some((model, _)) => model,
                    None => Model::Bs3Pro,
                },
                None => Model::Bs3Pro,
            },
            transport: match uevent {
                Some(uevent) => match cooler(uevent@) {
                    Some((_, transport)) => transport,
                    None => Transport::Bluetooth,
                },
                None => Transport::Bluetooth,
            },
        }),
        (found@.model, found@.transport) == taken_for(text::str_view(uevent)),
        found@.path == path@,
{
    let model = match probe_model(uevent) {
        Some(model) => model,
        None => Model::Bs3Pro,
    };
    let transport = match transport_of(uevent) {
        Some(transport) => transport,
        None => Transport::Bluetooth,
    };
    Found { path, model, transport }
}

/// The cooler to talk to when nobody named one: the first found.
pub fn first(found: &Vec<Found>) -> (r: Result<Found, Error>)
    ensures
        match r {
            Ok(one) => found@.len() > 0 && one@ == found@[0]@,
            Err(error) => found@.len() == 0 && error is NotFound,
        },
{
    if found.len() == 0 {
        Err(Error::NotFound)
    } else {
        Ok(found[0].clone())
    }
}

// ---------------------------------------------------------------------------
// Writing

/// A report reshaped for a transport: from the byte it starts at there, padded
/// with zeros or cut to the length it has there.
pub open spec fn shaped(transport: Transport, report: Seq<u8>) -> Seq<u8> {
    let (len, from) = transport.shape();
    Seq::new(
        len as nat,
        |i: int|
            if i + from < report.len() {
                report[i + from]
            } else {
                0
            },
    )
}

/// Reshape a report for the transport a cooler is on.
///
/// Reports are built in the Bluetooth shape everywhere else; the USB path
/// wants the same bytes without the leading report id and padded to its
/// own length, which is what the descriptor asks for.
pub fn framed(transport: Transport, report: &[u8]) -> (r: Vec<u8>)
    requires
        report@.len() >= transport.shape().1,
    ensures
        r@ == shaped(transport, report@),
{
    let (len, from) = transport.write_shape();
    let mut r: Vec<u8> = Vec::new();
    let mut i: usize = 0;
    while i < len
        invariant
            i <= len,
            (len, from) == transport.shape(),
            len <= 31,
            from <= 1,
            r@ == shaped(transport, report@).take(i as int),
        decreases len - i,
    {
        let byte: u8 = if i + from < report.len() {
            report[i + from]
        } else {
            0
        };
        r.push(byte);
        i += 1;
        proof {
            assert(r@ =~= shaped(transport, report@).take(i as int));
        }
    }
    proof {
        assert(r@ =~= shaped(transport, report@));
    }
    r
}

/// Every byte of a report but the id in front of it survives either transport,
/// so the cooler sees the same frame whichever way it arrives.
pub proof fn law_both_transports_carry_the_frame(report: Seq<u8>)
    requires
        report.len() == REPORT_LEN,
    ensures
        shaped(Transport::Bluetooth, report) == report,
        shaped(Transport::Usb, report).take(24) == report.skip(1),
{
    assert(shaped(Transport::Bluetooth, report) =~= report);
    assert(shaped(Transport::Usb, report).take(24) =~= report.skip(1));
}

// ---------------------------------------------------------------------------
// Reading

/// A report as it is parsed: over USB the firmware's own lead stands where the
/// report id does otherwise.
pub open spec fn arrived(transport: Transport, bytes: Seq<u8>) -> Seq<u8> {
    if transport == Transport::Usb && bytes.len() > 0 && bytes[0] == USB_LEAD {
        bytes.update(0, REPORT_ID_IN)
    } else {
        bytes
    }
}

fn arrive(transport: Transport, bytes: Vec<u8>) -> (r: Vec<u8>)
    ensures
        r@ == arrived(transport, bytes@),
{
    let mut bytes = bytes;
    if transport == Transport::Usb && bytes.len() > 0 && bytes[0] == USB_LEAD {
        bytes.set(0, REPORT_ID_IN);
    }
    bytes
}

/// What waiting for a frame came to.
#[derive(Debug)]
pub enum Seen {
    /// The deadline has passed.
    Expired,
    /// The poll ran out without anything to read.
    Quiet,
    /// A signal got in the way.
    Interrupted,
    PollFailed(String),
    /// The poll reports an error or a hangup on the node.
    HungUp,
    /// The node ended or is no device any more.
    Closed,
    ReadFailed(String),
    Bytes(Vec<u8>),
}

/// What to do about it.
#[derive(Debug)]
pub enum Wait<T> {
    /// Keep waiting.
    Again,
    Done(T),
    Failed(Error),
}

impl Seen {
    /// The error it amounts to, if it is one.
    ///
    /// A cooler that loses power mid-session (a PD renegotiation is enough)
    /// drops its Bluetooth link and takes the hidraw node with it. That is said
    /// so instead of blaming the timeout.
    pub open spec fn error(self) -> Option<error::ErrorView> {
        match self {
            Seen::Expired | Seen::Quiet => Some(error::ErrorView::Timeout),
            Seen::PollFailed(source) => Some(error::ErrorView::Poll(source@)),
            Seen::HungUp | Seen::Closed => Some(error::ErrorView::Disconnected),
            Seen::ReadFailed(source) => Some(error::ErrorView::Read(source@)),
            Seen::Interrupted | Seen::Bytes(_) => None,
        }
    }

    /// The report that arrived, if one did.
    pub open spec fn report(self, transport: Transport) -> Option<Seq<u8>> {
        match self {
            Seen::Bytes(bytes) => Some(arrived(transport, bytes@)),
            _ => None,
        }
    }

    fn sorted(self, transport: Transport) -> (r: Result<Option<Vec<u8>>, Error>)
        ensures
            match r {
                Ok(Some(report)) => self.report(transport) == Some(report@),
                Ok(None) => self is Interrupted,
                Err(error) => self.error() == Some(error@),
            },
    {
        match self {
            Seen::Expired | Seen::Quiet => Err(Error::Timeout),
            Seen::Interrupted => Ok(None),
            Seen::PollFailed(source) => Err(Error::Poll(source)),
            Seen::HungUp | Seen::Closed => Err(Error::Disconnected),
            Seen::ReadFailed(source) => Err(Error::Read(source)),
            Seen::Bytes(bytes) => Ok(Some(arrive(transport, bytes))),
        }
    }
}

/// A command that is never answered was not understood: say which.
pub open spec fn unanswered(error: error::ErrorView, cmd: u8) -> error::ErrorView {
    if error is Timeout {
        error::ErrorView::NoAck { cmd }
    } else {
        error
    }
}

fn blame(error: Error, cmd: u8) -> (r: Error)
    ensures
        r@ == unanswered(error@, cmd),
{
    match error {
        Error::Timeout => Error::NoAck { cmd },
        other => other,
    }
}

/// The command a report carries.
pub fn command_of(report: &[u8; REPORT_LEN]) -> (cmd: u8)
    ensures
        cmd == report@[3],
{
    report[3]
}

/// The answer to a command in a report that arrived, if it is one.
pub open spec fn answer_in(report: Seq<u8>, cmd: u8) -> Option<Seq<u8>> {
    match protocol::ack_in(report) {
        Some((echoed, payload)) => if echoed == cmd {
            Some(payload)
        } else {
            None
        },
        None => None,
    }
}

/// The status byte of an acknowledgement.
pub open spec fn ack_byte(payload: Seq<u8>) -> u8 {
    if payload.len() > 0 {
        payload[0]
    } else {
        0
    }
}

/// Wait for the device to acknowledge a command, for the status byte it echoes
/// back; an acknowledgement without one counts as zero.
///
/// A report the firmware does not understand is dropped silently, so a
/// missing acknowledgement is the only signal that a command was rejected.
pub fn await_ack(cmd: u8, transport: Transport, seen: Seen) -> (r: Wait<u8>)
    ensures
        r matches Wait::Done(byte) ==> seen.report(transport) is Some && answer_in(
            seen.report(transport)->0,
            cmd,
        ) is Some && byte == ack_byte(answer_in(seen.report(transport)->0, cmd)->0),
        match (seen.error(), seen.report(transport)) {
            (Some(error), _) => r matches Wait::Failed(e) && e@ == unanswered(error, cmd),
            (None, Some(report)) => match answer_in(report, cmd) {
                Some(payload) => r == Wait::Done(
                    if payload.len() > 0 {
                        payload[0]
                    } else {
                        0
                    },
                ),
                None => r is Again,
            },
            (None, None) => r is Again,
        },
{
    match seen.sorted(transport) {
        Err(error) => Wait::Failed(blame(error, cmd)),
        Ok(None) => Wait::Again,
        Ok(Some(report)) => match protocol::parse_ack(report.as_slice()) {
            Some(frame) => if frame.cmd == cmd {
                Wait::Done(
                    if frame.payload.len() > 0 {
                        frame.payload[0]
                    } else {
                        0
                    },
                )
            } else {
                Wait::Again
            },
            None => Wait::Again,
        },
    }
}

/// Wait for the payload a query is answered with.
pub fn await_answer(cmd: u8, transport: Transport, seen: Seen) -> (r: Wait<Vec<u8>>)
    ensures
        match (seen.error(), seen.report(transport)) {
            (Some(error), _) => r matches Wait::Failed(e) && e@ == unanswered(error, cmd),
            (None, Some(report)) => match answer_in(report, cmd) {
                Some(payload) => r matches Wait::Done(got) && got@ == payload,
                None => r is Again,
            },
            (None, None) => r is Again,
        },
{
    match seen.sorted(transport) {
        Err(error) => Wait::Failed(blame(error, cmd)),
        Ok(None) => Wait::Again,
        Ok(Some(report)) => match protocol::parse_ack(report.as_slice()) {
            Some(frame) => if frame.cmd == cmd {
                let mut payload: Vec<u8> = Vec::new();
                payload.extend_from_slice(frame.payload);
                proof {
                    assert(payload@ =~= frame.payload@);
                }
                Wait::Done(payload)
            } else {
                Wait::Again
            },
            None => Wait::Again,
        },
    }
}

/// Wait for the next status notification, ignoring unrelated frames.
pub fn await_status(transport: Transport, seen: Seen) -> (r: Wait<Status>)
    ensures
        match (seen.error(), seen.report(transport)) {
            (Some(error), _) => r matches Wait::Failed(e) && e@ == error,
            (None, Some(report)) => match protocol::status_in(report) {
                Some(status) => r == Wait::Done(status),
                None => r is Again,
            },
            (None, None) => r is Again,
        },
{
    match seen.sorted(transport) {
        Err(error) => Wait::Failed(error),
        Ok(None) => Wait::Again,
        Ok(Some(report)) => match protocol::parse_status(report.as_slice()) {
            Some(status) => Wait::Done(status),
            None => Wait::Again,
        },
    }
}

/// A frame the device sent is understood the same over USB, where the
/// firmware's own lead takes the place of the report id.
pub proof fn law_usb_frames_parse_back(cmd: u8, payload: Seq<u8>, padding: Seq<u8>)
    requires
        payload.len() <= 253,
    ensures
        protocol::frame_in(
            arrived(
                Transport::Usb,
                protocol::device_frame(cmd, payload, padding).update(0, USB_LEAD),
            ),
        ) == Some((cmd, payload)),
{
    let frame = protocol::device_frame(cmd, payload, padding);
    assert(arrived(Transport::Usb, frame.update(0, USB_LEAD)) =~= frame);
    protocol::law_frames_parse_back(cmd, payload, padding);
}

// ---------------------------------------------------------------------------
// What finding and talking to a cooler promises

proof fn lemma_next_at_behind(front: Seq<char>, s: Seq<char>, from: int, c: char)
    requires
        0 <= from <= s.len(),
    ensures
        text::next_at(front + s, front.len() + from, c) == front.len() + text::next_at(s, from, c),
    decreases s.len() - from,
{
    let all = front + s;
    if from < s.len() {
        assert(all[front.len() + from] == s[from]);
        if s[from] != c {
            lemma_next_at_behind(front, s, from + 1, c);
        }
    }
}

proof fn lemma_hid_id_behind(front: Seq<char>, s: Seq<char>, from: int)
    requires
        0 <= from <= s.len(),
    ensures
        hid_id(front + s, front.len() + from) == hid_id(s, from),
    decreases s.len() - from,
{
    let all = front + s;
    let n = front.len() as int;
    if from < s.len() {
        lemma_next_at_behind(front, s, from, '\n');
        text::lemma_next_at(s, from, '\n');
        let end = text::next_at(s, from, '\n');
        if end > from {
            assert(all[n + end - 1] == s[end - 1]);
        }
        assert(all.subrange(n + from, n + end) =~= s.subrange(from, end));
        if end > from {
            assert(all.subrange(n + from, n + end - 1) =~= s.subrange(from, end - 1));
        }
        assert(line(all, n + from) == line(s, from));
        if end < s.len() {
            lemma_hid_id_behind(front, s, end + 1);
        }
    }
}

/// The id stands behind `HID_ID=` on a line of its own; lines that start with
/// anything else are passed over, and what follows the line does not matter.
pub proof fn law_the_id_is_on_a_line_of_its_own(
    other: Seq<char>,
    id: Seq<char>,
    rest: Seq<char>,
)
    requires
        forall|i: int| 0 <= i < other.len() ==> #[trigger] other[i] != '\n',
        !text::begins(line(other + seq!['\n'], 0), "HID_ID="@),
        forall|i: int| 0 <= i < id.len() ==> #[trigger] id[i] != '\n' && id[i] != '\r',
    ensures
        hid_id("HID_ID="@ + id, 0) == Some(id),
        hid_id("HID_ID="@ + id + seq!['\n'] + rest, 0) == Some(id),
        hid_id(other + seq!['\n'] + rest, 0) == hid_id(rest, 0),
        hid_id(Seq::empty(), 0) is None,
{
    reveal_strlit("HID_ID=");
    let own = "HID_ID="@ + id;
    assert forall|i: int| 0 <= i < own.len() implies #[trigger] own[i] != '\n' && own[i]
        != '\r' by {
        if i >= 7 {
            assert(own[i] == id[i - 7]);
        } else {
            assert("HID_ID="@[i] != '\n' && "HID_ID="@[i] != '\r');
        }
    }
    text::lemma_next_at(own, 0, '\n');
    assert(own.subrange(0, own.len() as int) =~= own);
    assert(own.take(7) =~= "HID_ID="@);
    assert(own.skip(7) =~= id);
    let more = own + seq!['\n'] + rest;
    text::lemma_next_at(more, 0, '\n');
    let end = text::next_at(more, 0, '\n');
    assert(more[own.len() as int] == '\n');
    if end < own.len() {
        assert(more[end] == own[end]);
    }
    assert(end == own.len());
    assert(more[end - 1] == own[end - 1]);
    assert(more.subrange(0, end) =~= own);
    assert(line(more, 0) == own);
    let first = other + seq!['\n'];
    let all = first + rest;
    text::lemma_next_at(all, 0, '\n');
    text::lemma_next_at(first, 0, '\n');
    let stop = text::next_at(all, 0, '\n');
    let n = other.len() as int;
    assert(all[n] == '\n' && first[n] == '\n');
    if stop < n {
        assert(all[stop] == other[stop]);
    }
    if text::next_at(first, 0, '\n') < n {
        assert(first[text::next_at(first, 0, '\n')] == other[text::next_at(first, 0, '\n')]);
    }
    if n > 0 {
        assert(all[n - 1] == first[n - 1]);
        assert(all.subrange(0, n - 1) =~= first.subrange(0, n - 1));
    }
    assert(all.subrange(0, n) =~= first.subrange(0, n));
    assert(line(all, 0) == line(first, 0));
    assert(hid_id(all, 0) == hid_id(all, n + 1));
    lemma_hid_id_behind(first, rest, 0);
}

/// An id is three hexadecimal numbers with a colon between them: bus, vendor and
/// product, in that order.
pub proof fn law_ids_are_bus_vendor_product(bus: Seq<char>, vendor: Seq<char>, product: Seq<char>)
    requires
        forall|i: int| 0 <= i < bus.len() ==> #[trigger] bus[i] != ':',
        forall|i: int| 0 <= i < vendor.len() ==> #[trigger] vendor[i] != ':',
        forall|i: int| 0 <= i < product.len() ==> #[trigger] product[i] != ':',
    ensures
        ids(bus + seq![':'] + vendor + seq![':'] + product) == (match (
            text::unsigned(bus, 16, 0xFFFF_FFFF),
            text::unsigned(vendor, 16, 0xFFFF_FFFF),
            text::unsigned(product, 16, 0xFFFF_FFFF),
        ) {
            (Some(b), Some(v), Some(p)) => Some((b, v, p)),
            _ => None,
        }),
{
    let id = bus + seq![':'] + vendor + seq![':'] + product;
    let a = bus.len() as int;
    let b = a + 1 + vendor.len();
    text::lemma_next_at(id, 0, ':');
    let first = text::next_at(id, 0, ':');
    assert(id[a] == ':');
    if first < a {
        assert(id[first] == bus[first]);
    }
    assert(first == a);
    text::lemma_next_at(id, a + 1, ':');
    let second = text::next_at(id, a + 1, ':');
    assert(id[b] == ':');
    if second < b {
        assert(id[second] == vendor[second - a - 1]);
    }
    assert(second == b);
    text::lemma_next_at(id, b + 1, ':');
    let third = text::next_at(id, b + 1, ':');
    if third < id.len() {
        assert(id[third] == product[third - b - 1]);
    }
    assert(id.subrange(0, a) =~= bus);
    assert(id.subrange(a + 1, b) =~= vendor);
    assert(id.subrange(b + 1, third) =~= product);
}

/// A device is a cooler when the vendor is Flydigi and the product is one of the
/// series, and it is on the wire when the bus says USB.
pub proof fn law_a_cooler_is_known_by_its_ids(
    uevent: Seq<char>,
    id: Seq<char>,
    bus: nat,
    vendor: nat,
    product: nat,
)
    requires
        hid_id(uevent, 0) == Some(id),
        ids(id) == Some((bus, vendor, product)),
    ensures
        cooler(uevent) is Some <==> vendor == 0x37D7 && 0x1001 <= product % 0x1_0000 <= 0x1004,
        cooler(uevent) matches Some((model, transport)) ==> Model::of_pid(
            (product % 0x1_0000) as u16,
        ) == Some(model) && (transport == Transport::Usb <==> bus == 3) && (transport
            == Transport::Bluetooth <==> bus != 3),
{
    protocol::law_models_go_by_their_product_id((product % 0x1_0000) as u16);
}

/// What says nothing of the kind is no cooler.
pub proof fn law_nothing_else_is_a_cooler(uevent: Seq<char>, node: Node)
    ensures
        hid_id(uevent, 0) is None ==> cooler(uevent) is None,
        hid_id(uevent, 0) matches Some(id) ==> ids(id) is None ==> cooler(uevent) is None,
        node.uevent is None ==> node.found() is None,
        node.uevent matches Some(text) ==> (node.found() is Some <==> cooler(text@) is Some),
        node.uevent matches Some(text) ==> node.found() matches Some(found) ==> cooler(text@)
            == Some((found.model, found.transport)) && found.path == "/dev/"@ + node.name@,
{
}

/// Putting the wired ones first leaves nobody out and lets nobody in, and no
/// wireless one comes before a wired one.
pub proof fn law_every_cooler_is_found_once(found: Seq<FoundView>, i: int, j: int)
    ensures
        ({
            let order = over(found, Transport::Usb) + over(found, Transport::Bluetooth);
            &&& order.to_multiset() == found.to_multiset()
            &&& order.len() == found.len()
            &&& 0 <= i < j < order.len() && order[j].transport == Transport::Usb
                ==> order[i].transport == Transport::Usb
        }),
{
    let wired = over(found, Transport::Usb);
    let wireless = over(found, Transport::Bluetooth);
    let order = wired + wireless;
    lemma_over_splits(found);
    lemma_over(found, Transport::Usb);
    lemma_over(found, Transport::Bluetooth);
    vstd::seq_lib::lemma_multiset_commutative(wired, wireless);
    if 0 <= i < j < order.len() && order[j].transport == Transport::Usb {
        if j >= wired.len() {
            assert(order[j] == wireless[j - wired.len()]);
        }
        assert(order[i] == wired[i]);
    }
}

proof fn lemma_over_splits(found: Seq<FoundView>)
    ensures
        over(found, Transport::Usb).to_multiset().add(
            over(found, Transport::Bluetooth).to_multiset(),
        ) == found.to_multiset(),
        over(found, Transport::Usb).len() + over(found, Transport::Bluetooth).len() == found.len(),
    decreases found.len(),
{
    broadcast use vstd::seq_lib::group_to_multiset_ensures;

    let wired = over(found, Transport::Usb);
    let wireless = over(found, Transport::Bluetooth);
    if found.len() > 0 {
        let rest = found.drop_last();
        let last = found.last();
        lemma_over_splits(rest);
        assert(found =~= rest.push(last));
        assert(wired.to_multiset().add(wireless.to_multiset()) =~= found.to_multiset());
    } else {
        assert(wired.to_multiset().add(wireless.to_multiset()) =~= found.to_multiset());
    }
}

/// Every node is looked at: one more adds what is behind it, if that is a
/// cooler, and changes nothing of the others.
pub proof fn law_every_node_is_looked_at(nodes: Seq<Node>, node: Node)
    ensures
        coolers(nodes.push(node)) == (match node.found() {
            Some(found) => coolers(nodes).push(found),
            None => coolers(nodes),
        }),
        coolers(Seq::empty()).len() == 0,
{
    assert(nodes.push(node).drop_last() =~= nodes);
}

/// Over Bluetooth a report goes out as it is, 25 bytes of it. Over USB it goes
/// out without the report id, with zeros behind it up to 31 bytes.
pub proof fn law_reports_take_the_shape_of_the_transport(report: Seq<u8>, i: int)
    requires
        report.len() == 25,
    ensures
        shaped(Transport::Bluetooth, report) == report,
        shaped(Transport::Usb, report).len() == 31,
        0 <= i < 24 ==> shaped(Transport::Usb, report)[i] == report[i + 1],
        24 <= i < 31 ==> shaped(Transport::Usb, report)[i] == 0,
{
    law_both_transports_carry_the_frame(report);
}

/// What arrives over Bluetooth is taken as it is; over USB only the firmware's
/// lead in front is swapped for the report id, and nothing behind it.
pub proof fn law_reports_arrive_unaltered(bytes: Seq<u8>, i: int)
    ensures
        arrived(Transport::Bluetooth, bytes) == bytes,
        arrived(Transport::Usb, bytes).len() == bytes.len(),
        0 < i < bytes.len() ==> arrived(Transport::Usb, bytes)[i] == bytes[i],
        bytes.len() > 0 && bytes[0] == 0x03 ==> arrived(Transport::Usb, bytes)[0] == 0x01,
        bytes.len() > 0 && bytes[0] != 0x03 ==> arrived(Transport::Usb, bytes) == bytes,
{
}

/// Only an answer to the very command counts as one.
pub proof fn law_answers_are_told_apart(
    cmd: u8,
    sent: u8,
    payload: Seq<u8>,
    padding: Seq<u8>,
)
    requires
        payload.len() <= 253,
    ensures
        answer_in(protocol::device_frame(cmd, payload, padding), sent) == (if cmd == sent && cmd
            != 0xEF {
            Some(payload)
        } else {
            None
        }),
{
    protocol::law_frames_are_status_or_answers(cmd, payload, padding);
}

/// Running out of time is a timeout, and a command's missing answer is said to
/// be one; a node that hung up or ended is a cooler that went away; a fault
/// keeps its words.
pub proof fn law_what_went_wrong_is_told_apart(seen: Seen, cmd: u8)
    ensures
        seen.error() == Some(error::ErrorView::Timeout) <==> seen is Expired || seen is Quiet,
        seen.error() == Some(error::ErrorView::Disconnected) <==> seen is HungUp || seen is Closed,
        seen matches Seen::PollFailed(source) ==> seen.error() == Some(
            error::ErrorView::Poll(source@),
        ),
        seen matches Seen::ReadFailed(source) ==> seen.error() == Some(
            error::ErrorView::Read(source@),
        ),
        seen.error() is None <==> seen is Interrupted || seen is Bytes,
        unanswered(error::ErrorView::Timeout, cmd) == (error::ErrorView::NoAck { cmd }),
        seen.error() matches Some(error) ==> !(error is Timeout) ==> unanswered(error, cmd)
            == error,
{
}

/// A node somebody named is what its uevent says, and a BS3 Pro over Bluetooth
/// where that says nothing.
pub proof fn law_a_named_node_is_taken_at_its_word(uevent: Seq<char>)
    ensures
        cooler(uevent) matches Some(found) ==> taken_for(Some(uevent)) == found,
        cooler(uevent) is None ==> taken_for(Some(uevent)) == (
            Model::Bs3Pro,
            Transport::Bluetooth,
        ),
        taken_for(None) == (Model::Bs3Pro, Transport::Bluetooth),
{
}

/// The status byte is the first of an acknowledgement, and an empty one has
/// none.
pub proof fn law_the_status_byte_comes_first(byte: u8, rest: Seq<u8>)
    ensures
        ack_byte(seq![byte] + rest) == byte,
        ack_byte(Seq::empty()) == 0,
{
}

/// A line may end with a carriage return too, which is no part of the id.
pub proof fn law_carriage_returns_are_no_part_of_the_id(id: Seq<char>, rest: Seq<char>)
    requires
        forall|i: int| 0 <= i < id.len() ==> #[trigger] id[i] != '\n' && id[i] != '\r',
    ensures
        hid_id("HID_ID="@ + id + seq!['\r', '\n'] + rest, 0) == Some(id),
{
    reveal_strlit("HID_ID=");
    let own = "HID_ID="@ + id;
    let all = own + seq!['\r', '\n'] + rest;
    let n = own.len() as int;
    assert forall|i: int| 0 <= i <= n implies #[trigger] all[i] != '\n' by {
        if 7 <= i < n {
            assert(all[i] == id[i - 7]);
        } else if i < 7 {
            assert(all[i] == "HID_ID="@[i]);
            assert("HID_ID="@[i] != '\n');
        }
    }
    text::lemma_next_at(all, 0, '\n');
    assert(all[n + 1] == '\n' && all[n] == '\r');
    assert(text::next_at(all, 0, '\n') == n + 1);
    assert(all.subrange(0, n) =~= own);
    assert(line(all, 0) == own);
    assert(own.take(7) =~= "HID_ID="@);
    assert(own.skip(7) =~= id);
}

/// What stands behind a further colon has no say in an id.
pub proof fn law_three_numbers_are_enough(id: Seq<char>, more: Seq<char>)
    requires
        ids(id) is Some,
    ensures
        ids(id + seq![':'] + more) == ids(id),
{
    let long = id + seq![':'] + more;
    let n = id.len() as int;
    let a = text::next_at(id, 0, ':');
    text::lemma_next_at(id, 0, ':');
    let b = text::next_at(id, a + 1, ':');
    text::lemma_next_at(id, a + 1, ':');
    let c = text::next_at(id, b + 1, ':');
    text::lemma_next_at(id, b + 1, ':');
    lemma_next_at_stays(id, seq![':'] + more, 0, ':');
    lemma_next_at_stays(id, seq![':'] + more, a + 1, ':');
    lemma_next_at_stays(id, seq![':'] + more, b + 1, ':');
    assert(long =~= id + (seq![':'] + more));
    assert(long[n] == ':');
    assert(long.subrange(0, a) =~= id.subrange(0, a));
    assert(long.subrange(a + 1, b) =~= id.subrange(a + 1, b));
    assert(long.subrange(b + 1, c) =~= id.subrange(b + 1, c));
}

proof fn lemma_next_at_stays(s: Seq<char>, more: Seq<char>, from: int, c: char)
    requires
        0 <= from <= s.len(),
        more.len() > 0,
        more[0] == c,
    ensures
        text::next_at(s + more, from, c) == text::next_at(s, from, c),
    decreases s.len() - from,
{
    let all = s + more;
    if from < s.len() {
        assert(all[from] == s[from]);
        if s[from] != c {
            lemma_next_at_stays(s, more, from + 1, c);
        }
    } else {
        assert(all[from] == more[0]);
    }
}

} // verus!
