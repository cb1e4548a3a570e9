//! The sensors a curve can be pointed at, as a person picks one.

use crate::config;
use crate::config::{Kind, Sensor};
use crate::ipc;
use crate::ipc::SensorInfo;
use crate::sensor;
use crate::text;
use vstd::prelude::*;

verus! {

/// A sensor as offered in the picker: the label a person reads, plus what the
/// config needs.
#[derive(Debug)]
pub struct SensorChoice {
    pub label: String,
    pub sensor: Sensor,
}

#[verifier::ext_equal]
pub struct ChoiceView {
    pub label: Seq<char>,
    pub sensor: config::SensorView,
}

impl View for SensorChoice {
    type V = ChoiceView;

    open spec fn view(&self) -> ChoiceView {
        ChoiceView { label: self.label@, sensor: self.sensor@ }
    }
}

impl Clone for SensorChoice {
    fn clone(&self) -> (r: Self)
        ensures
            r@ == self@,
    {
        SensorChoice { label: self.label.clone(), sensor: self.sensor.clone() }
    }
}

impl PartialEq for SensorChoice {
    fn eq(&self, other: &Self) -> (r: bool) {
        self.label == other.label && self.sensor == other.sensor
    }
}

impl vstd::std_specs::cmp::PartialEqSpecImpl for SensorChoice {
    open spec fn obeys_eq_spec() -> bool {
        true
    }

    open spec fn eq_spec(&self, other: &Self) -> bool {
        self@ == other@
    }
}

impl SensorChoice {
    /// What the picker shows.
    pub fn to_string(&self) -> (text: String)
        ensures
            text@ == self@.label,
    {
        self.label.clone()
    }
}

pub open spec fn choice_views(choices: Seq<SensorChoice>) -> Seq<ChoiceView> {
    Seq::new(choices.len(), |i: int| choices[i]@)
}

// ---------------------------------------------------------------------------
// Names, each once and in order

/// A run of names without those that repeat the one before.
pub open spec fn deduped(names: Seq<Seq<char>>) -> Seq<Seq<char>>
    decreases names.len(),
{
    if names.len() <= 1 || names[names.len() - 2] != names.last() {
        if names.len() == 0 {
            names
        } else {
            deduped(names.drop_last()).push(names.last())
        }
    } else {
        deduped(names.drop_last())
    }
}

/// Each name once, in order.
pub open spec fn distinct(names: Seq<Seq<char>>) -> Seq<Seq<char>> {
    deduped(text::in_order(names))
}

/// Every name comes before the next.
pub open spec fn strictly_ascending(names: Seq<Seq<char>>) -> bool {
    forall|i: int, j: int|
        0 <= i < j < names.len() ==> text::precedes(#[trigger] names[i], #[trigger] names[j])
}

proof fn lemma_deduped(names: Seq<Seq<char>>)
    requires
        text::alphabetical(names),
    ensures
        strictly_ascending(deduped(names)),
        names.len() > 0 ==> deduped(names).len() > 0 && deduped(names).last() == names.last(),
        forall|i: int| 0 <= i < names.len() ==> deduped(names).contains(#[trigger] names[i]),
        forall|i: int|
            0 <= i < deduped(names).len() ==> names.contains(#[trigger] deduped(names)[i]),
    decreases names.len(),
{
    if names.len() > 0 {
        let rest = names.drop_last();
        let last = names.last();
        assert(text::alphabetical(rest)) by {
            assert forall|i: int, j: int| 0 <= i < j < rest.len() implies !text::precedes(
                #[trigger] rest[j],
                #[trigger] rest[i],
            ) by {
                assert(!text::precedes(names[j], names[i]));
            }
        }
        lemma_deduped(rest);
        let inner = deduped(rest);
        let r = deduped(names);
        if names.len() == 1 || names[names.len() - 2] != last {
            assert(r == inner.push(last));
            assert forall|i: int, j: int| 0 <= i < j < r.len() implies text::precedes(
                #[trigger] r[i],
                #[trigger] r[j],
            ) by {
                if j == inner.len() {
                    // The one before is the last of the rest, and differs.
                    let before = rest.last();
                    assert(before == names[names.len() - 2]);
                    assert(!text::precedes(names[names.len() - 1], names[names.len() - 2]));
                    text::lemma_precedes_total(before, last);
                    if i < inner.len() - 1 {
                        assert(text::precedes(inner[i], inner[inner.len() - 1]));
                        text::lemma_precedes_transitive(inner[i], before, last);
                    }
                }
            }
            assert(r[r.len() - 1] == last);
            assert forall|i: int| 0 <= i < names.len() implies r.contains(#[trigger] names[i]) by {
                if i < rest.len() {
                    assert(rest[i] == names[i]);
                    let k = choose|k: int| 0 <= k < inner.len() && inner[k] == names[i];
                    assert(r[k] == names[i]);
                }
            }
            assert forall|i: int| 0 <= i < r.len() implies names.contains(#[trigger] r[i]) by {
                if i < inner.len() {
                    assert(inner[i] == r[i]);
                    let k = choose|k: int| 0 <= k < rest.len() && rest[k] == inner[i];
                    assert(names[k] == r[i]);
                } else {
                    assert(names[names.len() - 1] == r[i]);
                }
            }
        } else {
            assert(rest.last() == last);
            assert forall|i: int| 0 <= i < names.len() implies r.contains(#[trigger] names[i]) by {
                if i < rest.len() {
                    assert(rest[i] == names[i]);
                } else {
                    assert(rest[rest.len() - 1] == names[i]);
                }
            }
            assert forall|i: int| 0 <= i < r.len() implies names.contains(#[trigger] r[i]) by {
                let k = choose|k: int| 0 <= k < rest.len() && rest[k] == r[i];
                assert(names[k] == r[i]);
            }
        }
    }
}

/// No name is listed twice, none is lost and none made up, and they are in
/// order.
pub proof fn law_names_are_listed_once(names: Seq<Seq<char>>)
    ensures
        strictly_ascending(distinct(names)),
        forall|name: Seq<char>|
            #![trigger distinct(names).contains(name)]
            #![trigger names.contains(name)]
            distinct(names).contains(name) <==> names.contains(name),
{
    broadcast use vstd::seq_lib::group_to_multiset_ensures;

    text::law_ordering_keeps_every_name(names);
    let ordered = text::in_order(names);
    lemma_deduped(ordered);
    assert forall|name: Seq<char>|
        #![trigger distinct(names).contains(name)]
        #![trigger names.contains(name)]
        distinct(names).contains(name) <==> names.contains(name) by {
        if distinct(names).contains(name) {
            let i = choose|i: int| 0 <= i < distinct(names).len() && distinct(names)[i] == name;
            assert(ordered.contains(deduped(ordered)[i]));
            assert(ordered.to_multiset().count(name) > 0);
            assert(names.to_multiset().count(name) > 0);
        }
        if names.contains(name) {
            assert(names.to_multiset().count(name) > 0);
            assert(ordered.to_multiset().count(name) > 0);
            assert(ordered.contains(name));
            let i = choose|i: int| 0 <= i < ordered.len() && ordered[i] == name;
            assert(deduped(ordered).contains(ordered[i]));
        }
    }
}

fn list_once(names: Vec<String>) -> (r: Vec<String>)
    ensures
        text::views(r@) == distinct(text::views(names@)),
{
    let ordered = text::sort_names(names);
    let ghost all = text::views(ordered@);
    let mut r: Vec<String> = Vec::new();
    let mut i: usize = 0;
    proof {
        assert(all.take(0) =~= Seq::<Seq<char>>::empty());
        assert(text::views(r@) =~= deduped(all.take(0)));
    }
    while i < ordered.len()
        invariant
            i <= ordered@.len(),
            all == text::views(ordered@),
            text::views(r@) == deduped(all.take(i as int)),
        decreases ordered@.len() - i,
    {
        let ghost before = text::views(r@);
        proof {
            let next = all.take(i + 1);
            assert(next.drop_last() =~= all.take(i as int));
            assert(next.last() == ordered@[i as int]@);
            if i > 0 {
                assert(next[next.len() - 2] == ordered@[i - 1]@);
            }
        }
        if i == 0 || ordered[i - 1] != ordered[i] {
            r.push(ordered[i].clone());
            proof {
                assert(text::views(r@) =~= before.push(ordered@[i as int]@));
            }
        }
        i += 1;
    }
    proof {
        assert(all.take(i as int) =~= all);
    }
    r
}

// ---------------------------------------------------------------------------
// Picking inputs out

/// The inputs of one chip.
pub open spec fn of_chip(
    sensors: Seq<ipc::SensorInfoView>,
    hwmon: Seq<char>,
) -> Seq<ipc::SensorInfoView>
    decreases sensors.len(),
{
    if sensors.len() == 0 {
        sensors
    } else if sensors.last().hwmon == hwmon {
        of_chip(sensors.drop_last(), hwmon).push(sensors.last())
    } else {
        of_chip(sensors.drop_last(), hwmon)
    }
}

/// The inputs at one address.
pub open spec fn of_device(
    sensors: Seq<ipc::SensorInfoView>,
    device: Seq<char>,
) -> Seq<ipc::SensorInfoView>
    decreases sensors.len(),
{
    if sensors.len() == 0 {
        sensors
    } else if sensors.last().device == device {
        of_device(sensors.drop_last(), device).push(sensors.last())
    } else {
        of_device(sensors.drop_last(), device)
    }
}

pub open spec fn hwmons(sensors: Seq<ipc::SensorInfoView>) -> Seq<Seq<char>> {
    Seq::new(sensors.len(), |i: int| sensors[i].hwmon)
}

pub open spec fn devices(sensors: Seq<ipc::SensorInfoView>) -> Seq<Seq<char>> {
    Seq::new(sensors.len(), |i: int| sensors[i].device)
}

/// The labels there are; an input need not have one.
pub open spec fn labels(sensors: Seq<ipc::SensorInfoView>) -> Seq<Seq<char>>
    decreases sensors.len(),
{
    if sensors.len() == 0 {
        Seq::empty()
    } else if sensors.last().label.len() > 0 {
        labels(sensors.drop_last()).push(sensors.last().label)
    } else {
        labels(sensors.drop_last())
    }
}

/// What kind of thing a chip is: what its first input says.
pub open spec fn kind_of(inputs: Seq<ipc::SensorInfoView>) -> Kind {
    if inputs.len() > 0 {
        inputs[0].kind
    } else {
        Kind::Hwmon
    }
}

fn chip_inputs(sensors: &Vec<SensorInfo>, hwmon: &str) -> (r: Vec<SensorInfo>)
    ensures
        ipc::sensor_info_views(r@) == of_chip(ipc::sensor_info_views(sensors@), hwmon@),
{
    let ghost all = ipc::sensor_info_views(sensors@);
    let mut r: Vec<SensorInfo> = Vec::new();
    let mut i: usize = 0;
    proof {
        assert(all.take(0) =~= Seq::<ipc::SensorInfoView>::empty());
        assert(ipc::sensor_info_views(r@) =~= Seq::<ipc::SensorInfoView>::empty());
    }
    while i < sensors.len()
        invariant
            i <= sensors@.len(),
            all == ipc::sensor_info_views(sensors@),
            ipc::sensor_info_views(r@) == of_chip(all.take(i as int), hwmon@),
        decreases sensors@.len() - i,
    {
        let ghost before = ipc::sensor_info_views(r@);
        proof {
            let next = all.take(i + 1);
            assert(next.drop_last() =~= all.take(i as int));
            assert(next.last() == sensors@[i as int]@);
        }
        if text::same(sensors[i].hwmon.as_str(), hwmon) {
            r.push(sensors[i].clone());
            proof {
                assert(ipc::sensor_info_views(r@) =~= before.push(sensors@[i as int]@));
            }
        }
        i += 1;
    }
    proof {
        assert(all.take(i as int) =~= all);
    }
    r
}

fn device_inputs(sensors: &Vec<SensorInfo>, device: &str) -> (r: Vec<SensorInfo>)
    ensures
        ipc::sensor_info_views(r@) == of_device(ipc::sensor_info_views(sensors@), device@),
{
    let ghost all = ipc::sensor_info_views(sensors@);
    let mut r: Vec<SensorInfo> = Vec::new();
    let mut i: usize = 0;
    proof {
        assert(all.take(0) =~= Seq::<ipc::SensorInfoView>::empty());
        assert(ipc::sensor_info_views(r@) =~= Seq::<ipc::SensorInfoView>::empty());
    }
    while i < sensors.len()
        invariant
            i <= sensors@.len(),
            all == ipc::sensor_info_views(sensors@),
            ipc::sensor_info_views(r@) == of_device(all.take(i as int), device@),
        decreases sensors@.len() - i,
    {
        let ghost before = ipc::sensor_info_views(r@);
        proof {
            let next = all.take(i + 1);
            assert(next.drop_last() =~= all.take(i as int));
            assert(next.last() == sensors@[i as int]@);
        }
        if text::same(sensors[i].device.as_str(), device) {
            r.push(sensors[i].clone());
            proof {
                assert(ipc::sensor_info_views(r@) =~= before.push(sensors@[i as int]@));
            }
        }
        i += 1;
    }
    proof {
        assert(all.take(i as int) =~= all);
    }
    r
}

fn all_hwmons(sensors: &Vec<SensorInfo>) -> (r: Vec<String>)
    ensures
        text::views(r@) == hwmons(ipc::sensor_info_views(sensors@)),
{
    let mut r: Vec<String> = Vec::new();
    let mut i: usize = 0;
    while i < sensors.len()
        invariant
            i <= sensors@.len(),
            r@.len() == i,
            forall|k: int| 0 <= k < i ==> (#[trigger] r@[k])@ == sensors@[k]@.hwmon,
        decreases sensors@.len() - i,
    {
        r.push(sensors[i].hwmon.clone());
        i += 1;
    }
    proof {
        assert(text::views(r@) =~= hwmons(ipc::sensor_info_views(sensors@)));
    }
    r
}

fn all_devices(sensors: &Vec<SensorInfo>) -> (r: Vec<String>)
    ensures
        text::views(r@) == devices(ipc::sensor_info_views(sensors@)),
{
    let mut r: Vec<String> = Vec::new();
    let mut i: usize = 0;
    while i < sensors.len()
        invariant
            i <= sensors@.len(),
            r@.len() == i,
            forall|k: int| 0 <= k < i ==> (#[trigger] r@[k])@ == sensors@[k]@.device,
        decreases sensors@.len() - i,
    {
        r.push(sensors[i].device.clone());
        i += 1;
    }
    proof {
        assert(text::views(r@) =~= devices(ipc::sensor_info_views(sensors@)));
    }
    r
}

fn all_labels(sensors: &Vec<SensorInfo>) -> (r: Vec<String>)
    ensures
        text::views(r@) == labels(ipc::sensor_info_views(sensors@)),
{
    let ghost all = ipc::sensor_info_views(sensors@);
    let mut r: Vec<String> = Vec::new();
    let mut i: usize = 0;
    proof {
        assert(all.take(0) =~= Seq::<ipc::SensorInfoView>::empty());
        assert(text::views(r@) =~= Seq::<Seq<char>>::empty());
    }
    while i < sensors.len()
        invariant
            i <= sensors@.len(),
            all == ipc::sensor_info_views(sensors@),
            text::views(r@) == labels(all.take(i as int)),
        decreases sensors@.len() - i,
    {
        let ghost before = text::views(r@);
        proof {
            let next = all.take(i + 1);
            assert(next.drop_last() =~= all.take(i as int));
            assert(next.last() == sensors@[i as int]@);
        }
        if !sensors[i].label.as_str().is_empty() {
            r.push(sensors[i].label.clone());
            proof {
                assert(text::views(r@) =~= before.push(sensors@[i as int].label@));
            }
        }
        i += 1;
    }
    proof {
        assert(all.take(i as int) =~= all);
    }
    r
}

// ---------------------------------------------------------------------------
// The choices

pub open spec fn choice(
    label: Seq<char>,
    kind: Kind,
    hwmon: Seq<char>,
    device: Seq<char>,
    input: Seq<char>,
) -> ChoiceView {
    ChoiceView { label, sensor: config::SensorView { kind, hwmon, device, label: input } }
}

/// The choices that span a whole chip: all of it, then each of its labels.
pub open spec fn chip_choices(hwmon: Seq<char>, inputs: Seq<ipc::SensorInfoView>) -> Seq<
    ChoiceView,
> {
    let several = distinct(devices(inputs)).len() > 1;
    let kind = kind_of(inputs);
    let names = distinct(labels(inputs));
    seq![
        choice(
            hwmon + (if several {
                " (all, hottest)"@
            } else {
                " (hottest)"@
            }),
            kind,
            hwmon,
            Seq::empty(),
            Seq::empty(),
        ),
    ] + Seq::new(
        names.len(),
        |i: int|
            choice(
                hwmon + (if several {
                    " (all)"@
                } else {
                    Seq::empty()
                }) + "/"@ + names[i],
                kind,
                hwmon,
                Seq::empty(),
                names[i],
            ),
    )
}

/// The choices for the labelled inputs of one device, in the order they came.
pub open spec fn input_choices(
    named: Seq<char>,
    kind: Kind,
    hwmon: Seq<char>,
    device: Seq<char>,
    inputs: Seq<ipc::SensorInfoView>,
) -> Seq<ChoiceView> {
    Seq::new(
        labels(inputs).len(),
        |i: int|
            choice(named + "/"@ + labels(inputs)[i], kind, hwmon, device, labels(inputs)[i]),
    )
}

/// The choices for one of several devices: all of it, then each of its inputs.
pub open spec fn device_choices(
    hwmon: Seq<char>,
    device: Seq<char>,
    inputs: Seq<ipc::SensorInfoView>,
) -> Seq<ChoiceView> {
    let named = hwmon + " "@ + sensor::short(device);
    let kind = kind_of(inputs);
    seq![choice(named + " (hottest)"@, kind, hwmon, device, Seq::empty())] + input_choices(
        named,
        kind,
        hwmon,
        device,
        of_device(inputs, device),
    )
}

/// The choices for a run of devices of one chip.
pub open spec fn each_device(
    hwmon: Seq<char>,
    named: Seq<Seq<char>>,
    inputs: Seq<ipc::SensorInfoView>,
) -> Seq<ChoiceView>
    decreases named.len(),
{
    if named.len() == 0 {
        Seq::empty()
    } else {
        each_device(hwmon, named.drop_last(), inputs) + device_choices(
            hwmon,
            named.last(),
            inputs,
        )
    }
}

/// Everything a chip offers. A single device needs no entries of its own: the
/// ones for the chip already mean it.
pub open spec fn chip_offers(hwmon: Seq<char>, inputs: Seq<ipc::SensorInfoView>) -> Seq<
    ChoiceView,
> {
    let found = distinct(devices(inputs));
    chip_choices(hwmon, inputs) + (if found.len() > 1 {
        each_device(hwmon, found, inputs)
    } else {
        Seq::empty()
    })
}

/// Everything a run of chips offers.
pub open spec fn each_chip(
    named: Seq<Seq<char>>,
    sensors: Seq<ipc::SensorInfoView>,
) -> Seq<ChoiceView>
    decreases named.len(),
{
    if named.len() == 0 {
        Seq::empty()
    } else {
        each_chip(named.drop_last(), sensors) + chip_offers(
            named.last(),
            of_chip(sensors, named.last()),
        )
    }
}

/// Everything there is to choose from: chip by chip, in order of name.
pub open spec fn choices(sensors: Seq<ipc::SensorInfoView>) -> Seq<ChoiceView> {
    each_chip(distinct(hwmons(sensors)), sensors)
}

fn make(label: String, kind: Kind, hwmon: &str, device: &str, input: &str) -> (r: SensorChoice)
    ensures
        r@ == choice(label@, kind, hwmon@, device@, input@),
{
    let r = SensorChoice {
        label,
        sensor: Sensor {
            kind,
            hwmon: hwmon.to_owned(),
            device: device.to_owned(),
            label: input.to_owned(),
        },
    };
    proof {
        assert(r@ =~= choice(label@, kind, hwmon@, device@, input@));
    }
    r
}

fn kind(inputs: &Vec<SensorInfo>) -> (r: Kind)
    ensures
        r == kind_of(ipc::sensor_info_views(inputs@)),
{
    if inputs.len() > 0 {
        inputs[0].kind
    } else {
        Kind::Hwmon
    }
}

fn push_chip(out: &mut Vec<SensorChoice>, hwmon: &str, inputs: &Vec<SensorInfo>, several: bool)
    requires
        several == (distinct(devices(ipc::sensor_info_views(inputs@))).len() > 1),
    ensures
        choice_views(final(out)@) == choice_views(old(out)@) + chip_choices(
            hwmon@,
            ipc::sensor_info_views(inputs@),
        ),
{
    let ghost before = choice_views(out@);
    let ghost all = ipc::sensor_info_views(inputs@);
    let ghost target = chip_choices(hwmon@, all);
    let which = kind(inputs);
    let names = list_once(all_labels(inputs));
    let label = text::joined(
        hwmon,
        if several {
            " (all, hottest)"
        } else {
            " (hottest)"
        },
    );
    proof {
        reveal_strlit("");
        assert(""@ =~= Seq::<char>::empty());
    }
    out.push(make(label, which, hwmon, "", ""));
    proof {
        assert(choice_views(out@) =~= before + target.take(1));
    }
    let mut i: usize = 0;
    while i < names.len()
        invariant
            i <= names@.len(),
            ""@ == Seq::<char>::empty(),
            which == kind_of(all),
            text::views(names@) == distinct(labels(all)),
            several == (distinct(devices(all)).len() > 1),
            target == chip_choices(hwmon@, all),
            choice_views(out@) == before + target.take(1 + i),
        decreases names@.len() - i,
    {
        let ghost so_far = choice_views(out@);
        let mut label = text::joined(
            hwmon,
            if several {
                " (all)"
            } else {
                ""
            },
        );
        label.append("/");
        label.append(names[i].as_str());
        let one = make(label, which, hwmon, "", names[i].as_str());
        let ghost view = one@;
        proof {
            assert(distinct(labels(all))[i as int] == names@[i as int]@);
            assert(view == target[1 + i]);
        }
        out.push(one);
        proof {
            assert(choice_views(out@) =~= so_far.push(view));
            assert(before + target.take(2 + i) =~= (before + target.take(1 + i)).push(view));
        }
        i += 1;
    }
    proof {
        assert(target.take(1 + i) =~= target);
    }
}

fn push_device(out: &mut Vec<SensorChoice>, hwmon: &str, device: &str, inputs: &Vec<SensorInfo>)
    ensures
        choice_views(final(out)@) == choice_views(old(out)@) + device_choices(
            hwmon@,
            device@,
            ipc::sensor_info_views(inputs@),
        ),
{
    let ghost before = choice_views(out@);
    let ghost all = ipc::sensor_info_views(inputs@);
    let ghost target = device_choices(hwmon@, device@, all);
    let which = kind(inputs);
    let mut named = text::joined(hwmon, " ");
    named.append(sensor::short_address(device));
    let own = device_inputs(inputs, device);
    let names = all_labels(&own);
    proof {
        reveal_strlit("");
        assert(""@ =~= Seq::<char>::empty());
    }
    out.push(make(text::joined(named.as_str(), " (hottest)"), which, hwmon, device, ""));
    proof {
        assert(choice_views(out@) =~= before + target.take(1));
    }
    let mut i: usize = 0;
    while i < names.len()
        invariant
            i <= names@.len(),
            which == kind_of(all),
            named@ == hwmon@ + " "@ + sensor::short(device@),
            text::views(names@) == labels(of_device(all, device@)),
            target == device_choices(hwmon@, device@, all),
            choice_views(out@) == before + target.take(1 + i),
        decreases names@.len() - i,
    {
        let ghost so_far = choice_views(out@);
        let mut label = text::joined(named.as_str(), "/");
        label.append(names[i].as_str());
        let one = make(label, which, hwmon, device, names[i].as_str());
        let ghost view = one@;
        proof {
            assert(labels(of_device(all, device@))[i as int] == names@[i as int]@);
            assert(view == target[1 + i]);
        }
        out.push(one);
        proof {
            assert(choice_views(out@) =~= so_far.push(view));
            assert(before + target.take(2 + i) =~= (before + target.take(1 + i)).push(view));
        }
        i += 1;
    }
    proof {
        assert(target.take(1 + i) =~= target);
    }
}

fn push_offers(out: &mut Vec<SensorChoice>, hwmon: &str, inputs: &Vec<SensorInfo>)
    ensures
        choice_views(final(out)@) == choice_views(old(out)@) + chip_offers(
            hwmon@,
            ipc::sensor_info_views(inputs@),
        ),
{
    let ghost before = choice_views(out@);
    let ghost all = ipc::sensor_info_views(inputs@);
    let found = list_once(all_devices(inputs));
    let several = found.len() > 1;
    push_chip(out, hwmon, inputs, several);
    let ghost base = choice_views(out@);
    if several {
        let mut i: usize = 0;
        let ghost named = text::views(found@);
        proof {
            assert(named.take(0) =~= Seq::<Seq<char>>::empty());
            assert(base + each_device(hwmon@, named.take(0), all) =~= base);
        }
        while i < found.len()
            invariant
                i <= found@.len(),
                named == text::views(found@),
                all == ipc::sensor_info_views(inputs@),
                choice_views(out@) == base + each_device(hwmon@, named.take(i as int), all),
            decreases found@.len() - i,
        {
            proof {
                let next = named.take(i + 1);
                assert(next.drop_last() =~= named.take(i as int));
                assert(next.last() == found@[i as int]@);
            }
            let ghost so_far = choice_views(out@);
            push_device(out, hwmon, found[i].as_str(), inputs);
            proof {
                assert(choice_views(out@) =~= base + each_device(hwmon@, named.take(i + 1), all));
            }
            i += 1;
        }
        proof {
            assert(named.take(i as int) =~= named);
        }
    }
    proof {
        assert(choice_views(out@) =~= before + chip_offers(hwmon@, all));
    }
}

/// Every hwmon the daemon can read, plus a whole-hwmon entry for each: an empty
/// label means "the hottest input of this chip", which is what covers a pair
/// of DIMMs or two drives with one curve.
///
/// The list comes from the daemon and not from this process. They can disagree:
/// a sandboxed daemon may be blind to sensors that are plainly there here, and
/// offering one of those would build a curve that never reads anything.
///
/// No readings: the list is built once per connection, so a number in it would
/// sit stale in the closed picker.
pub fn sensor_choices(sensors: &Vec<SensorInfo>) -> (r: Vec<SensorChoice>)
    ensures
        choice_views(r@) == choices(ipc::sensor_info_views(sensors@)),
{
    let ghost all = ipc::sensor_info_views(sensors@);
    let chips = list_once(all_hwmons(sensors));
    let ghost named = text::views(chips@);
    let mut r: Vec<SensorChoice> = Vec::new();
    let mut i: usize = 0;
    proof {
        assert(named.take(0) =~= Seq::<Seq<char>>::empty());
        assert(choice_views(r@) =~= Seq::<ChoiceView>::empty());
    }
    while i < chips.len()
        invariant
            i <= chips@.len(),
            named == text::views(chips@),
            all == ipc::sensor_info_views(sensors@),
            choice_views(r@) == each_chip(named.take(i as int), all),
        decreases chips@.len() - i,
    {
        proof {
            let next = named.take(i + 1);
            assert(next.drop_last() =~= named.take(i as int));
            assert(next.last() == chips@[i as int]@);
        }
        let inputs = chip_inputs(sensors, chips[i].as_str());
        push_offers(&mut r, chips[i].as_str(), &inputs);
        i += 1;
    }
    proof {
        assert(named.take(i as int) =~= named);
    }
    r
}

/// Does an input answer to a sensor? The same matching the daemon does: an
/// empty field accepts anything.
pub open spec fn answers(entry: ipc::SensorInfoView, sensor: config::SensorView) -> bool {
    sensor::answers(
        sensor::AvailableView {
            hwmon: entry.hwmon,
            device: entry.device,
            kernel: entry.kernel,
            label: entry.label,
            path: Seq::empty(),
        },
        sensor,
    )
}

/// Is there an input that answers to a sensor?
pub open spec fn exists_for(
    sensors: Seq<ipc::SensorInfoView>,
    sensor: config::SensorView,
) -> bool {
    exists|i: int| 0 <= i < sensors.len() && answers(#[trigger] sensors[i], sensor)
}

/// Does the daemon have anything this curve would read?
pub fn sensor_exists(sensors: &Vec<SensorInfo>, sensor: &Sensor) -> (r: bool)
    ensures
        r == exists_for(ipc::sensor_info_views(sensors@), sensor@),
{
    let ghost all = ipc::sensor_info_views(sensors@);
    let mut i: usize = 0;
    while i < sensors.len()
        invariant
            i <= sensors@.len(),
            all == ipc::sensor_info_views(sensors@),
            forall|k: int| 0 <= k < i ==> !answers(#[trigger] all[k], sensor@),
        decreases sensors@.len() - i,
    {
        let entry = &sensors[i];
        if entry.hwmon == sensor.hwmon && (sensor.device.as_str().is_empty() || entry.device
            == sensor.device || entry.kernel == sensor.device) && (sensor.label.as_str().is_empty()
            || entry.label == sensor.label) {
            proof {
                assert(answers(all[i as int], sensor@));
            }
            return true;
        }
        proof {
            assert(all[i as int] == entry@);
        }
        i += 1;
    }
    false
}

// ---------------------------------------------------------------------------
// What the list promises

proof fn lemma_of_chip(sensors: Seq<ipc::SensorInfoView>, hwmon: Seq<char>)
    ensures
        forall|i: int|
            0 <= i < of_chip(sensors, hwmon).len() ==> (#[trigger] of_chip(
                sensors,
                hwmon,
            )[i]).hwmon == hwmon && sensors.contains(of_chip(sensors, hwmon)[i]),
        (exists|i: int| 0 <= i < sensors.len() && (#[trigger] sensors[i]).hwmon == hwmon)
            ==> of_chip(sensors, hwmon).len() > 0,
    decreases sensors.len(),
{
    if sensors.len() > 0 {
        let rest = sensors.drop_last();
        lemma_of_chip(rest, hwmon);
        let r = of_chip(sensors, hwmon);
        let inner = of_chip(rest, hwmon);
        assert forall|i: int| 0 <= i < r.len() implies (#[trigger] r[i]).hwmon == hwmon
            && sensors.contains(r[i]) by {
            if i < inner.len() {
                assert(r[i] == inner[i]);
                let k = choose|k: int| 0 <= k < rest.len() && rest[k] == inner[i];
                assert(sensors[k] == r[i]);
            } else {
                assert(sensors[sensors.len() - 1] == r[i]);
            }
        }
        if exists|i: int| 0 <= i < sensors.len() && (#[trigger] sensors[i]).hwmon == hwmon {
            let i = choose|i: int| 0 <= i < sensors.len() && (#[trigger] sensors[i]).hwmon == hwmon;
            if i < rest.len() {
                assert(rest[i].hwmon == hwmon);
            }
        }
    }
}

proof fn lemma_labels(sensors: Seq<ipc::SensorInfoView>)
    ensures
        forall|k: int|
            0 <= k < labels(sensors).len() ==> exists|i: int|
                0 <= i < sensors.len() && (#[trigger] sensors[i]).label == #[trigger] labels(
                    sensors,
                )[k],
        forall|k: int| 0 <= k < labels(sensors).len() ==> (#[trigger] labels(sensors)[k]).len() > 0,
    decreases sensors.len(),
{
    if sensors.len() > 0 {
        let rest = sensors.drop_last();
        lemma_labels(rest);
        let r = labels(sensors);
        let inner = labels(rest);
        assert forall|k: int| 0 <= k < r.len() implies (#[trigger] r[k]).len() > 0 by {
            if k < inner.len() {
                assert(inner[k] == r[k]);
            }
        }
        assert forall|k: int| 0 <= k < r.len() implies exists|i: int|
            0 <= i < sensors.len() && (#[trigger] sensors[i]).label == #[trigger] r[k] by {
            if k < inner.len() {
                assert(inner[k] == r[k]);
                let i = choose|i: int|
                    0 <= i < rest.len() && (#[trigger] rest[i]).label == inner[k];
                assert(sensors[i] == rest[i]);
            } else {
                assert(sensors[sensors.len() - 1].label == r[k]);
            }
        }
    }
}

proof fn lemma_of_device(sensors: Seq<ipc::SensorInfoView>, device: Seq<char>)
    ensures
        forall|i: int|
            0 <= i < of_device(sensors, device).len() ==> (#[trigger] of_device(
                sensors,
                device,
            )[i]).device == device && sensors.contains(of_device(sensors, device)[i]),
    decreases sensors.len(),
{
    if sensors.len() > 0 {
        let rest = sensors.drop_last();
        lemma_of_device(rest, device);
        let r = of_device(sensors, device);
        let inner = of_device(rest, device);
        assert forall|i: int| 0 <= i < r.len() implies (#[trigger] r[i]).device == device
            && sensors.contains(r[i]) by {
            if i < inner.len() {
                assert(r[i] == inner[i]);
                let k = choose|k: int| 0 <= k < rest.len() && rest[k] == inner[i];
                assert(sensors[k] == r[i]);
            } else {
                assert(sensors[sensors.len() - 1] == r[i]);
            }
        }
    }
}

/// Everything one chip offers is answered by one of its inputs.
proof fn lemma_chip_offers_exist(
    sensors: Seq<ipc::SensorInfoView>,
    hwmon: Seq<char>,
)
    requires
        exists|i: int| 0 <= i < sensors.len() && (#[trigger] sensors[i]).hwmon == hwmon,
    ensures
        forall|k: int|
            0 <= k < chip_offers(hwmon, of_chip(sensors, hwmon)).len() ==> exists_for(
                sensors,
                (#[trigger] chip_offers(hwmon, of_chip(sensors, hwmon))[k]).sensor,
            ),
{
    let inputs = of_chip(sensors, hwmon);
    lemma_of_chip(sensors, hwmon);
    assert(inputs.len() > 0);
    let found = distinct(devices(inputs));
    let all = chip_offers(hwmon, inputs);
    let whole = chip_choices(hwmon, inputs);
    assert forall|k: int| 0 <= k < all.len() implies exists_for(
        sensors,
        (#[trigger] all[k]).sensor,
    ) by {
        if k < whole.len() {
            assert(all[k] == whole[k]);
            if k == 0 {
                lemma_exists(sensors, inputs[0], all[k].sensor);
            } else {
                let names = distinct(labels(inputs));
                law_names_are_listed_once(labels(inputs));
                assert(names.contains(names[k - 1]));
                assert(labels(inputs).contains(names[k - 1]));
                let j = choose|j: int|
                    0 <= j < labels(inputs).len() && labels(inputs)[j] == names[k - 1];
                lemma_labels(inputs);
                let i = choose|i: int|
                    0 <= i < inputs.len() && (#[trigger] inputs[i]).label == labels(inputs)[j];
                lemma_exists(sensors, inputs[i], all[k].sensor);
            }
        } else {
            law_names_are_listed_once(devices(inputs));
            assert forall|d: int| 0 <= d < found.len() implies exists|i: int|
                0 <= i < inputs.len() && (#[trigger] inputs[i]).device == #[trigger] found[d] by {
                assert(found.contains(found[d]));
                assert(devices(inputs).contains(found[d]));
                let i = choose|i: int|
                    0 <= i < devices(inputs).len() && devices(inputs)[i] == found[d];
                assert(inputs[i].device == found[d]);
            }
            lemma_each_device_exists(sensors, hwmon, found, inputs);
            assert(all[k] == each_device(hwmon, found, inputs)[k - whole.len()]);
        }
    }
}

/// An input that fits a sensor is enough for it to exist.
proof fn lemma_exists(
    sensors: Seq<ipc::SensorInfoView>,
    entry: ipc::SensorInfoView,
    sensor: config::SensorView,
)
    requires
        sensors.contains(entry),
        answers(entry, sensor),
    ensures
        exists_for(sensors, sensor),
{
    let i = choose|i: int| 0 <= i < sensors.len() && sensors[i] == entry;
    assert(answers(sensors[i], sensor));
}

proof fn lemma_each_device_exists(
    sensors: Seq<ipc::SensorInfoView>,
    hwmon: Seq<char>,
    named: Seq<Seq<char>>,
    inputs: Seq<ipc::SensorInfoView>,
)
    requires
        inputs == of_chip(sensors, hwmon),
        forall|d: int|
            0 <= d < named.len() ==> exists|i: int|
                0 <= i < inputs.len() && (#[trigger] inputs[i]).device == #[trigger] named[d],
    ensures
        forall|k: int|
            0 <= k < each_device(hwmon, named, inputs).len() ==> exists_for(
                sensors,
                (#[trigger] each_device(hwmon, named, inputs)[k]).sensor,
            ),
    decreases named.len(),
{
    if named.len() > 0 {
        let rest = named.drop_last();
        let device = named.last();
        assert forall|d: int| 0 <= d < rest.len() implies exists|i: int|
            0 <= i < inputs.len() && (#[trigger] inputs[i]).device == #[trigger] rest[d] by {
            assert(named[d] == rest[d]);
        }
        lemma_each_device_exists(sensors, hwmon, rest, inputs);
        lemma_of_chip(sensors, hwmon);
        let inner = each_device(hwmon, rest, inputs);
        let own = device_choices(hwmon, device, inputs);
        let all = each_device(hwmon, named, inputs);
        let mine = of_device(inputs, device);
        lemma_of_device(inputs, device);
        lemma_labels(mine);
        assert forall|k: int| 0 <= k < all.len() implies exists_for(
            sensors,
            (#[trigger] all[k]).sensor,
        ) by {
            if k < inner.len() {
                assert(all[k] == inner[k]);
            } else {
                let c = own[k - inner.len()];
                assert(all[k] == c);
                if k == inner.len() {
                    assert(named[named.len() - 1] == device);
                    let i = choose|i: int|
                        0 <= i < inputs.len() && (#[trigger] inputs[i]).device == device;
                    lemma_exists(sensors, inputs[i], c.sensor);
                } else {
                    let j = k - inner.len() - 1;
                    assert(c.sensor.label == labels(mine)[j]);
                    let i = choose|i: int|
                        0 <= i < mine.len() && (#[trigger] mine[i]).label == labels(mine)[j];
                    assert(inputs.contains(mine[i]));
                    let m = choose|m: int| 0 <= m < inputs.len() && inputs[m] == mine[i];
                    lemma_exists(sensors, inputs[m], c.sensor);
                }
            }
        }
    }
}

proof fn lemma_each_chip_exists(named: Seq<Seq<char>>, sensors: Seq<ipc::SensorInfoView>)
    requires
        forall|c: int|
            0 <= c < named.len() ==> exists|i: int|
                0 <= i < sensors.len() && (#[trigger] sensors[i]).hwmon == #[trigger] named[c],
    ensures
        forall|k: int|
            0 <= k < each_chip(named, sensors).len() ==> exists_for(
                sensors,
                (#[trigger] each_chip(named, sensors)[k]).sensor,
            ),
    decreases named.len(),
{
    if named.len() > 0 {
        let rest = named.drop_last();
        assert forall|c: int| 0 <= c < rest.len() implies exists|i: int|
            0 <= i < sensors.len() && (#[trigger] sensors[i]).hwmon == #[trigger] rest[c] by {
            assert(named[c] == rest[c]);
        }
        lemma_each_chip_exists(rest, sensors);
        assert(named[named.len() - 1] == named.last());
        lemma_chip_offers_exist(sensors, named.last());
        let inner = each_chip(rest, sensors);
        let own = chip_offers(named.last(), of_chip(sensors, named.last()));
        let all = each_chip(named, sensors);
        assert forall|k: int| 0 <= k < all.len() implies exists_for(
            sensors,
            (#[trigger] all[k]).sensor,
        ) by {
            if k < inner.len() {
                assert(all[k] == inner[k]);
            } else {
                assert(all[k] == own[k - inner.len()]);
            }
        }
    }
}

/// Whatever is offered, the daemon has an input that answers to it: no choice
/// builds a curve that could never read anything.
pub proof fn law_every_choice_exists(sensors: Seq<ipc::SensorInfoView>, k: int)
    requires
        0 <= k < choices(sensors).len(),
    ensures
        exists_for(sensors, choices(sensors)[k].sensor),
{
    let named = distinct(hwmons(sensors));
    law_names_are_listed_once(hwmons(sensors));
    assert forall|c: int| 0 <= c < named.len() implies exists|i: int|
        0 <= i < sensors.len() && (#[trigger] sensors[i]).hwmon == #[trigger] named[c] by {
        assert(named.contains(named[c]));
        assert(hwmons(sensors).contains(named[c]));
        let i = choose|i: int| 0 <= i < hwmons(sensors).len() && hwmons(sensors)[i] == named[c];
        assert(sensors[i].hwmon == named[c]);
    }
    lemma_each_chip_exists(named, sensors);
}

/// Does the list hold a choice for this much of a chip?
pub open spec fn on_offer(
    all: Seq<ChoiceView>,
    kind: Kind,
    hwmon: Seq<char>,
    device: Seq<char>,
    label: Seq<char>,
) -> bool {
    exists|k: int|
        0 <= k < all.len() && (#[trigger] all[k]).sensor == (config::SensorView {
            kind,
            hwmon,
            device,
            label,
        })
}

/// Do the inputs of a chip differ in device?
pub open spec fn spread(sensors: Seq<ipc::SensorInfoView>, hwmon: Seq<char>) -> bool {
    exists|i: int, j: int|
        0 <= i < sensors.len() && 0 <= j < sensors.len() && (#[trigger] sensors[i]).hwmon == hwmon
            && (#[trigger] sensors[j]).hwmon == hwmon && sensors[i].device != sensors[j].device
}

/// Picking inputs out leaves none of those meant behind.
proof fn lemma_nothing_is_left_behind(sensors: Seq<ipc::SensorInfoView>, i: int)
    requires
        0 <= i < sensors.len(),
    ensures
        of_chip(sensors, sensors[i].hwmon).contains(sensors[i]),
        of_device(sensors, sensors[i].device).contains(sensors[i]),
        sensors[i].label.len() > 0 ==> labels(sensors).contains(sensors[i].label),
    decreases sensors.len(),
{
    let rest = sensors.drop_last();
    let input = sensors[i];
    let chip = of_chip(sensors, input.hwmon);
    let device = of_device(sensors, input.device);
    let texts = labels(sensors);
    if i < rest.len() {
        lemma_nothing_is_left_behind(rest, i);
        assert(rest[i] == input);
        let inner = of_chip(rest, input.hwmon);
        let k = choose|k: int| 0 <= k < inner.len() && inner[k] == input;
        assert(chip[k] == input);
        let inner = of_device(rest, input.device);
        let k = choose|k: int| 0 <= k < inner.len() && inner[k] == input;
        assert(device[k] == input);
        if input.label.len() > 0 {
            let inner = labels(rest);
            let k = choose|k: int| 0 <= k < inner.len() && inner[k] == input.label;
            assert(texts[k] == input.label);
        }
    } else {
        assert(chip[chip.len() - 1] == input);
        assert(device[device.len() - 1] == input);
        if input.label.len() > 0 {
            assert(texts[texts.len() - 1] == input.label);
        }
    }
}

/// A chip counts as several exactly when its inputs differ in device.
proof fn lemma_several(sensors: Seq<ipc::SensorInfoView>, hwmon: Seq<char>)
    ensures
        distinct(devices(of_chip(sensors, hwmon))).len() > 1 <==> spread(sensors, hwmon),
{
    let inputs = of_chip(sensors, hwmon);
    let all = devices(inputs);
    let found = distinct(all);
    lemma_of_chip(sensors, hwmon);
    law_names_are_listed_once(all);
    if found.len() > 1 {
        assert(text::precedes(found[0], found[1]));
        text::lemma_precedes_irreflexive(found[0]);
        assert(found.contains(found[0]) && found.contains(found[1]));
        assert(all.contains(found[0]) && all.contains(found[1]));
        let a = choose|a: int| 0 <= a < all.len() && all[a] == found[0];
        let b = choose|b: int| 0 <= b < all.len() && all[b] == found[1];
        assert(sensors.contains(inputs[a]) && sensors.contains(inputs[b]));
        let i = choose|i: int| 0 <= i < sensors.len() && sensors[i] == inputs[a];
        let j = choose|j: int| 0 <= j < sensors.len() && sensors[j] == inputs[b];
        assert(sensors[i].hwmon == hwmon && sensors[j].hwmon == hwmon);
        assert(sensors[i].device != sensors[j].device);
    }
    if spread(sensors, hwmon) {
        let (i, j) = choose|i: int, j: int|
            0 <= i < sensors.len() && 0 <= j < sensors.len() && (#[trigger] sensors[i]).hwmon
                == hwmon && (#[trigger] sensors[j]).hwmon == hwmon && sensors[i].device
                != sensors[j].device;
        lemma_device_is_found(sensors, i);
        lemma_device_is_found(sensors, j);
        let a = choose|a: int| 0 <= a < found.len() && found[a] == sensors[i].device;
        let b = choose|b: int| 0 <= b < found.len() && found[b] == sensors[j].device;
        assert(a != b);
    }
}

/// The device of every input is among those found of its chip.
proof fn lemma_device_is_found(sensors: Seq<ipc::SensorInfoView>, i: int)
    requires
        0 <= i < sensors.len(),
    ensures
        distinct(devices(of_chip(sensors, sensors[i].hwmon))).contains(sensors[i].device),
{
    let inputs = of_chip(sensors, sensors[i].hwmon);
    lemma_nothing_is_left_behind(sensors, i);
    let k = choose|k: int| 0 <= k < inputs.len() && inputs[k] == sensors[i];
    assert(devices(inputs)[k] == sensors[i].device);
    law_names_are_listed_once(devices(inputs));
    assert(devices(inputs).contains(sensors[i].device));
}

/// What one device offers is among what all of them do, and every choice of a
/// run of devices is for their chip.
proof fn lemma_each_device_is_offered(
    hwmon: Seq<char>,
    named: Seq<Seq<char>>,
    inputs: Seq<ipc::SensorInfoView>,
)
    ensures
        forall|d: int, m: int|
            0 <= d < named.len() && 0 <= m < device_choices(hwmon, named[d], inputs).len()
                ==> each_device(hwmon, named, inputs).contains(
                #[trigger] device_choices(hwmon, named[d], inputs)[m],
            ),
        forall|k: int|
            0 <= k < each_device(hwmon, named, inputs).len() ==> (#[trigger] each_device(
                hwmon,
                named,
                inputs,
            )[k]).sensor.hwmon == hwmon,
    decreases named.len(),
{
    if named.len() > 0 {
        let rest = named.drop_last();
        lemma_each_device_is_offered(hwmon, rest, inputs);
        let inner = each_device(hwmon, rest, inputs);
        let own = device_choices(hwmon, named.last(), inputs);
        let all = each_device(hwmon, named, inputs);
        assert forall|d: int, m: int|
            0 <= d < named.len() && 0 <= m < device_choices(
                hwmon,
                named[d],
                inputs,
            ).len() implies all.contains(
            #[trigger] device_choices(hwmon, named[d], inputs)[m],
        ) by {
            let c = device_choices(hwmon, named[d], inputs)[m];
            if d < rest.len() {
                assert(rest[d] == named[d]);
                assert(device_choices(hwmon, rest[d], inputs)[m] == c);
                assert(inner.contains(c));
                let k = choose|k: int| 0 <= k < inner.len() && inner[k] == c;
                assert(all[k] == c);
            } else {
                assert(all[inner.len() + m] == c);
            }
        }
        assert forall|k: int| 0 <= k < all.len() implies (#[trigger] all[k]).sensor.hwmon
            == hwmon by {
            if k < inner.len() {
                assert(all[k] == inner[k]);
            } else {
                assert(all[k] == own[k - inner.len()]);
            }
        }
    }
}

/// Every choice a chip offers is for that chip, and names a device only where
/// there are several.
proof fn lemma_chip_offers(hwmon: Seq<char>, inputs: Seq<ipc::SensorInfoView>)
    ensures
        forall|k: int|
            0 <= k < chip_offers(hwmon, inputs).len() ==> (#[trigger] chip_offers(
                hwmon,
                inputs,
            )[k]).sensor.hwmon == hwmon && (chip_offers(hwmon, inputs)[k].sensor.device.len() > 0
                ==> distinct(devices(inputs)).len() > 1),
{
    let found = distinct(devices(inputs));
    let whole = chip_choices(hwmon, inputs);
    let all = chip_offers(hwmon, inputs);
    lemma_each_device_is_offered(hwmon, found, inputs);
    assert forall|k: int| 0 <= k < all.len() implies (#[trigger] all[k]).sensor.hwmon == hwmon && (
    all[k].sensor.device.len() > 0 ==> found.len() > 1) by {
        if k < whole.len() {
            assert(all[k] == whole[k]);
        } else {
            assert(all[k] == each_device(hwmon, found, inputs)[k - whole.len()]);
        }
    }
}

/// What a chip offers of one of its inputs.
proof fn lemma_an_input_is_offered(sensors: Seq<ipc::SensorInfoView>, i: int)
    requires
        0 <= i < sensors.len(),
    ensures
        ({
            let s = sensors[i];
            let inputs = of_chip(sensors, s.hwmon);
            let all = chip_offers(s.hwmon, inputs);
            let kind = kind_of(inputs);
            let none = Seq::<char>::empty();
            &&& on_offer(all, kind, s.hwmon, none, none)
            &&& s.label.len() > 0 ==> on_offer(all, kind, s.hwmon, none, s.label)
            &&& spread(sensors, s.hwmon) ==> on_offer(all, kind, s.hwmon, s.device, none)
            &&& spread(sensors, s.hwmon) && s.label.len() > 0 ==> on_offer(
                all,
                kind,
                s.hwmon,
                s.device,
                s.label,
            )
        }),
{
    let s = sensors[i];
    let inputs = of_chip(sensors, s.hwmon);
    let all = chip_offers(s.hwmon, inputs);
    let whole = chip_choices(s.hwmon, inputs);
    let kind = kind_of(inputs);
    let none = Seq::<char>::empty();
    assert(all[0] == whole[0]);
    assert(all[0].sensor == (config::SensorView {
        kind,
        hwmon: s.hwmon,
        device: none,
        label: none,
    }));
    lemma_nothing_is_left_behind(sensors, i);
    let at = choose|k: int| 0 <= k < inputs.len() && inputs[k] == s;
    lemma_nothing_is_left_behind(inputs, at);
    if s.label.len() > 0 {
        let names = distinct(labels(inputs));
        law_names_are_listed_once(labels(inputs));
        assert(labels(inputs).contains(s.label));
        assert(names.contains(s.label));
        let n = choose|n: int| 0 <= n < names.len() && names[n] == s.label;
        assert(all[n + 1] == whole[n + 1]);
        assert(all[n + 1].sensor == (config::SensorView {
            kind,
            hwmon: s.hwmon,
            device: none,
            label: s.label,
        }));
    }
    if spread(sensors, s.hwmon) {
        lemma_several(sensors, s.hwmon);
        lemma_device_is_found(sensors, i);
        let found = distinct(devices(inputs));
        let each = each_device(s.hwmon, found, inputs);
        let own = device_choices(s.hwmon, s.device, inputs);
        let mine = of_device(inputs, s.device);
        lemma_each_device_is_offered(s.hwmon, found, inputs);
        let d = choose|d: int| 0 <= d < found.len() && found[d] == s.device;
        assert(own == device_choices(s.hwmon, found[d], inputs));
        assert(each.contains(device_choices(s.hwmon, found[d], inputs)[0]));
        let k = choose|k: int| 0 <= k < each.len() && each[k] == own[0];
        assert(all[whole.len() + k] == own[0]);
        if s.label.len() > 0 {
            let m = choose|m: int| 0 <= m < mine.len() && mine[m] == s;
            lemma_nothing_is_left_behind(mine, m);
            let n = choose|n: int| 0 <= n < labels(mine).len() && labels(mine)[n] == s.label;
            assert(own[n + 1].sensor == (config::SensorView {
                kind,
                hwmon: s.hwmon,
                device: s.device,
                label: s.label,
            }));
            assert(each.contains(device_choices(s.hwmon, found[d], inputs)[n + 1]));
            let k = choose|k: int| 0 <= k < each.len() && each[k] == own[n + 1];
            assert(all[whole.len() + k] == own[n + 1]);
        }
    }
}

/// What each chip offers is in the list, every choice is offered by a chip that
/// was named, and chips named in order are listed in order.
proof fn lemma_each_chip_is_offered(named: Seq<Seq<char>>, sensors: Seq<ipc::SensorInfoView>)
    requires
        strictly_ascending(named),
    ensures
        forall|c: int, m: int|
            0 <= c < named.len() && 0 <= m < chip_offers(
                named[c],
                of_chip(sensors, named[c]),
            ).len() ==> each_chip(named, sensors).contains(
                #[trigger] chip_offers(named[c], of_chip(sensors, named[c]))[m],
            ),
        forall|k: int|
            0 <= k < each_chip(named, sensors).len() ==> {
                let sensor = (#[trigger] each_chip(named, sensors)[k]).sensor;
                named.contains(sensor.hwmon) && (sensor.device.len() > 0 ==> distinct(
                    devices(of_chip(sensors, sensor.hwmon)),
                ).len() > 1)
            },
        forall|k: int, l: int|
            0 <= k < l < each_chip(named, sensors).len() ==> {
                let before = (#[trigger] each_chip(named, sensors)[k]).sensor.hwmon;
                let after = (#[trigger] each_chip(named, sensors)[l]).sensor.hwmon;
                before == after || text::precedes(before, after)
            },
    decreases named.len(),
{
    if named.len() > 0 {
        let rest = named.drop_last();
        let last = named.last();
        let n = named.len() - 1;
        assert forall|i: int, j: int| 0 <= i < j < rest.len() implies text::precedes(
            #[trigger] rest[i],
            #[trigger] rest[j],
        ) by {
            assert(rest[i] == named[i] && rest[j] == named[j]);
        }
        lemma_each_chip_is_offered(rest, sensors);
        lemma_chip_offers(last, of_chip(sensors, last));
        let inner = each_chip(rest, sensors);
        let own = chip_offers(last, of_chip(sensors, last));
        let all = each_chip(named, sensors);
        assert(named[n] == last);
        assert forall|c: int, m: int|
            0 <= c < named.len() && 0 <= m < chip_offers(
                named[c],
                of_chip(sensors, named[c]),
            ).len() implies all.contains(
            #[trigger] chip_offers(named[c], of_chip(sensors, named[c]))[m],
        ) by {
            let one = chip_offers(named[c], of_chip(sensors, named[c]))[m];
            if c < rest.len() {
                assert(rest[c] == named[c]);
                assert(chip_offers(rest[c], of_chip(sensors, rest[c]))[m] == one);
                assert(inner.contains(one));
                let k = choose|k: int| 0 <= k < inner.len() && inner[k] == one;
                assert(all[k] == one);
            } else {
                assert(all[inner.len() + m] == one);
            }
        }
        assert forall|k: int| 0 <= k < all.len() implies {
            let sensor = (#[trigger] all[k]).sensor;
            named.contains(sensor.hwmon) && (sensor.device.len() > 0 ==> distinct(
                devices(of_chip(sensors, sensor.hwmon)),
            ).len() > 1)
        } by {
            if k < inner.len() {
                assert(all[k] == inner[k]);
                let c = choose|c: int| 0 <= c < rest.len() && rest[c] == inner[k].sensor.hwmon;
                assert(named[c] == rest[c]);
            } else {
                assert(all[k] == own[k - inner.len()]);
            }
        }
        assert forall|k: int, l: int| 0 <= k < l < all.len() implies {
            let before = (#[trigger] all[k]).sensor.hwmon;
            let after = (#[trigger] all[l]).sensor.hwmon;
            before == after || text::precedes(before, after)
        } by {
            if l < inner.len() {
                assert(all[k] == inner[k] && all[l] == inner[l]);
            } else {
                assert(all[l] == own[l - inner.len()]);
                if k < inner.len() {
                    assert(all[k] == inner[k]);
                    let c = choose|c: int| 0 <= c < rest.len() && rest[c] == inner[k].sensor.hwmon;
                    assert(named[c] == rest[c]);
                    assert(text::precedes(named[c], named[n]));
                } else {
                    assert(all[k] == own[k - inner.len()]);
                }
            }
        }
    }
}

/// What a named chip has on offer, the list has.
proof fn lemma_offers_reach_the_list(
    sensors: Seq<ipc::SensorInfoView>,
    named: Seq<Seq<char>>,
    c: int,
    kind: Kind,
    device: Seq<char>,
    label: Seq<char>,
)
    requires
        strictly_ascending(named),
        0 <= c < named.len(),
    ensures
        on_offer(
            chip_offers(named[c], of_chip(sensors, named[c])),
            kind,
            named[c],
            device,
            label,
        ) ==> on_offer(each_chip(named, sensors), kind, named[c], device, label),
{
    let own = chip_offers(named[c], of_chip(sensors, named[c]));
    let all = each_chip(named, sensors);
    let sensor = config::SensorView { kind, hwmon: named[c], device, label };
    if on_offer(own, kind, named[c], device, label) {
        lemma_each_chip_is_offered(named, sensors);
        let m = choose|m: int| 0 <= m < own.len() && (#[trigger] own[m]).sensor == sensor;
        assert(all.contains(chip_offers(named[c], of_chip(sensors, named[c]))[m]));
        let k = choose|k: int| 0 <= k < all.len() && all[k] == own[m];
        assert(all[k].sensor == sensor);
    }
}

/// The list leaves nothing out, splits up only what needs it and is in order.
///
/// Every input can be chosen with the whole of its chip, and under its label
/// where it has one. Where the inputs of a chip differ in device, each can be
/// chosen with its device alone too, and only there does a choice name one.
/// Chips come in order of name.
pub proof fn law_the_list_covers_every_input(sensors: Seq<ipc::SensorInfoView>)
    ensures
        forall|i: int|
            0 <= i < sensors.len() ==> {
                let s = #[trigger] sensors[i];
                let kind = kind_of(of_chip(sensors, s.hwmon));
                let all = choices(sensors);
                let none = Seq::<char>::empty();
                &&& on_offer(all, kind, s.hwmon, none, none)
                &&& s.label.len() > 0 ==> on_offer(all, kind, s.hwmon, none, s.label)
                &&& spread(sensors, s.hwmon) ==> on_offer(all, kind, s.hwmon, s.device, none)
                &&& spread(sensors, s.hwmon) && s.label.len() > 0 ==> on_offer(
                    all,
                    kind,
                    s.hwmon,
                    s.device,
                    s.label,
                )
            },
        forall|k: int|
            0 <= k < choices(sensors).len() && (#[trigger] choices(sensors)[k]).sensor.device.len()
                > 0 ==> spread(sensors, choices(sensors)[k].sensor.hwmon),
        forall|k: int, l: int|
            0 <= k < l < choices(sensors).len() ==> {
                let before = (#[trigger] choices(sensors)[k]).sensor.hwmon;
                let after = (#[trigger] choices(sensors)[l]).sensor.hwmon;
                before == after || text::precedes(before, after)
            },
{
    let named = distinct(hwmons(sensors));
    let all = choices(sensors);
    law_names_are_listed_once(hwmons(sensors));
    lemma_each_chip_is_offered(named, sensors);
    assert forall|k: int| 0 <= k < all.len() && (#[trigger] all[k]).sensor.device.len()
        > 0 implies spread(sensors, all[k].sensor.hwmon) by {
        lemma_several(sensors, all[k].sensor.hwmon);
    }
    assert forall|i: int| 0 <= i < sensors.len() implies {
        let s = #[trigger] sensors[i];
        let kind = kind_of(of_chip(sensors, s.hwmon));
        let none = Seq::<char>::empty();
        &&& on_offer(all, kind, s.hwmon, none, none)
        &&& s.label.len() > 0 ==> on_offer(all, kind, s.hwmon, none, s.label)
        &&& spread(sensors, s.hwmon) ==> on_offer(all, kind, s.hwmon, s.device, none)
        &&& spread(sensors, s.hwmon) && s.label.len() > 0 ==> on_offer(
            all,
            kind,
            s.hwmon,
            s.device,
            s.label,
        )
    } by {
        let s = sensors[i];
        let kind = kind_of(of_chip(sensors, s.hwmon));
        let none = Seq::<char>::empty();
        lemma_an_input_is_offered(sensors, i);
        assert(hwmons(sensors)[i] == s.hwmon);
        assert(hwmons(sensors).contains(s.hwmon));
        assert(named.contains(s.hwmon));
        let c = choose|c: int| 0 <= c < named.len() && named[c] == s.hwmon;
        lemma_offers_reach_the_list(sensors, named, c, kind, none, none);
        lemma_offers_reach_the_list(sensors, named, c, kind, none, s.label);
        lemma_offers_reach_the_list(sensors, named, c, kind, s.device, none);
        lemma_offers_reach_the_list(sensors, named, c, kind, s.device, s.label);
    }
}

/// The window finds a sensor exactly when the daemon would: both go by the same
/// fields, and an empty one accepts anything.
pub proof fn law_the_window_matches_as_the_daemon_does(
    list: Seq<sensor::AvailableView>,
    sensors: Seq<ipc::SensorInfoView>,
    wanted: config::SensorView,
)
    requires
        list.len() == sensors.len(),
        forall|i: int|
            0 <= i < list.len() ==> {
                let input = #[trigger] list[i];
                input.hwmon == sensors[i].hwmon && input.device == sensors[i].device
                    && input.kernel == sensors[i].kernel && input.label == sensors[i].label
            },
    ensures
        exists_for(sensors, wanted) <==> sensor::matched(list, wanted).len() > 0,
    decreases list.len(),
{
    if list.len() > 0 {
        let n = list.len() - 1;
        assert forall|i: int| 0 <= i < n implies {
            let input = #[trigger] list.drop_last()[i];
            input.hwmon == sensors.drop_last()[i].hwmon && input.device
                == sensors.drop_last()[i].device && input.kernel == sensors.drop_last()[i].kernel
                && input.label == sensors.drop_last()[i].label
        } by {
            assert(list.drop_last()[i] == list[i]);
        }
        law_the_window_matches_as_the_daemon_does(list.drop_last(), sensors.drop_last(), wanted);
        assert(list[n].hwmon == sensors[n].hwmon);
        assert(answers(sensors[n], wanted) == sensor::answers(list[n], wanted));
        if exists_for(sensors, wanted) {
            let k = choose|k: int| 0 <= k < sensors.len() && answers(#[trigger] sensors[k], wanted);
            if k < n {
                assert(answers(sensors.drop_last()[k], wanted));
            }
        }
        if exists_for(sensors.drop_last(), wanted) {
            let k = choose|k: int|
                0 <= k < n && answers(#[trigger] sensors.drop_last()[k], wanted);
            assert(answers(sensors[k], wanted));
        }
    }
}

/// What a choice is called by what it stands for: the chip, its device if one is
/// meant, and the input, or that the hottest of them is followed. Where a chip
/// is several devices, a choice for all of them says so.
pub open spec fn called(sensor: config::SensorView, several: bool) -> Seq<char> {
    if sensor.device.len() > 0 {
        sensor.hwmon + " "@ + sensor::short(sensor.device) + (if sensor.label.len() == 0 {
            " (hottest)"@
        } else {
            "/"@ + sensor.label
        })
    } else if several {
        sensor.hwmon + (if sensor.label.len() == 0 {
            " (all, hottest)"@
        } else {
            " (all)"@ + "/"@ + sensor.label
        })
    } else {
        sensor.hwmon + (if sensor.label.len() == 0 {
            " (hottest)"@
        } else {
            "/"@ + sensor.label
        })
    }
}

proof fn lemma_each_device_is_called(
    hwmon: Seq<char>,
    named: Seq<Seq<char>>,
    inputs: Seq<ipc::SensorInfoView>,
    several: bool,
)
    requires
        forall|d: int| 0 <= d < named.len() ==> (#[trigger] named[d]).len() > 0,
    ensures
        forall|k: int|
            0 <= k < each_device(hwmon, named, inputs).len() ==> (#[trigger] each_device(
                hwmon,
                named,
                inputs,
            )[k]).label == called(each_device(hwmon, named, inputs)[k].sensor, several),
    decreases named.len(),
{
    if named.len() > 0 {
        let rest = named.drop_last();
        let device = named.last();
        assert forall|d: int| 0 <= d < rest.len() implies (#[trigger] rest[d]).len() > 0 by {
            assert(rest[d] == named[d]);
        }
        lemma_each_device_is_called(hwmon, rest, inputs, several);
        assert(named[named.len() - 1] == device);
        let inner = each_device(hwmon, rest, inputs);
        let own = device_choices(hwmon, device, inputs);
        let all = each_device(hwmon, named, inputs);
        let mine = of_device(inputs, device);
        lemma_labels(mine);
        let front = hwmon + " "@ + sensor::short(device);
        assert forall|k: int| 0 <= k < all.len() implies (#[trigger] all[k]).label == called(
            all[k].sensor,
            several,
        ) by {
            if k < inner.len() {
                assert(all[k] == inner[k]);
            } else {
                let j = k - inner.len();
                assert(all[k] == own[j]);
                if j > 0 {
                    let label = labels(mine)[j - 1];
                    assert(labels(mine).contains(label));
                    assert(own[j].sensor.label == label);
                    assert(label.len() > 0);
                    assert(front + "/"@ + label =~= front + ("/"@ + label));
                }
            }
        }
    }
}

proof fn lemma_chip_offers_are_called(hwmon: Seq<char>, inputs: Seq<ipc::SensorInfoView>)
    requires
        distinct(devices(inputs)).len() > 1 ==> forall|i: int|
            0 <= i < inputs.len() ==> (#[trigger] inputs[i]).device.len() > 0,
    ensures
        forall|k: int|
            0 <= k < chip_offers(hwmon, inputs).len() ==> (#[trigger] chip_offers(
                hwmon,
                inputs,
            )[k]).label == called(
                chip_offers(hwmon, inputs)[k].sensor,
                distinct(devices(inputs)).len() > 1,
            ),
{
    let found = distinct(devices(inputs));
    let several = found.len() > 1;
    let whole = chip_choices(hwmon, inputs);
    let all = chip_offers(hwmon, inputs);
    let names = distinct(labels(inputs));
    law_names_are_listed_once(devices(inputs));
    law_names_are_listed_once(labels(inputs));
    lemma_labels(inputs);
    if several {
        assert forall|d: int| 0 <= d < found.len() implies (#[trigger] found[d]).len() > 0 by {
            assert(found.contains(found[d]));
            assert(devices(inputs).contains(found[d]));
            let i = choose|i: int| 0 <= i < devices(inputs).len() && devices(inputs)[i] == found[d];
            assert(inputs[i].device == found[d]);
        }
        lemma_each_device_is_called(hwmon, found, inputs, several);
    }
    assert forall|k: int| 0 <= k < all.len() implies (#[trigger] all[k]).label == called(
        all[k].sensor,
        several,
    ) by {
        if k < whole.len() {
            assert(all[k] == whole[k]);
            if k > 0 {
                let label = names[k - 1];
                assert(names.contains(label));
                assert(labels(inputs).contains(label));
                assert(label.len() > 0);
                if several {
                    assert(hwmon + " (all)"@ + "/"@ + label =~= hwmon + (" (all)"@ + "/"@ + label));
                } else {
                    assert(hwmon + Seq::<char>::empty() + "/"@ + label =~= hwmon + ("/"@ + label));
                }
            }
        } else {
            assert(all[k] == each_device(hwmon, found, inputs)[k - whole.len()]);
        }
    }
}

proof fn lemma_each_chip_is_called(named: Seq<Seq<char>>, sensors: Seq<ipc::SensorInfoView>)
    requires
        forall|i: int|
            0 <= i < sensors.len() && spread(sensors, (#[trigger] sensors[i]).hwmon)
                ==> sensors[i].device.len() > 0,
    ensures
        forall|k: int|
            0 <= k < each_chip(named, sensors).len() ==> (#[trigger] each_chip(
                named,
                sensors,
            )[k]).label == called(
                each_chip(named, sensors)[k].sensor,
                spread(sensors, each_chip(named, sensors)[k].sensor.hwmon),
            ),
    decreases named.len(),
{
    if named.len() > 0 {
        let rest = named.drop_last();
        let hwmon = named.last();
        let inputs = of_chip(sensors, hwmon);
        lemma_each_chip_is_called(rest, sensors);
        lemma_several(sensors, hwmon);
        lemma_of_chip(sensors, hwmon);
        if distinct(devices(inputs)).len() > 1 {
            assert forall|i: int| 0 <= i < inputs.len() implies (
            #[trigger] inputs[i]).device.len() > 0 by {
                assert(sensors.contains(inputs[i]));
                let j = choose|j: int| 0 <= j < sensors.len() && sensors[j] == inputs[i];
                assert(sensors[j].hwmon == hwmon);
            }
        }
        lemma_chip_offers_are_called(hwmon, inputs);
        lemma_chip_offers(hwmon, inputs);
        let inner = each_chip(rest, sensors);
        let own = chip_offers(hwmon, inputs);
        let all = each_chip(named, sensors);
        assert forall|k: int| 0 <= k < all.len() implies (#[trigger] all[k]).label == called(
            all[k].sensor,
            spread(sensors, all[k].sensor.hwmon),
        ) by {
            if k < inner.len() {
                assert(all[k] == inner[k]);
            } else {
                assert(all[k] == own[k - inner.len()]);
            }
        }
    }
}

/// Every choice is called by what it stands for.
pub proof fn law_choices_are_called_what_they_stand_for(
    sensors: Seq<ipc::SensorInfoView>,
    k: int,
)
    requires
        0 <= k < choices(sensors).len(),
        forall|i: int|
            0 <= i < sensors.len() && spread(sensors, (#[trigger] sensors[i]).hwmon)
                ==> sensors[i].device.len() > 0,
    ensures
        choices(sensors)[k].label == called(
            choices(sensors)[k].sensor,
            spread(sensors, choices(sensors)[k].sensor.hwmon),
        ),
{
    lemma_each_chip_is_called(distinct(hwmons(sensors)), sensors);
}

/// Where all inputs of a chip are of one kind, so is the chip.
pub proof fn law_a_chip_is_of_the_kind_of_its_inputs(
    sensors: Seq<ipc::SensorInfoView>,
    hwmon: Seq<char>,
    kind: Kind,
    i: int,
)
    requires
        0 <= i < sensors.len(),
        sensors[i].hwmon == hwmon,
        forall|j: int|
            0 <= j < sensors.len() && (#[trigger] sensors[j]).hwmon == hwmon ==> sensors[j].kind
                == kind,
    ensures
        kind_of(of_chip(sensors, hwmon)) == kind,
{
    lemma_nothing_is_left_behind(sensors, i);
    lemma_of_chip(sensors, hwmon);
    let inputs = of_chip(sensors, hwmon);
    assert(inputs.len() > 0);
    assert(sensors.contains(inputs[0]));
}

/// An input answers by the chip's name, by its address or what the kernel calls
/// it where a device is asked for, and by its label where one is.
pub proof fn law_inputs_answer_to_their_names(
    input: ipc::SensorInfoView,
    sensor: config::SensorView,
)
    ensures
        answers(input, sensor) ==> input.hwmon == sensor.hwmon,
        answers(input, sensor) && sensor.device.len() > 0 ==> sensor.device == input.device
            || sensor.device == input.kernel,
        answers(input, sensor) && sensor.label.len() > 0 ==> sensor.label == input.label,
        input.hwmon == sensor.hwmon && (sensor.device.len() == 0 || sensor.device == input.device
            || sensor.device == input.kernel) && (sensor.label.len() == 0 || sensor.label
            == input.label) ==> answers(input, sensor),
{
}

/// A chip is of the kind its first input says, whatever the others say.
pub proof fn law_the_first_input_tells_the_kind(
    sensors: Seq<ipc::SensorInfoView>,
    hwmon: Seq<char>,
    i: int,
)
    requires
        0 <= i < sensors.len(),
        sensors[i].hwmon == hwmon,
        forall|j: int| 0 <= j < i ==> (#[trigger] sensors[j]).hwmon != hwmon,
    ensures
        of_chip(sensors, hwmon).len() > 0,
        of_chip(sensors, hwmon)[0] == sensors[i],
        kind_of(of_chip(sensors, hwmon)) == sensors[i].kind,
    decreases sensors.len(),
{
    let rest = sensors.drop_last();
    if i < rest.len() {
        assert forall|j: int| 0 <= j < i implies (#[trigger] rest[j]).hwmon != hwmon by {
            assert(rest[j] == sensors[j]);
        }
        law_the_first_input_tells_the_kind(rest, hwmon, i);
    } else {
        lemma_of_chip(rest, hwmon);
        if of_chip(rest, hwmon).len() > 0 {
            let one = of_chip(rest, hwmon)[0];
            let k = choose|k: int| 0 <= k < rest.len() && rest[k] == one;
            assert(sensors[k].hwmon == hwmon);
        }
    }
}

} // verus!
