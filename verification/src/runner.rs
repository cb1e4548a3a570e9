//! Running the configured curves: where each reads from, and what the readings
//! of all of them come to.

use crate::config;
use crate::config::{Config, Kind, Point, Sensor};
use crate::control::Evaluation;
use crate::curve;
use crate::curve::Demand;
use crate::nvidia;
use crate::nvidia::Part;
use crate::sensor;
use crate::sensor::Available;
use crate::text;
use vstd::prelude::*;

verus! {

/// One configured curve, ready to run.
#[derive(Debug)]
pub struct Runner {
    pub name: String,
    pub sensor: Sensor,
    pub points: Vec<Point>,
    pub panic_c: u8,
}

#[verifier::ext_equal]
pub struct RunnerView {
    pub name: Seq<char>,
    pub sensor: config::SensorView,
    pub points: Seq<Point>,
    pub panic_c: u8,
}

impl View for Runner {
    type V = RunnerView;

    open spec fn view(&self) -> RunnerView {
        RunnerView {
            name: self.name@,
            sensor: self.sensor@,
            points: self.points@,
            panic_c: self.panic_c,
        }
    }
}

pub open spec fn runner_views(runners: Seq<Runner>) -> Seq<RunnerView> {
    Seq::new(runners.len(), |i: int| runners[i]@)
}

/// How a curve of a configuration runs: under a name, and with a panic
/// threshold of its own or the one for all.
pub open spec fn runner(config: config::ConfigView, i: int) -> RunnerView {
    let curve = config.curves[i];
    RunnerView {
        name: curve::described(curve, i as nat),
        sensor: curve.sensor,
        points: curve.points,
        panic_c: match curve.panic_c {
            Some(panic_c) => panic_c,
            None => config.smoothing.panic_c,
        },
    }
}

/// The curves of a configuration, ready to run.
pub fn build(config: &Config) -> (runners: Vec<Runner>)
    ensures
        runner_views(runners@) == Seq::new(config@.curves.len(), |i: int| runner(config@, i)),
{
    let mut runners: Vec<Runner> = Vec::new();
    let mut i: usize = 0;
    while i < config.curves.len()
        invariant
            i <= config.curves@.len(),
            runners@.len() == i,
            forall|k: int| 0 <= k < i ==> (#[trigger] runners@[k])@ == runner(config@, k),
        decreases config.curves@.len() - i,
    {
        let curve = &config.curves[i];
        proof {
            assert(config@.curves[i as int] == curve@);
        }
        let one = Runner {
            name: curve::describe(curve, i),
            sensor: curve.sensor.clone(),
            points: config::clone_points(&curve.points),
            panic_c: match curve.panic_c {
                Some(panic_c) => panic_c,
                None => config.smoothing.panic_c,
            },
        };
        proof {
            assert(one@ =~= runner(config@, i as int));
        }
        runners.push(one);
        i += 1;
    }
    proof {
        assert(runner_views(runners@) =~= Seq::new(
            config@.curves.len(),
            |i: int| runner(config@, i),
        ));
    }
    runners
}

/// Where a curve's readings come from, once resolved.
///
/// Resolved lazily and retried: a chip can appear after we start, and giving up
/// once would mean never running that curve again.
#[derive(Debug)]
pub enum Source {
    /// Every input the curve matches; the hottest of them is what it follows.
    Hwmon { paths: Vec<String> },
    /// The part of a card to follow, and whether the machine has the card.
    Nvidia { card: String, part: Part, present: bool },
}

#[verifier::ext_equal]
pub enum SourceView {
    Hwmon { paths: Seq<Seq<char>> },
    Nvidia { card: Seq<char>, part: Part, present: bool },
}

impl View for Source {
    type V = SourceView;

    open spec fn view(&self) -> SourceView {
        match self {
            Source::Hwmon { paths } => SourceView::Hwmon { paths: text::views(paths@) },
            Source::Nvidia { card, part, present } => SourceView::Nvidia {
                card: card@,
                part: *part,
                present: *present,
            },
        }
    }
}

/// The card a sensor means: the one it names, or else the first there is.
pub open spec fn card_of(sensor: config::SensorView, cards: Seq<Seq<char>>) -> Seq<char> {
    if sensor.device.len() > 0 {
        sensor.device
    } else if cards.len() > 0 {
        cards[0]
    } else {
        Seq::empty()
    }
}

impl SourceView {
    /// What a sensor stands for on a machine with these inputs and cards. The
    /// label says which part of a card is meant.
    pub open spec fn of(
        sensor: config::SensorView,
        list: Seq<sensor::AvailableView>,
        cards: Seq<Seq<char>>,
    ) -> SourceView {
        match sensor.kind {
            Kind::Hwmon => SourceView::Hwmon { paths: sensor::matched(list, sensor) },
            Kind::Nvidia => SourceView::Nvidia {
                card: card_of(sensor, cards),
                part: Part::of(sensor.label),
                present: cards.contains(card_of(sensor, cards)),
            },
        }
    }

    pub open spec fn missing(self) -> bool {
        match self {
            SourceView::Hwmon { paths } => paths.len() == 0,
            SourceView::Nvidia { card, present, .. } => card.len() == 0 || !present,
        }
    }

    /// Is the thing this watches asleep? Only a card can be.
    pub open spec fn sleeping(self, status: Option<Seq<char>>) -> bool {
        self is Nvidia && nvidia::sleeping(status)
    }
}

fn lists(names: &Vec<String>, name: &str) -> (r: bool)
    ensures
        r == text::views(names@).contains(name@),
{
    let ghost all = text::views(names@);
    let mut i: usize = 0;
    while i < names.len()
        invariant
            i <= names@.len(),
            all == text::views(names@),
            forall|k: int| 0 <= k < i ==> #[trigger] all[k] != name@,
        decreases names@.len() - i,
    {
        if text::same(names[i].as_str(), name) {
            proof {
                assert(all[i as int] == name@);
            }
            return true;
        }
        i += 1;
    }
    false
}

impl Source {
    pub fn find(sensor: &Sensor, list: &Vec<Available>, cards: &Vec<String>) -> (source: Self)
        ensures
            source@ == SourceView::of(
                sensor@,
                sensor::available_views(list@),
                text::views(cards@),
            ),
    {
        match sensor.kind {
            Kind::Hwmon => Source::Hwmon { paths: sensor::resolve_all(sensor, list) },
            Kind::Nvidia => {
                let card = if !sensor.device.as_str().is_empty() {
                    sensor.device.clone()
                } else if cards.len() > 0 {
                    cards[0].clone()
                } else {
                    String::new()
                };
                let present = lists(cards, card.as_str());
                Source::Nvidia { card, part: Part::named(sensor.label.as_str()), present }
            },
        }
    }

    pub fn missing(&self) -> (r: bool)
        ensures
            r == self@.missing(),
    {
        match self {
            Self::Hwmon { paths } => paths.len() == 0,
            Self::Nvidia { card, present, .. } => card.as_str().is_empty() || !*present,
        }
    }

    /// Is the thing this watches asleep, going by a card's power state?
    pub fn sleeping(&self, status: Option<&str>) -> (r: bool)
        ensures
            r == self@.sleeping(text::str_view(status)),
    {
        match self {
            Self::Hwmon { .. } => false,
            Self::Nvidia { .. } => !nvidia::worth_asking(status),
        }
    }
}

/// The readings there are.
pub open spec fn given(readings: Seq<Option<u8>>) -> Seq<u8>
    decreases readings.len(),
{
    if readings.len() == 0 {
        Seq::empty()
    } else {
        match readings.last() {
            Some(reading) => given(readings.drop_last()).push(reading),
            None => given(readings.drop_last()),
        }
    }
}

/// The reading to follow out of those of every input a curve matches: the
/// hottest, or nothing when there is none to be had.
pub fn follow(readings: &Vec<Option<u8>>) -> (r: Option<u8>)
    ensures
        r == config::Aggregate::Max.of(given(readings@)),
{
    let mut found: Vec<u8> = Vec::new();
    let mut i: usize = 0;
    proof {
        assert(readings@.take(0) =~= Seq::<Option<u8>>::empty());
    }
    while i < readings.len()
        invariant
            i <= readings@.len(),
            found@ == given(readings@.take(i as int)),
        decreases readings@.len() - i,
    {
        proof {
            let next = readings@.take(i + 1);
            assert(next.drop_last() =~= readings@.take(i as int));
            assert(next.last() == readings@[i as int]);
        }
        if let Some(reading) = readings[i] {
            found.push(reading);
        }
        i += 1;
    }
    proof {
        assert(readings@.take(i as int) =~= readings@);
    }
    config::Aggregate::Max.apply(found.as_slice())
}

/// What came of reading one curve's sensor.
#[derive(Debug, Clone, Copy, PartialEq, Eq, Structural)]
pub struct Reading {
    /// Straight off the sensor, or nothing.
    pub raw: Option<u8>,
    /// What smoothing made of it, going by earlier readings. Nothing on a
    /// curve's first reading, when there are none to go by.
    pub updated: Option<u8>,
    /// Is the thing behind the sensor asleep?
    pub sleeping: bool,
    /// Is there no such sensor?
    pub missing: bool,
}

/// What a curve sees of a reading, once smoothing had its say. It starts from
/// the first reading rather than crawling up from zero, which would ignore a
/// machine that is already warm.
pub open spec fn eased(updated: Option<u8>, raw: u8) -> u8 {
    match updated {
        Some(smoothed) => smoothed,
        None => raw,
    }
}

pub fn smoothed(updated: Option<u8>, raw: u8) -> (r: u8)
    ensures
        r == eased(updated, raw),
{
    match updated {
        Some(smoothed) => smoothed,
        None => raw,
    }
}

/// What a curve asks for on a reading. One at or above the panic threshold
/// skips smoothing.
pub open spec fn demand(runner: RunnerView, reading: Reading) -> Option<curve::DemandView> {
    match reading.raw {
        Some(raw) => match curve::target(
            runner.points,
            if raw >= runner.panic_c {
                raw
            } else {
                eased(reading.updated, raw)
            },
        ) {
            Some(rpm) => Some(
                curve::DemandView {
                    name: runner.name,
                    temp_c: raw,
                    smoothed_c: eased(reading.updated, raw),
                    rpm,
                    panic: raw >= runner.panic_c,
                },
            ),
            None => None,
        },
        None => None,
    }
}

/// Three different silences, and a client cannot act on them the same way:
/// asleep is fine and expected, unreadable is a sensor that is there and will
/// not answer, missing is neither.
pub open spec fn dozes(reading: Reading) -> bool {
    reading.raw is None && reading.sleeping
}

pub open spec fn fails(reading: Reading) -> bool {
    reading.raw is None && !reading.sleeping && !reading.missing
}

/// What all the curves ask for.
pub open spec fn demands(runners: Seq<RunnerView>, readings: Seq<Reading>) -> Seq<curve::DemandView>
    decreases runners.len(),
{
    if runners.len() == 0 {
        Seq::empty()
    } else {
        let rest = demands(runners.drop_last(), readings.drop_last());
        match demand(runners.last(), readings.last()) {
            Some(demand) => rest.push(demand),
            None => rest,
        }
    }
}

/// The curves that watch something asleep.
pub open spec fn asleep(runners: Seq<RunnerView>, readings: Seq<Reading>) -> Seq<Seq<char>>
    decreases runners.len(),
{
    if runners.len() == 0 {
        Seq::empty()
    } else {
        let rest = asleep(runners.drop_last(), readings.drop_last());
        if dozes(readings.last()) {
            rest.push(runners.last().name)
        } else {
            rest
        }
    }
}

/// The curves whose sensor is there and gives nothing.
pub open spec fn unreadable(runners: Seq<RunnerView>, readings: Seq<Reading>) -> Seq<Seq<char>>
    decreases runners.len(),
{
    if runners.len() == 0 {
        Seq::empty()
    } else {
        let rest = unreadable(runners.drop_last(), readings.drop_last());
        if fails(readings.last()) {
            rest.push(runners.last().name)
        } else {
            rest
        }
    }
}

/// Evaluate every curve. Curves whose sensor is missing are skipped, not
/// fatal - the rest keep the cooler running.
pub fn evaluate(runners: &Vec<Runner>, readings: &Vec<Reading>) -> (outcome: Evaluation)
    requires
        runners@.len() == readings@.len(),
    ensures
        curve::demand_views(outcome.demands@) == demands(runner_views(runners@), readings@),
        text::views(outcome.asleep@) == asleep(runner_views(runners@), readings@),
        text::views(outcome.unreadable@) == unreadable(runner_views(runners@), readings@),
{
    let mut wants: Vec<Demand> = Vec::new();
    let mut dozing: Vec<String> = Vec::new();
    let mut failing: Vec<String> = Vec::new();
    let ghost all = runner_views(runners@);
    let mut i: usize = 0;
    proof {
        assert(all.take(0) =~= Seq::<RunnerView>::empty());
        assert(readings@.take(0) =~= Seq::<Reading>::empty());
        assert(curve::demand_views(wants@) =~= Seq::<curve::DemandView>::empty());
        assert(text::views(dozing@) =~= Seq::<Seq<char>>::empty());
        assert(text::views(failing@) =~= Seq::<Seq<char>>::empty());
    }
    while i < runners.len()
        invariant
            i <= runners@.len(),
            runners@.len() == readings@.len(),
            all == runner_views(runners@),
            curve::demand_views(wants@) == demands(all.take(i as int), readings@.take(i as int)),
            text::views(dozing@) == asleep(all.take(i as int), readings@.take(i as int)),
            text::views(failing@) == unreadable(all.take(i as int), readings@.take(i as int)),
        decreases runners@.len() - i,
    {
        let runner = &runners[i];
        let reading = readings[i];
        proof {
            let a = all.take(i + 1);
            let b = readings@.take(i + 1);
            assert(a.drop_last() =~= all.take(i as int));
            assert(b.drop_last() =~= readings@.take(i as int));
            assert(a.last() == runner@);
            assert(b.last() == reading);
        }
        let ghost before = (
            curve::demand_views(wants@),
            text::views(dozing@),
            text::views(failing@),
        );
        match reading.raw {
            Some(raw) => {
                let panicking = raw >= runner.panic_c;
                let smoothed_c = smoothed(reading.updated, raw);
                let effective: u8 = if panicking {
                    raw
                } else {
                    smoothed_c
                };
                if let Some(rpm) = curve::target_for(runner.points.as_slice(), effective) {
                    let one = Demand {
                        name: runner.name.clone(),
                        temp_c: raw,
                        smoothed_c,
                        rpm,
                        panic: panicking,
                    };
                    let ghost view = one@;
                    wants.push(one);
                    proof {
                        assert(curve::demand_views(wants@) =~= before.0.push(view));
                    }
                }
            },
            None => {
                if reading.sleeping {
                    dozing.push(runner.name.clone());
                    proof {
                        assert(text::views(dozing@) =~= before.1.push(runner.name@));
                    }
                } else if !reading.missing {
                    failing.push(runner.name.clone());
                    proof {
                        assert(text::views(failing@) =~= before.2.push(runner.name@));
                    }
                }
            },
        }
        i += 1;
    }
    proof {
        assert(all.take(i as int) =~= all);
        assert(readings@.take(i as int) =~= readings@);
    }
    Evaluation { demands: wants, asleep: dozing, unreadable: failing }
}

/// A reading at or above the panic threshold reaches the curve unsmoothed.
pub proof fn law_panic_skips_smoothing(runner: RunnerView, reading: Reading, raw: u8)
    requires
        reading.raw == Some(raw),
        raw >= runner.panic_c,
        runner.points.len() > 0,
    ensures
        demand(runner, reading) matches Some(d) && d.panic && Some(d.rpm) == curve::target(
            runner.points,
            raw,
        ),
{
}

/// A curve's first reading is taken as it is, hot or not.
pub proof fn law_a_first_reading_is_not_smoothed(runner: RunnerView, reading: Reading, raw: u8)
    requires
        reading.raw == Some(raw),
        reading.updated is None,
        runner.points.len() > 0,
    ensures
        demand(runner, reading) matches Some(d) && d.temp_c == raw && d.smoothed_c == raw && Some(
            d.rpm,
        ) == curve::target(runner.points, raw),
{
}

/// A curve that reads something is neither asleep nor unreadable, and one that
/// reads nothing asks for nothing.
pub proof fn law_silences_exclude_each_other(runner: RunnerView, reading: Reading)
    ensures
        !(dozes(reading) && fails(reading)),
        demand(runner, reading) is Some ==> !dozes(reading) && !fails(reading),
{
}

/// The names of a list, with a comma between them.
pub open spec fn listed(names: Seq<Seq<char>>) -> Seq<char>
    decreases names.len(),
{
    if names.len() == 0 {
        Seq::empty()
    } else if names.len() == 1 {
        names[0]
    } else {
        listed(names.drop_last()) + ", "@ + names.last()
    }
}

fn list_up(names: &Vec<String>) -> (r: String)
    ensures
        r@ == listed(text::views(names@)),
{
    let ghost all = text::views(names@);
    let mut r = String::new();
    let mut i: usize = 0;
    proof {
        assert(all.take(0) =~= Seq::<Seq<char>>::empty());
        assert(r@ =~= listed(all.take(0)));
    }
    while i < names.len()
        invariant
            i <= names@.len(),
            all == text::views(names@),
            r@ == listed(all.take(i as int)),
        decreases names@.len() - i,
    {
        let ghost before = r@;
        proof {
            let next = all.take(i + 1);
            assert(next.drop_last() =~= all.take(i as int));
            assert(next.last() == names@[i as int]@);
        }
        if i > 0 {
            r.append(", ");
        }
        r.append(names[i].as_str());
        proof {
            assert(r@ =~= listed(all.take(i + 1)));
        }
        i += 1;
    }
    proof {
        assert(all.take(i as int) =~= all);
    }
    r
}

/// How an input is offered to somebody whose curve found none: its chip, and
/// its label where it has one.
pub open spec fn offered(entry: sensor::AvailableView) -> Seq<char> {
    if entry.label.len() == 0 {
        entry.hwmon
    } else {
        entry.hwmon + "/"@ + entry.label
    }
}

/// What to say about curves without a sensor; nothing when every curve has one,
/// or when it was said before.
pub fn complaint(missing: &Vec<String>, complained: bool, available: &Vec<Available>) -> (r: Option<
    String,
>)
    ensures
        text::opt_view(r) == (if missing@.len() == 0 || complained {
            None
        } else {
            Some(
                "no sensor for curve(s): "@ + listed(text::views(missing@))
                    + ", retrying. available: "@ + listed(
                    Seq::new(
                        available@.len(),
                        |i: int| offered(sensor::available_views(available@)[i]),
                    ),
                ),
            )
        }),
{
    if missing.len() == 0 || complained {
        return None;
    }
    let ghost all = sensor::available_views(available@);
    let mut names: Vec<String> = Vec::new();
    let mut i: usize = 0;
    while i < available.len()
        invariant
            i <= available@.len(),
            all == sensor::available_views(available@),
            names@.len() == i,
            forall|k: int| 0 <= k < i ==> (#[trigger] names@[k])@ == offered(all[k]),
        decreases available@.len() - i,
    {
        let entry = &available[i];
        let mut name = entry.hwmon.clone();
        if !entry.label.as_str().is_empty() {
            name.append("/");
            name.append(entry.label.as_str());
        }
        proof {
            assert(all[i as int] == entry@);
        }
        names.push(name);
        i += 1;
    }
    proof {
        assert(text::views(names@) =~= Seq::new(available@.len(), |i: int| offered(all[i])));
    }
    let mut r = text::joined("no sensor for curve(s): ", list_up(missing).as_str());
    r.append(", retrying. available: ");
    r.append(list_up(&names).as_str());
    Some(r)
}

// ---------------------------------------------------------------------------
// What running the curves promises

/// A curve runs on its own points and sensor, and on its own panic threshold
/// where it has one; the one for all is for the others.
pub proof fn law_curves_run_as_configured(config: config::ConfigView, i: int)
    requires
        0 <= i < config.curves.len(),
    ensures
        runner(config, i).points == config.curves[i].points,
        runner(config, i).sensor == config.curves[i].sensor,
        config.curves[i].name.len() > 0 ==> runner(config, i).name == config.curves[i].name,
        config.curves[i].panic_c matches Some(panic_c) ==> runner(config, i).panic_c == panic_c,
        config.curves[i].panic_c is None ==> runner(config, i).panic_c == config.smoothing.panic_c,
{
}

/// A curve with several inputs follows the hottest that gave a reading, and goes
/// without exactly when none of them did.
pub proof fn law_the_hottest_input_is_followed(readings: Seq<Option<u8>>, i: int)
    ensures
        ({
            let followed = config::Aggregate::Max.of(given(readings));
            &&& followed matches Some(r) ==> readings.contains(Some(r))
            &&& 0 <= i < readings.len() && readings[i] is Some ==> (followed matches Some(r)
                && readings[i]->0 <= r)
            &&& followed is None <==> (forall|k: int|
                0 <= k < readings.len() ==> (#[trigger] readings[k]) is None)
        }),
{
    lemma_given(readings);
    let found = given(readings);
    config::lemma_hottest(found);
    if found.len() > 0 {
        let r = config::hottest(found);
        let k = choose|k: int| 0 <= k < found.len() && found[k] == r;
        assert(readings.contains(Some(found[k])));
        let j = choose|j: int| 0 <= j < readings.len() && readings[j] == Some(r);
        assert(readings[j] is Some);
    }
    if 0 <= i < readings.len() && readings[i] is Some {
        assert(found.contains(readings[i]->0));
    }
    if found.len() == 0 {
        assert forall|k: int| 0 <= k < readings.len() implies (#[trigger] readings[k]) is None by {
            if readings[k] is Some {
                assert(found.contains(readings[k]->0));
            }
        }
    }
}

proof fn lemma_given(readings: Seq<Option<u8>>)
    ensures
        forall|k: int| 0 <= k < given(readings).len() ==> readings.contains(
            Some(#[trigger] given(readings)[k]),
        ),
        forall|i: int|
            0 <= i < readings.len() && (#[trigger] readings[i]) is Some ==> given(
                readings,
            ).contains(readings[i]->0),
    decreases readings.len(),
{
    if readings.len() > 0 {
        let rest = readings.drop_last();
        lemma_given(rest);
        let found = given(readings);
        let inner = given(rest);
        assert forall|k: int| 0 <= k < found.len() implies readings.contains(
            Some(#[trigger] found[k]),
        ) by {
            if k < inner.len() {
                assert(found[k] == inner[k]);
                let j = choose|j: int| 0 <= j < rest.len() && rest[j] == Some(inner[k]);
                assert(readings[j] == Some(found[k]));
            } else {
                assert(readings[readings.len() - 1] == Some(found[k]));
            }
        }
        assert forall|i: int| 0 <= i < readings.len() && (#[trigger] readings[i]) is Some implies
            found.contains(readings[i]->0) by {
            if i < rest.len() {
                assert(rest[i] == readings[i]);
                let j = choose|j: int| 0 <= j < inner.len() && inner[j] == readings[i]->0;
                assert(found[j] == inner[j]);
            } else {
                assert(found[found.len() - 1] == readings[i]->0);
            }
        }
    }
}

/// Below the panic threshold a curve goes by the smoothed temperature, at and
/// above it by the raw one, and says which; it shows both, under its name.
pub proof fn law_a_demand_says_what_it_goes_by(
    runner: RunnerView,
    reading: Reading,
    raw: u8,
    smooth: u8,
)
    requires
        reading.raw == Some(raw),
        reading.updated == Some(smooth),
        runner.points.len() > 0,
    ensures
        demand(runner, reading) matches Some(d) && {
            &&& d.name == runner.name
            &&& d.temp_c == raw
            &&& d.smoothed_c == smooth
            &&& d.panic <==> raw >= runner.panic_c
            &&& raw >= runner.panic_c ==> Some(d.rpm) == curve::target(runner.points, raw)
            &&& raw < runner.panic_c ==> Some(d.rpm) == curve::target(runner.points, smooth)
        },
{
}

/// A curve asks for something exactly when its sensor gave a reading and it has
/// points to go by.
pub proof fn law_a_curve_asks_when_it_can(runner: RunnerView, reading: Reading)
    ensures
        demand(runner, reading) is Some <==> reading.raw is Some && runner.points.len() > 0,
        reading.raw is None && reading.sleeping ==> dozes(reading) && !fails(reading),
        reading.raw is None && !reading.sleeping && !reading.missing ==> fails(reading),
        reading.raw is None && !reading.sleeping && reading.missing ==> !fails(reading) && !dozes(
            reading,
        ),
        reading.raw is Some ==> !dozes(reading) && !fails(reading),
{
}

/// Every curve that asks for something is heard, and nothing else is: what one
/// curve asks for does not depend on another.
pub proof fn law_every_demand_is_heard(
    runners: Seq<RunnerView>,
    readings: Seq<Reading>,
    i: int,
    k: int,
)
    requires
        runners.len() == readings.len(),
    ensures
        0 <= i < runners.len() ==> (demand(runners[i], readings[i]) matches Some(d) ==> demands(
            runners,
            readings,
        ).contains(d)),
        0 <= k < demands(runners, readings).len() ==> exists|j: int|
            0 <= j < runners.len() && #[trigger] demand(runners[j], readings[j]) == Some(
                demands(runners, readings)[k],
            ),
        demands(runners, readings).len() <= runners.len(),
    decreases runners.len(),
{
    if runners.len() > 0 {
        let r = runners.drop_last();
        let s = readings.drop_last();
        let inner = demands(r, s);
        let all = demands(runners, readings);
        let n = runners.len() - 1;
        law_every_demand_is_heard(r, s, i, k);
        if 0 <= i < runners.len() {
            if let Some(d) = demand(runners[i], readings[i]) {
                if i < n {
                    assert(r[i] == runners[i] && s[i] == readings[i]);
                    let j = choose|j: int| 0 <= j < inner.len() && inner[j] == d;
                    assert(all[j] == d);
                } else {
                    assert(all[all.len() - 1] == d);
                }
            }
        }
        if 0 <= k < all.len() {
            if k < inner.len() {
                assert(all[k] == inner[k]);
                let j = choose|j: int|
                    0 <= j < r.len() && #[trigger] demand(r[j], s[j]) == Some(inner[k]);
                assert(demand(runners[j], readings[j]) == Some(all[k]));
            } else {
                assert(demand(runners[n], readings[n]) == Some(all[k]));
            }
        }
    }
}

/// One more curve behind the others changes nothing of what those came to, and
/// adds its own part last.
pub proof fn law_curves_are_heard_in_order(
    runners: Seq<RunnerView>,
    readings: Seq<Reading>,
    runner: RunnerView,
    reading: Reading,
)
    requires
        runners.len() == readings.len(),
    ensures
        demands(runners.push(runner), readings.push(reading)) == (match demand(runner, reading) {
            Some(d) => demands(runners, readings).push(d),
            None => demands(runners, readings),
        }),
        asleep(runners.push(runner), readings.push(reading)) == (if reading.raw is None
            && reading.sleeping {
            asleep(runners, readings).push(runner.name)
        } else {
            asleep(runners, readings)
        }),
        unreadable(runners.push(runner), readings.push(reading)) == (if reading.raw is None
            && !reading.sleeping && !reading.missing {
            unreadable(runners, readings).push(runner.name)
        } else {
            unreadable(runners, readings)
        }),
        demands(Seq::empty(), Seq::empty()).len() == 0,
        asleep(Seq::empty(), Seq::empty()).len() == 0,
        unreadable(Seq::empty(), Seq::empty()).len() == 0,
{
    assert(runners.push(runner).drop_last() =~= runners);
    assert(readings.push(reading).drop_last() =~= readings);
}

/// A curve on a card follows the card it names, or else the first there is, and
/// is without one when the machine has no such card. Only a card sleeps.
pub proof fn law_cards_are_found_by_their_address(
    sensor: config::SensorView,
    list: Seq<sensor::AvailableView>,
    cards: Seq<Seq<char>>,
    status: Option<Seq<char>>,
)
    ensures
        ({
            let source = SourceView::of(sensor, list, cards);
            &&& sensor.kind == Kind::Hwmon ==> source == (SourceView::Hwmon {
                paths: sensor::matched(list, sensor),
            }) && !source.sleeping(status) && (source.missing() <==> sensor::matched(
                list,
                sensor,
            ).len() == 0)
            &&& sensor.kind == Kind::Nvidia ==> (source matches SourceView::Nvidia {
                card,
                part,
                present,
            } && (sensor.device.len() > 0 ==> card == sensor.device) && (sensor.device.len() == 0
                && cards.len() > 0 ==> card == cards[0] && present) && part == Part::of(
                sensor.label,
            ) && (present <==> cards.contains(card)))
            &&& sensor.kind == Kind::Nvidia && cards.len() == 0 ==> source.missing()
            &&& sensor.kind == Kind::Nvidia && sensor.device.len() > 0 ==> (source.missing()
                <==> !cards.contains(sensor.device))
        }),
{
    if cards.len() > 0 {
        assert(cards.contains(cards[0]));
    }
}

/// The names of a list stand one behind the other with a comma in between.
pub proof fn law_lists_are_separated_by_commas(names: Seq<Seq<char>>, name: Seq<char>)
    ensures
        listed(Seq::empty()).len() == 0,
        listed(seq![name]) == name,
        names.len() > 0 ==> listed(names.push(name)) == listed(names) + ", "@ + name,
{
    assert(names.push(name).drop_last() =~= names);
}

} // verus!
