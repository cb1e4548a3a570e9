//! Fan curves: what speed a temperature asks for, and which curve wins.

use crate::config;
use crate::config::{Curve, Kind, Point};
use crate::sensor;
use crate::text;
use vstd::prelude::*;

verus! {

/// The first point from `from` on that is at least this warm, or the end.
pub open spec fn reached(points: Seq<Point>, temp_c: u8, from: int) -> int
    decreases points.len() - from,
{
    if from < 0 || from >= points.len() || points[from].temp_c >= temp_c {
        from
    } else {
        reached(points, temp_c, from + 1)
    }
}

/// The speed on the straight line between two points, rounded towards the
/// cooler one's.
pub open spec fn between(a: Point, b: Point, temp_c: u8) -> u16 {
    let span = b.temp_c - a.temp_c;
    let into = temp_c - a.temp_c;
    if b.rpm >= a.rpm {
        (a.rpm + (b.rpm - a.rpm) * into / span) as u16
    } else {
        (a.rpm - (a.rpm - b.rpm) * into / span) as u16
    }
}

/// What a curve asks for at a temperature: the first speed up to the first
/// point, the last speed from the last one on, and interpolated in between.
pub open spec fn target(points: Seq<Point>, temp_c: u8) -> Option<u16> {
    if points.len() == 0 {
        None
    } else if temp_c <= points.first().temp_c {
        Some(points.first().rpm)
    } else if temp_c >= points.last().temp_c {
        Some(points.last().rpm)
    } else {
        let upper = reached(points, temp_c, 0);
        Some(between(points[upper - 1], points[upper], temp_c))
    }
}

/// The point found is the first that is warm enough.
proof fn lemma_reached(points: Seq<Point>, temp_c: u8, from: int)
    requires
        0 <= from <= points.len(),
    ensures
        from <= reached(points, temp_c, from) <= points.len(),
        forall|k: int| from <= k < reached(points, temp_c, from) ==> points[k].temp_c < temp_c,
        reached(points, temp_c, from) < points.len() ==> temp_c <= points[reached(
            points,
            temp_c,
            from,
        )].temp_c,
    decreases points.len() - from,
{
    if from < points.len() && points[from].temp_c < temp_c {
        lemma_reached(points, temp_c, from + 1);
    }
}

/// A share of a height is no more than the height.
proof fn lemma_share(height: int, into: int, span: int)
    requires
        0 <= height,
        0 <= into <= span,
        0 < span,
    ensures
        0 <= height * into / span <= height,
        into == span ==> height * into / span == height,
{
    assert(0 <= height * into <= height * span) by (nonlinear_arith)
        requires
            0 <= height,
            0 <= into <= span,
    ;
    assert(0 <= height * into / span <= height) by (nonlinear_arith)
        requires
            0 <= height * into <= height * span,
            0 < span,
    ;
    if into == span {
        assert(height * into / span == height) by (nonlinear_arith)
            requires
                into == span,
                0 < span,
        ;
    }
}

/// Speed a curve asks for at a temperature, interpolated between its points.
pub fn target_for(points: &[Point], temp_c: u8) -> (rpm: Option<u16>)
    ensures
        rpm == target(points@, temp_c),
{
    if points.len() == 0 {
        return None;
    }
    let first = points[0];
    let last = points[points.len() - 1];
    if temp_c <= first.temp_c {
        return Some(first.rpm);
    }
    if temp_c >= last.temp_c {
        return Some(last.rpm);
    }
    let mut upper: usize = 0;
    proof {
        lemma_reached(points@, temp_c, 0);
        assert(reached(points@, temp_c, 0) < points@.len()) by {
            assert(points@[points@.len() - 1] == points@.last());
        }
    }
    while points[upper].temp_c < temp_c
        invariant
            upper < points@.len(),
            reached(points@, temp_c, 0) == reached(points@, temp_c, upper as int),
            reached(points@, temp_c, 0) < points@.len(),
        decreases points@.len() - upper,
    {
        proof {
            lemma_reached(points@, temp_c, upper + 1);
        }
        upper += 1;
    }
    let (a, b) = (points[upper - 1], points[upper]);
    proof {
        assert(points@[upper - 1].temp_c < temp_c);
    }
    let span: u32 = (b.temp_c - a.temp_c) as u32;
    let into: u32 = (temp_c - a.temp_c) as u32;
    let low: u32 = a.rpm as u32;
    let high: u32 = b.rpm as u32;
    let rpm: u32 = if high >= low {
        proof {
            lemma_share((high - low) as int, into as int, span as int);
            assert((high - low) * into <= 65535 * 255) by (nonlinear_arith)
                requires
                    0 <= high - low <= 65535,
                    0 <= into <= 255,
            ;
        }
        low + (high - low) * into / span
    } else {
        proof {
            lemma_share((low - high) as int, into as int, span as int);
            assert((low - high) * into <= 65535 * 255) by (nonlinear_arith)
                requires
                    0 <= low - high <= 65535,
                    0 <= into <= 255,
            ;
        }
        low - (low - high) * into / span
    };
    Some(rpm as u16)
}

/// Between two points the speed stays between theirs.
proof fn lemma_between(a: Point, b: Point, temp_c: u8)
    requires
        a.temp_c < temp_c <= b.temp_c,
    ensures
        a.rpm <= b.rpm ==> a.rpm <= between(a, b, temp_c) <= b.rpm,
        a.rpm >= b.rpm ==> b.rpm <= between(a, b, temp_c) <= a.rpm,
        temp_c == b.temp_c ==> between(a, b, temp_c) == b.rpm,
{
    let span = b.temp_c - a.temp_c;
    let into = temp_c - a.temp_c;
    if b.rpm >= a.rpm {
        lemma_share(b.rpm - a.rpm, into, span);
    } else {
        lemma_share(a.rpm - b.rpm, into, span);
    }
}

/// A curve never asks for a speed outside the ones it was given.
pub proof fn law_targets_stay_on_the_curve(points: Seq<Point>, temp_c: u8, low: u16, high: u16)
    requires
        points.len() > 0,
        forall|i: int| 0 <= i < points.len() ==> low <= (#[trigger] points[i]).rpm <= high,
    ensures
        target(points, temp_c) matches Some(rpm) && low <= rpm <= high,
{
    if points.first().temp_c < temp_c < points.last().temp_c {
        lemma_reached(points, temp_c, 0);
        let upper = reached(points, temp_c, 0);
        assert(points[points.len() - 1] == points.last());
        lemma_between(points[upper - 1], points[upper], temp_c);
    }
}

/// A curve whose points rise in temperature asks, at the temperature of each,
/// for exactly the speed it was given.
pub proof fn law_points_are_met(points: Seq<Point>, i: int)
    requires
        0 <= i < points.len(),
        forall|j: int, k: int| 0 <= j < k < points.len() ==> points[j].temp_c < points[k].temp_c,
    ensures
        target(points, points[i].temp_c) == Some(points[i].rpm),
{
    let temp_c = points[i].temp_c;
    assert(points[0] == points.first() && points[points.len() - 1] == points.last());
    if 0 < i < points.len() - 1 {
        lemma_reached(points, temp_c, 0);
        let upper = reached(points, temp_c, 0);
        assert(upper == i) by {
            if upper < i {
                assert(points[upper].temp_c < points[i].temp_c);
            }
        }
        lemma_between(points[i - 1], points[i], temp_c);
    }
}

/// On one stretch of a curve that rises, warmer never means slower.
proof fn lemma_between_rises(a: Point, b: Point, cooler: u8, warmer: u8)
    requires
        a.temp_c < cooler <= warmer <= b.temp_c,
        a.rpm <= b.rpm,
    ensures
        between(a, b, cooler) <= between(a, b, warmer),
{
    let span = b.temp_c - a.temp_c;
    let height = b.rpm - a.rpm;
    let x = cooler - a.temp_c;
    let y = warmer - a.temp_c;
    lemma_share(height, x, span);
    lemma_share(height, y, span);
    assert(height * x / span <= height * y / span) by (nonlinear_arith)
        requires
            0 <= height,
            0 <= x <= y,
            0 < span,
    ;
}

/// A curve whose points rise in temperature and never fall in speed never slows
/// the fan as the machine gets warmer.
pub proof fn law_rising_curves_never_slow_down(points: Seq<Point>, cooler: u8, warmer: u8)
    requires
        points.len() > 0,
        config::ascending(points),
        forall|i: int, j: int| 0 <= i <= j < points.len() ==> points[i].rpm <= points[j].rpm,
        cooler <= warmer,
    ensures
        target(points, cooler) matches Some(slow) && target(points, warmer) matches Some(fast)
            && slow <= fast,
{
    let n = points.len() as int;
    assert(points[0] == points.first() && points[n - 1] == points.last());
    lemma_reached(points, cooler, 0);
    lemma_reached(points, warmer, 0);
    let u = reached(points, cooler, 0);
    let v = reached(points, warmer, 0);
    if points.first().temp_c < cooler < points.last().temp_c {
        lemma_between(points[u - 1], points[u], cooler);
        assert(points[0].rpm <= points[u - 1].rpm <= points[u].rpm <= points[n - 1].rpm);
        if warmer < points.last().temp_c {
            lemma_between(points[v - 1], points[v], warmer);
            assert(u <= v);
            if u == v {
                lemma_between_rises(points[u - 1], points[u], cooler, warmer);
            } else {
                assert(points[u].rpm <= points[v - 1].rpm <= points[v].rpm);
            }
        }
    } else if points.first().temp_c < warmer < points.last().temp_c {
        lemma_between(points[v - 1], points[v], warmer);
        assert(points[0].rpm <= points[v - 1].rpm <= points[v].rpm);
    } else {
        assert(points[0].rpm <= points[n - 1].rpm);
        if cooler >= points.last().temp_c && cooler > points.first().temp_c {
            assert(warmer >= points.last().temp_c);
        }
    }
}

/// Of two neighbouring points the one at or above a temperature is the first
/// that is.
proof fn lemma_reached_between(points: Seq<Point>, temp_c: u8, i: int)
    requires
        0 <= i < points.len() - 1,
        forall|j: int, k: int| 0 <= j <= k < points.len() ==> points[j].temp_c <= points[k].temp_c,
        points[i].temp_c < temp_c <= points[i + 1].temp_c,
    ensures
        reached(points, temp_c, 0) == i + 1,
{
    lemma_reached(points, temp_c, 0);
    let upper = reached(points, temp_c, 0);
    if upper < i + 1 {
        assert(points[upper].temp_c <= points[i].temp_c);
    }
    if upper > i + 1 {
        assert(points[i + 1].temp_c < temp_c);
    }
}

/// A share of a height, rounded down.
proof fn lemma_share_is_exact(height: int, into: int, span: int)
    requires
        0 < span,
    ensures
        height * into / span * span <= height * into < (height * into / span + 1) * span,
{
    let product = height * into;
    assert(product / span * span <= product < (product / span + 1) * span) by (nonlinear_arith)
        requires
            0 < span,
    ;
}

/// Between two neighbouring points of a curve in order, however many points it
/// has, the speed is on the straight line between theirs to within one rpm, and
/// short of the line by less than that on the cooler point's side.
pub proof fn law_between_points_the_curve_is_straight(points: Seq<Point>, i: int, temp_c: u8)
    requires
        0 <= i < points.len() - 1,
        forall|j: int, k: int| 0 <= j <= k < points.len() ==> points[j].temp_c <= points[k].temp_c,
        points[i].temp_c < temp_c < points[i + 1].temp_c,
    ensures
        target(points, temp_c) matches Some(rpm) && {
            let a = points[i];
            let b = points[i + 1];
            let span = b.temp_c - a.temp_c;
            let run = (rpm - a.rpm) * span;
            let line = (b.rpm - a.rpm) * (temp_c - a.temp_c);
            &&& -span < run - line < span
            &&& a.rpm <= b.rpm ==> a.rpm <= rpm <= b.rpm && run <= line
            &&& a.rpm >= b.rpm ==> b.rpm <= rpm <= a.rpm && run >= line
        },
{
    let n = points.len() as int;
    let a = points[i];
    let b = points[i + 1];
    let span = b.temp_c - a.temp_c;
    let into = temp_c - a.temp_c;
    assert(points[0] == points.first() && points[n - 1] == points.last());
    assert(points[0].temp_c <= a.temp_c && b.temp_c <= points[n - 1].temp_c);
    lemma_reached_between(points, temp_c, i);
    lemma_between(a, b, temp_c);
    let rpm = between(a, b, temp_c);
    assert(target(points, temp_c) == Some(rpm));
    if b.rpm >= a.rpm {
        let height = b.rpm - a.rpm;
        lemma_share(height, into, span);
        lemma_share_is_exact(height, into, span);
        let share = height * into / span;
        assert(rpm - a.rpm == share);
        assert((share + 1) * span == share * span + span) by (nonlinear_arith);
        if height == 0 {
            assert(share * span == 0 && height * into == 0) by (nonlinear_arith)
                requires
                    height == 0,
                    share == 0,
            ;
        }
    } else {
        let height = a.rpm - b.rpm;
        lemma_share(height, into, span);
        lemma_share_is_exact(height, into, span);
        let share = height * into / span;
        assert(rpm - a.rpm == -share);
        assert((-share) * span == -(share * span)) by (nonlinear_arith);
        assert((b.rpm - a.rpm) * into == -(height * into)) by (nonlinear_arith)
            requires
                height == a.rpm - b.rpm,
        ;
        assert((share + 1) * span == share * span + span) by (nonlinear_arith);
    }
}

/// Where several points of a curve in order are at one temperature, the first of
/// them is met there, unless the curve ends with them.
pub proof fn law_the_first_of_equals_is_met(points: Seq<Point>, i: int)
    requires
        0 <= i < points.len(),
        forall|j: int, k: int| 0 <= j <= k < points.len() ==> points[j].temp_c <= points[k].temp_c,
        i > 0 ==> points[i - 1].temp_c < points[i].temp_c,
        points[i].temp_c < points[points.len() - 1].temp_c,
    ensures
        target(points, points[i].temp_c) == Some(points[i].rpm),
{
    let temp_c = points[i].temp_c;
    assert(points[0] == points.first() && points[points.len() - 1] == points.last());
    if i > 0 {
        assert(points[0].temp_c <= points[i - 1].temp_c);
        lemma_reached_between(points, temp_c, i - 1);
        lemma_between(points[i - 1], points[i], temp_c);
    }
}

/// At and below its first point a curve asks for that point's speed, at and
/// above its last for that one's, and a curve without points for nothing.
pub proof fn law_the_ends_are_held(points: Seq<Point>, temp_c: u8)
    ensures
        target(points, temp_c) is None <==> points.len() == 0,
        points.len() > 0 && temp_c <= points[0].temp_c ==> target(points, temp_c) == Some(
            points[0].rpm,
        ),
        points.len() > 0 && temp_c > points[0].temp_c && temp_c >= points[points.len()
            - 1].temp_c ==> target(points, temp_c) == Some(points[points.len() - 1].rpm),
{
}

/// What one curve wants right now.
#[derive(Debug)]
pub struct Demand {
    pub name: String,
    /// Reading straight off the sensor.
    pub temp_c: u8,
    /// What the curve actually sees after smoothing.
    pub smoothed_c: u8,
    pub rpm: u16,
    /// True when the raw reading crossed the panic threshold and smoothing was
    /// bypassed.
    pub panic: bool,
}

#[verifier::ext_equal]
pub struct DemandView {
    pub name: Seq<char>,
    pub temp_c: u8,
    pub smoothed_c: u8,
    pub rpm: u16,
    pub panic: bool,
}

impl View for Demand {
    type V = DemandView;

    open spec fn view(&self) -> DemandView {
        DemandView {
            name: self.name@,
            temp_c: self.temp_c,
            smoothed_c: self.smoothed_c,
            rpm: self.rpm,
            panic: self.panic,
        }
    }
}

impl Clone for Demand {
    fn clone(&self) -> (r: Self)
        ensures
            r@ == self@,
    {
        Demand {
            name: self.name.clone(),
            temp_c: self.temp_c,
            smoothed_c: self.smoothed_c,
            rpm: self.rpm,
            panic: self.panic,
        }
    }
}

impl PartialEq for Demand {
    fn eq(&self, other: &Self) -> (r: bool) {
        self.name == other.name && self.temp_c == other.temp_c && self.smoothed_c
            == other.smoothed_c && self.rpm == other.rpm && self.panic == other.panic
    }
}

impl vstd::std_specs::cmp::PartialEqSpecImpl for Demand {
    open spec fn obeys_eq_spec() -> bool {
        true
    }

    open spec fn eq_spec(&self, other: &Self) -> bool {
        self@ == other@
    }
}

/// The demands of a list, each by what it says.
pub open spec fn demand_views(demands: Seq<Demand>) -> Seq<DemandView> {
    Seq::new(demands.len(), |i: int| demands[i]@)
}

/// A copy of a list of demands.
pub fn clone_demands(demands: &Vec<Demand>) -> (r: Vec<Demand>)
    ensures
        demand_views(r@) == demand_views(demands@),
{
    let mut r: Vec<Demand> = Vec::new();
    let mut i: usize = 0;
    while i < demands.len()
        invariant
            i <= demands@.len(),
            r@.len() == i,
            forall|k: int| 0 <= k < i ==> r@[k]@ == demands@[k]@,
        decreases demands@.len() - i,
    {
        r.push(demands[i].clone());
        i += 1;
    }
    proof {
        assert(demand_views(r@) =~= demand_views(demands@));
    }
    r
}

/// Which demand wins: the last of those that ask for the most.
pub open spec fn lead(demands: Seq<DemandView>) -> Option<int>
    decreases demands.len(),
{
    if demands.len() == 0 {
        None
    } else {
        match lead(demands.drop_last()) {
            Some(i) if demands.last().rpm < demands[i].rpm => Some(i),
            _ => Some(demands.len() - 1),
        }
    }
}

/// No demand asks for more than the winner, and any that asks for as much came
/// before it.
pub proof fn law_the_hungriest_demand_wins(demands: Seq<DemandView>)
    ensures
        lead(demands) is None <==> demands.len() == 0,
        lead(demands) matches Some(i) ==> 0 <= i < demands.len() && (forall|k: int|
            0 <= k < demands.len() ==> (#[trigger] demands[k]).rpm <= demands[i].rpm) && (forall|
            k: int,
        |
            i < k < demands.len() ==> (#[trigger] demands[k]).rpm < demands[i].rpm),
    decreases demands.len(),
{
    if demands.len() > 0 {
        let rest = demands.drop_last();
        law_the_hungriest_demand_wins(rest);
        let i = lead(demands)->0;
        assert forall|k: int| 0 <= k < demands.len() implies (#[trigger] demands[k]).rpm
            <= demands[i].rpm by {
            if k < rest.len() {
                assert(rest[k] == demands[k]);
                assert(rest[lead(rest)->0] == demands[lead(rest)->0]);
            }
        }
        assert forall|k: int| i < k < demands.len() implies (#[trigger] demands[k]).rpm
            < demands[i].rpm by {
            if k < rest.len() {
                assert(rest[k] == demands[k]);
                assert(rest[i] == demands[i]);
            }
        }
    }
}

/// Combine per-curve demands: the most demanding one wins.
///
/// Temperatures from different subsystems cannot be averaged - 60 °C is idle
/// for a CPU and hot for RAM - so each curve converts its own reading into a
/// speed first, and only speeds are compared.
pub fn winner(demands: &[Demand]) -> (r: Option<&Demand>)
    ensures
        match r {
            Some(demand) => lead(demand_views(demands@)) matches Some(i) && *demand == demands@[i],
            None => demands@.len() == 0,
        },
{
    if demands.len() == 0 {
        return None;
    }
    let mut best: usize = 0;
    let mut i: usize = 1;
    let ghost all = demand_views(demands@);
    proof {
        assert(all.take(1).drop_last() =~= Seq::<DemandView>::empty());
        assert(lead(all.take(1).drop_last()) is None);
        assert(lead(all.take(1)) == Some(0int));
    }
    while i < demands.len()
        invariant
            1 <= i <= demands@.len(),
            best < i,
            all == demand_views(demands@),
            lead(all.take(i as int)) == Some(best as int),
        decreases demands@.len() - i,
    {
        proof {
            let next = all.take(i + 1);
            assert(next.drop_last() =~= all.take(i as int));
            assert(next.last() == demands@[i as int]@);
            assert(next[best as int] == demands@[best as int]@);
        }
        if demands[i].rpm >= demands[best].rpm {
            best = i;
        }
        i += 1;
    }
    proof {
        assert(all.take(i as int) =~= all);
    }
    Some(&demands[best])
}

/// What to call the chip a sensor names.
pub open spec fn chip(sensor: config::SensorView) -> Seq<char> {
    if sensor.device.len() == 0 {
        sensor.hwmon
    } else {
        sensor.hwmon + " "@ + sensor::short(sensor.device)
    }
}

/// What to call a curve: its own name, or one made up from its sensor.
pub open spec fn described(curve: config::CurveView, index: nat) -> Seq<char> {
    if curve.name.len() != 0 {
        curve.name
    } else if curve.sensor.kind == Kind::Nvidia {
        if curve.sensor.device.len() == 0 {
            "nvidia#"@ + text::dec(index)
        } else {
            "nvidia "@ + curve.sensor.device
        }
    } else if curve.sensor.label.len() == 0 {
        chip(curve.sensor) + "#"@ + text::dec(index)
    } else {
        chip(curve.sensor) + "/"@ + curve.sensor.label
    }
}

/// Name a curve for logs and status when the config left it blank.
pub fn describe(curve: &Curve, index: usize) -> (name: String)
    ensures
        name@ == described(curve@, index as nat),
{
    if !curve.name.as_str().is_empty() {
        return curve.name.clone();
    }
    if curve.sensor.kind == Kind::Nvidia {
        return if curve.sensor.device.as_str().is_empty() {
            let mut name = "nvidia#".to_owned();
            text::push_dec(&mut name, index as u64);
            name
        } else {
            text::joined("nvidia ", curve.sensor.device.as_str())
        };
    }
    let mut name = curve.sensor.hwmon.clone();
    if !curve.sensor.device.as_str().is_empty() {
        name.append(" ");
        name.append(sensor::short_address(curve.sensor.device.as_str()));
    }
    if curve.sensor.label.as_str().is_empty() {
        name.append("#");
        text::push_dec(&mut name, index as u64);
    } else {
        name.append("/");
        name.append(curve.sensor.label.as_str());
    }
    name
}

/// A curve with a name goes by it, whatever it follows.
pub proof fn law_a_named_curve_goes_by_its_name(
    curve: config::CurveView,
    other: config::CurveView,
    index: nat,
    other_index: nat,
)
    requires
        curve.name.len() > 0,
        other.name == curve.name,
    ensures
        described(curve, index) == curve.name,
        described(other, other_index) == described(curve, index),
{
}

/// A curve without one goes by its chip, which starts the name, and by the
/// input it follows or else its place, which ends it.
pub proof fn law_a_nameless_curve_goes_by_its_sensor(curve: config::CurveView, index: nat)
    requires
        curve.name.len() == 0,
    ensures
        ({
            let name = described(curve, index);
            let sensor = curve.sensor;
            let own = if sensor.kind == Kind::Nvidia {
                "nvidia"@
            } else {
                sensor.hwmon
            };
            let end = if sensor.kind == Kind::Nvidia && sensor.device.len() > 0 {
                " "@ + sensor.device
            } else if sensor.kind == Kind::Nvidia || sensor.label.len() == 0 {
                "#"@ + text::dec(index)
            } else {
                "/"@ + sensor.label
            };
            let middle = if sensor.kind != Kind::Nvidia && sensor.device.len() > 0 {
                " "@ + sensor::short(sensor.device)
            } else {
                Seq::<char>::empty()
            };
            name == own + middle + end
        }),
{
    let sensor = curve.sensor;
    reveal_strlit("nvidia");
    reveal_strlit("nvidia#");
    reveal_strlit("nvidia ");
    reveal_strlit(" ");
    reveal_strlit("#");
    let none = Seq::<char>::empty();
    if sensor.kind == Kind::Nvidia {
        assert("nvidia#"@ =~= "nvidia"@ + "#"@);
        assert("nvidia "@ =~= "nvidia"@ + " "@);
        assert("nvidia"@ + "#"@ + text::dec(index) =~= "nvidia"@ + none + ("#"@ + text::dec(
            index,
        )));
        assert("nvidia"@ + " "@ + sensor.device =~= "nvidia"@ + none + (" "@ + sensor.device));
    } else {
        let middle = if sensor.device.len() > 0 {
            " "@ + sensor::short(sensor.device)
        } else {
            none
        };
        assert(chip(sensor) =~= sensor.hwmon + middle);
        assert(chip(sensor) + "#"@ + text::dec(index) =~= sensor.hwmon + middle + ("#"@ + text::dec(
            index,
        )));
        assert(chip(sensor) + "/"@ + sensor.label =~= sensor.hwmon + middle + ("/"@
            + sensor.label));
    }
}

} // verus!
