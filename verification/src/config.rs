//! Daemon configuration.
//!
//! On NixOS the file is a symlink into the store, so it cannot be written and
//! it is replaced wholesale on every switch. Both cases are handled: writes are
//! attempted and reported honestly, and the watcher looks at the directory
//! rather than the file.

use crate::curve;
use crate::lighting::Lighting;
use crate::protocol::Standby;
use crate::text;
use vstd::prelude::*;

verus! {

pub const DEFAULT_PATH: &'static str = "/etc/flydigictl/config.toml";

/// What kind of thing a sensor is.
#[derive(Debug, Clone, Copy, PartialEq, Eq, Structural)]
pub enum Kind {
    /// A chip under `/sys/class/hwmon`.
    Hwmon,
    /// An NVIDIA card, which hwmon does not show.
    Nvidia,
}

impl Default for Kind {
    fn default() -> (kind: Self)
        ensures
            kind == Kind::Hwmon,
    {
        Kind::Hwmon
    }
}

/// Where a curve takes its temperature from. Empty fields match anything.
#[derive(Debug)]
pub struct Sensor {
    pub kind: Kind,
    /// hwmon driver name, e.g. "k10temp" or "coretemp".
    pub hwmon: String,
    /// Stable address of the chip, or of the card. Empty means any.
    pub device: String,
    /// Label of the input to use, e.g. "Tctl". Empty means every input.
    pub label: String,
}

#[verifier::ext_equal]
pub struct SensorView {
    pub kind: Kind,
    pub hwmon: Seq<char>,
    pub device: Seq<char>,
    pub label: Seq<char>,
}

impl View for Sensor {
    type V = SensorView;

    open spec fn view(&self) -> SensorView {
        SensorView {
            kind: self.kind,
            hwmon: self.hwmon@,
            device: self.device@,
            label: self.label@,
        }
    }
}

impl Clone for Sensor {
    fn clone(&self) -> (r: Self)
        ensures
            r@ == self@,
    {
        Sensor {
            kind: self.kind,
            hwmon: self.hwmon.clone(),
            device: self.device.clone(),
            label: self.label.clone(),
        }
    }
}

impl PartialEq for Sensor {
    fn eq(&self, other: &Self) -> (r: bool) {
        self.kind == other.kind && self.hwmon == other.hwmon && self.device == other.device
            && self.label == other.label
    }
}

impl vstd::std_specs::cmp::PartialEqSpecImpl for Sensor {
    open spec fn obeys_eq_spec() -> bool {
        true
    }

    open spec fn eq_spec(&self, other: &Self) -> bool {
        self@ == other@
    }
}

/// The processor of an AMD machine, any input of it.
pub open spec fn default_sensor() -> SensorView {
    SensorView {
        kind: Kind::Hwmon,
        hwmon: "k10temp"@,
        device: Seq::empty(),
        label: Seq::empty(),
    }
}

impl Default for Sensor {
    fn default() -> (sensor: Self)
        ensures
            sensor@ == default_sensor(),
    {
        Sensor {
            kind: Kind::Hwmon,
            hwmon: "k10temp".to_owned(),
            device: String::new(),
            label: String::new(),
        }
    }
}

/// The sensors of a list, each by what it says.
pub open spec fn sensor_views(sensors: Seq<Sensor>) -> Seq<SensorView> {
    Seq::new(sensors.len(), |i: int| sensors[i]@)
}

#[derive(Debug, Clone, Copy, PartialEq, Eq, Structural)]
pub struct Point {
    pub temp_c: u8,
    pub rpm: u16,
}

#[derive(Debug, Clone, Copy, PartialEq, Eq, Structural)]
pub enum Aggregate {
    /// Follow the hottest sensor. Safe default: cooling is about the worst
    /// case, not the average one.
    Max,
    /// Average of the sensors that could be read.
    Mean,
}

impl Default for Aggregate {
    fn default() -> (aggregate: Self)
        ensures
            aggregate == Aggregate::Max,
    {
        Aggregate::Max
    }
}

/// The sum of a run of readings.
pub open spec fn sum(readings: Seq<u8>) -> nat
    decreases readings.len(),
{
    if readings.len() == 0 {
        0
    } else {
        sum(readings.drop_last()) + readings.last() as nat
    }
}

/// The hottest of a run of readings; zero of none.
pub open spec fn hottest(readings: Seq<u8>) -> u8
    decreases readings.len(),
{
    if readings.len() == 0 {
        0
    } else if readings.last() >= hottest(readings.drop_last()) {
        readings.last()
    } else {
        hottest(readings.drop_last())
    }
}

/// The sum of a run of readings grows with every one of them.
proof fn lemma_sum_bound(readings: Seq<u8>)
    ensures
        sum(readings) <= 255 * readings.len(),
    decreases readings.len(),
{
    if readings.len() > 0 {
        lemma_sum_bound(readings.drop_last());
    }
}

/// The hottest reading is one of them, and none is hotter.
pub proof fn lemma_hottest(readings: Seq<u8>)
    ensures
        readings.len() > 0 ==> readings.contains(hottest(readings)),
        forall|i: int| 0 <= i < readings.len() ==> readings[i] <= hottest(readings),
    decreases readings.len(),
{
    if readings.len() > 0 {
        let rest = readings.drop_last();
        lemma_hottest(rest);
        assert(readings.last() == readings[readings.len() - 1]);
        if hottest(readings) != readings.last() {
            let k = choose|k: int| 0 <= k < rest.len() && rest[k] == hottest(rest);
            assert(readings[k] == hottest(rest));
        }
        assert forall|i: int| 0 <= i < readings.len() implies readings[i] <= hottest(readings) by {
            if i < rest.len() {
                assert(readings[i] == rest[i]);
            }
        }
    }
}

impl Aggregate {
    /// What several readings come down to, if there are any.
    pub open spec fn of(self, readings: Seq<u8>) -> Option<u8> {
        if readings.len() == 0 {
            None
        } else {
            match self {
                Aggregate::Max => Some(hottest(readings)),
                Aggregate::Mean => Some((sum(readings) / readings.len()) as u8),
            }
        }
    }

    pub fn apply(self, readings: &[u8]) -> (r: Option<u8>)
        ensures
            r == self.of(readings@),
    {
        if readings.len() == 0 {
            return None;
        }
        let mut highest: u8 = 0;
        let mut total: u128 = 0;
        let mut i: usize = 0;
        proof {
            assert(readings@.take(0) =~= Seq::<u8>::empty());
        }
        while i < readings.len()
            invariant
                i <= readings@.len(),
                highest == hottest(readings@.take(i as int)),
                total == sum(readings@.take(i as int)),
                total <= 255 * i,
            decreases readings@.len() - i,
        {
            proof {
                let next = readings@.take(i + 1);
                assert(next.drop_last() =~= readings@.take(i as int));
                assert(next.last() == readings@[i as int]);
            }
            if readings[i] >= highest {
                highest = readings[i];
            }
            total = total + readings[i] as u128;
            i += 1;
        }
        proof {
            assert(readings@.take(i as int) =~= readings@);
        }
        match self {
            Self::Max => Some(highest),
            Self::Mean => {
                let count: u128 = readings.len() as u128;
                proof {
                    lemma_sum_bound(readings@);
                    assert(total / count <= 255) by (nonlinear_arith)
                        requires
                            total <= 255 * count,
                            count > 0,
                    ;
                }
                Some((total / count) as u8)
            },
        }
    }
}

/// What several sensors come down to lies between the coolest and the hottest
/// of them.
pub proof fn law_aggregate_stays_among_the_readings(
    aggregate: Aggregate,
    readings: Seq<u8>,
    low: u8,
)
    requires
        readings.len() > 0,
        forall|i: int| 0 <= i < readings.len() ==> low <= readings[i],
    ensures
        aggregate.of(readings) matches Some(r) && low <= r <= hottest(readings),
{
    lemma_hottest(readings);
    lemma_mean_bounds(readings, low, hottest(readings));
    lemma_sum_bound(readings);
    let n = readings.len();
    let s = sum(readings);
    let h = hottest(readings) as nat;
    assert(low <= s / n <= h) by (nonlinear_arith)
        requires
            n > 0,
            low * n <= s <= h * n,
    ;
}

proof fn lemma_mean_bounds(readings: Seq<u8>, low: u8, high: u8)
    requires
        forall|i: int| 0 <= i < readings.len() ==> low <= #[trigger] readings[i] <= high,
    ensures
        low * readings.len() <= sum(readings) <= high * readings.len(),
    decreases readings.len(),
{
    if readings.len() > 0 {
        let n = readings.len() - 1;
        lemma_mean_bounds(readings.drop_last(), low, high);
        assert(low * (n + 1) == low * n + low) by (nonlinear_arith);
        assert(high * (n + 1) == high * n + high) by (nonlinear_arith);
        assert(low <= readings[n] <= high);
    }
}

/// A number of seconds with a fraction, kept as the bits of a single precision
/// float: it is carried and compared here, and computed with elsewhere.
#[derive(Debug, Clone, Copy)]
pub struct Secs {
    pub bits: u32,
}

impl Secs {
    /// Neither a number nor an infinity.
    pub open spec fn nan(self) -> bool {
        self.bits % 0x8000_0000 > 0x7F80_0000
    }

    /// Equal as floats are: not a number equals nothing, and the two zeros
    /// equal each other.
    pub open spec fn equals(self, other: Secs) -> bool {
        !self.nan() && !other.nan() && (self.bits == other.bits || (self.bits % 0x8000_0000 == 0
            && other.bits % 0x8000_0000 == 0))
    }
}

impl PartialEq for Secs {
    fn eq(&self, other: &Self) -> (r: bool) {
        let a: u32 = self.bits % 0x8000_0000;
        let b: u32 = other.bits % 0x8000_0000;
        a <= 0x7F80_0000 && b <= 0x7F80_0000 && (self.bits == other.bits || (a == 0 && b == 0))
    }
}

impl vstd::std_specs::cmp::PartialEqSpecImpl for Secs {
    open spec fn obeys_eq_spec() -> bool {
        true
    }

    open spec fn eq_spec(&self, other: &Self) -> bool {
        self.equals(*other)
    }
}

/// How readings are smoothed before a curve sees them.
#[derive(Debug, Clone, Copy)]
pub struct Smoothing {
    /// Time constant while it gets warmer.
    pub rise_secs: Secs,
    /// Time constant while it cools down.
    pub fall_secs: Secs,
    /// A raw reading at or above this bypasses smoothing.
    pub panic_c: u8,
}

impl Smoothing {
    pub open spec fn equals(self, other: Smoothing) -> bool {
        self.rise_secs.equals(other.rise_secs) && self.fall_secs.equals(other.fall_secs)
            && self.panic_c == other.panic_c
    }
}

impl PartialEq for Smoothing {
    fn eq(&self, other: &Self) -> (r: bool) {
        self.rise_secs == other.rise_secs && self.fall_secs == other.fall_secs && self.panic_c
            == other.panic_c
    }
}

impl vstd::std_specs::cmp::PartialEqSpecImpl for Smoothing {
    open spec fn obeys_eq_spec() -> bool {
        true
    }

    open spec fn eq_spec(&self, other: &Self) -> bool {
        self.equals(*other)
    }
}

impl Default for Smoothing {
    /// Ten seconds going up, a minute coming down, and panic at 90 degrees.
    fn default() -> (smoothing: Self)
        ensures
            smoothing == (Smoothing {
                rise_secs: Secs { bits: 0x4120_0000 },
                fall_secs: Secs { bits: 0x4270_0000 },
                panic_c: 90,
            }),
    {
        Smoothing {
            rise_secs: Secs { bits: 0x4120_0000 },
            fall_secs: Secs { bits: 0x4270_0000 },
            panic_c: 90,
        }
    }
}

/// A fan curve and the sensor it follows.
#[derive(Debug)]
pub struct Curve {
    /// What to call it; made up from the sensor when empty.
    pub name: String,
    pub sensor: Sensor,
    pub points: Vec<Point>,
    /// Where smoothing stops for this curve alone: 85 C is a working load for a
    /// CPU and long past trouble for an SSD.
    pub panic_c: Option<u8>,
}

#[verifier::ext_equal]
pub struct CurveView {
    pub name: Seq<char>,
    pub sensor: SensorView,
    pub points: Seq<Point>,
    pub panic_c: Option<u8>,
}

impl View for Curve {
    type V = CurveView;

    open spec fn view(&self) -> CurveView {
        CurveView {
            name: self.name@,
            sensor: self.sensor@,
            points: self.points@,
            panic_c: self.panic_c,
        }
    }
}

/// A copy of a run of points.
pub fn clone_points(points: &Vec<Point>) -> (r: Vec<Point>)
    ensures
        r@ == points@,
{
    let mut r: Vec<Point> = Vec::new();
    r.extend_from_slice(points.as_slice());
    proof {
        assert(r@ =~= points@);
    }
    r
}

/// Are two runs of points the same?
pub fn same_points(a: &Vec<Point>, b: &Vec<Point>) -> (r: bool)
    ensures
        r == (a@ == b@),
{
    if a.len() != b.len() {
        return false;
    }
    let mut i: usize = 0;
    while i < a.len()
        invariant
            i <= a@.len(),
            a@.len() == b@.len(),
            forall|k: int| 0 <= k < i ==> a@[k] == b@[k],
        decreases a@.len() - i,
    {
        if a[i] != b[i] {
            return false;
        }
        i += 1;
    }
    proof {
        assert(a@ =~= b@);
    }
    true
}

impl Clone for Curve {
    fn clone(&self) -> (r: Self)
        ensures
            r@ == self@,
    {
        Curve {
            name: self.name.clone(),
            sensor: self.sensor.clone(),
            points: clone_points(&self.points),
            panic_c: self.panic_c,
        }
    }
}

impl PartialEq for Curve {
    fn eq(&self, other: &Self) -> (r: bool) {
        self.name == other.name && self.sensor == other.sensor && same_points(
            &self.points,
            &other.points,
        ) && self.panic_c == other.panic_c
    }
}

impl vstd::std_specs::cmp::PartialEqSpecImpl for Curve {
    open spec fn obeys_eq_spec() -> bool {
        true
    }

    open spec fn eq_spec(&self, other: &Self) -> bool {
        self@ == other@
    }
}

/// The curves of a list, each by what it says.
pub open spec fn curve_views(curves: Seq<Curve>) -> Seq<CurveView> {
    Seq::new(curves.len(), |i: int| curves[i]@)
}

/// A copy of a list of curves.
pub fn clone_curves(curves: &Vec<Curve>) -> (r: Vec<Curve>)
    ensures
        curve_views(r@) == curve_views(curves@),
{
    let mut r: Vec<Curve> = Vec::new();
    let mut i: usize = 0;
    while i < curves.len()
        invariant
            i <= curves@.len(),
            r@.len() == i,
            forall|k: int| 0 <= k < i ==> r@[k]@ == curves@[k]@,
        decreases curves@.len() - i,
    {
        r.push(curves[i].clone());
        i += 1;
    }
    proof {
        assert(curve_views(r@) =~= curve_views(curves@));
    }
    r
}

fn same_curves(a: &Vec<Curve>, b: &Vec<Curve>) -> (r: bool)
    ensures
        r == (curve_views(a@) == curve_views(b@)),
{
    if a.len() != b.len() {
        proof {
            assert(curve_views(a@).len() != curve_views(b@).len());
        }
        return false;
    }
    let mut i: usize = 0;
    while i < a.len()
        invariant
            i <= a@.len(),
            a@.len() == b@.len(),
            forall|k: int| 0 <= k < i ==> a@[k]@ == b@[k]@,
        decreases a@.len() - i,
    {
        if a[i] != b[i] {
            proof {
                assert(curve_views(a@)[i as int] != curve_views(b@)[i as int]);
            }
            return false;
        }
        i += 1;
    }
    proof {
        assert(curve_views(a@) =~= curve_views(b@));
    }
    true
}

fn clone_sensors(sensors: &Vec<Sensor>) -> (r: Vec<Sensor>)
    ensures
        sensor_views(r@) == sensor_views(sensors@),
{
    let mut r: Vec<Sensor> = Vec::new();
    let mut i: usize = 0;
    while i < sensors.len()
        invariant
            i <= sensors@.len(),
            r@.len() == i,
            forall|k: int| 0 <= k < i ==> r@[k]@ == sensors@[k]@,
        decreases sensors@.len() - i,
    {
        r.push(sensors[i].clone());
        i += 1;
    }
    proof {
        assert(sensor_views(r@) =~= sensor_views(sensors@));
    }
    r
}

fn same_sensors(a: &Vec<Sensor>, b: &Vec<Sensor>) -> (r: bool)
    ensures
        r == (sensor_views(a@) == sensor_views(b@)),
{
    if a.len() != b.len() {
        proof {
            assert(sensor_views(a@).len() != sensor_views(b@).len());
        }
        return false;
    }
    let mut i: usize = 0;
    while i < a.len()
        invariant
            i <= a@.len(),
            a@.len() == b@.len(),
            forall|k: int| 0 <= k < i ==> a@[k]@ == b@[k]@,
        decreases a@.len() - i,
    {
        if a[i] != b[i] {
            proof {
                assert(sensor_views(a@)[i as int] != sensor_views(b@)[i as int]);
            }
            return false;
        }
        i += 1;
    }
    proof {
        assert(sensor_views(a@) =~= sensor_views(b@));
    }
    true
}

#[derive(Debug)]
pub struct Config {
    /// Where a single curve reads temperatures from. Several may be listed - a
    /// laptop usually wants the CPU and the GPU, whichever is hotter.
    pub sensors: Vec<Sensor>,
    /// How to combine several sensors into the number that curve sees.
    pub aggregate: Aggregate,
    /// The single fan curve, sorted by temperature on load.
    pub curve: Vec<Point>,
    /// Curves that each follow a sensor of their own; the hungriest wins. Their
    /// points are sorted by temperature, too.
    pub curves: Vec<Curve>,
    /// How readings are smoothed on their way to a curve.
    pub smoothing: Smoothing,
    /// How often to sample the sensors.
    pub interval_secs: u64,
    /// Only change the target once it moves by at least this much, to stop the
    /// fan chasing every degree.
    pub hysteresis_rpm: u16,
    /// Hold this speed instead of following the curves.
    pub manual_rpm: Option<u16>,
    /// What the cooler should do on its own when the host goes away.
    ///
    /// Applied to the device at startup and stored there, so it keeps working
    /// after the daemon stops or the machine shuts down. `None` leaves whatever
    /// the cooler was already set to.
    pub standby: Option<Standby>,
    /// Lighting to restore on every connection, if it is declared.
    pub lighting: Option<Lighting>,
    /// Put the lights out while the screens are.
    pub lights_follow_screens: bool,
}

#[verifier::ext_equal]
pub struct ConfigView {
    pub sensors: Seq<SensorView>,
    pub aggregate: Aggregate,
    pub curve: Seq<Point>,
    pub curves: Seq<CurveView>,
    pub smoothing: Smoothing,
    pub interval_secs: u64,
    pub hysteresis_rpm: u16,
    pub manual_rpm: Option<u16>,
    pub standby: Option<Standby>,
    pub lighting: Option<Lighting>,
    pub lights_follow_screens: bool,
}

impl View for Config {
    type V = ConfigView;

    open spec fn view(&self) -> ConfigView {
        ConfigView {
            sensors: sensor_views(self.sensors@),
            aggregate: self.aggregate,
            curve: self.curve@,
            curves: curve_views(self.curves@),
            smoothing: self.smoothing,
            interval_secs: self.interval_secs,
            hysteresis_rpm: self.hysteresis_rpm,
            manual_rpm: self.manual_rpm,
            standby: self.standby,
            lighting: self.lighting,
            lights_follow_screens: self.lights_follow_screens,
        }
    }
}

impl ConfigView {
    /// The same configuration with the points of every curve in order.
    pub open spec fn in_order(self) -> ConfigView {
        ConfigView { curve: sorted(self.curve), curves: tidied(self.curves), ..self }
    }

    /// The same configuration. Only a smoothing constant that is not a number
    /// keeps one from equalling itself.
    pub open spec fn equals(self, other: ConfigView) -> bool {
        self.smoothing.equals(other.smoothing) && self == (ConfigView {
            smoothing: self.smoothing,
            ..other
        })
    }
}

impl Clone for Config {
    fn clone(&self) -> (r: Self)
        ensures
            r@ == self@,
    {
        Config {
            sensors: clone_sensors(&self.sensors),
            aggregate: self.aggregate,
            curve: clone_points(&self.curve),
            curves: clone_curves(&self.curves),
            smoothing: self.smoothing,
            interval_secs: self.interval_secs,
            hysteresis_rpm: self.hysteresis_rpm,
            manual_rpm: self.manual_rpm,
            standby: self.standby,
            lighting: self.lighting,
            lights_follow_screens: self.lights_follow_screens,
        }
    }
}

impl PartialEq for Config {
    fn eq(&self, other: &Self) -> (r: bool) {
        same_sensors(&self.sensors, &other.sensors) && self.aggregate == other.aggregate
            && same_points(&self.curve, &other.curve) && same_curves(&self.curves, &other.curves)
            && self.smoothing == other.smoothing && self.interval_secs == other.interval_secs
            && self.hysteresis_rpm == other.hysteresis_rpm && self.manual_rpm == other.manual_rpm
            && self.standby == other.standby && self.lighting == other.lighting
            && self.lights_follow_screens == other.lights_follow_screens
    }
}

impl vstd::std_specs::cmp::PartialEqSpecImpl for Config {
    open spec fn obeys_eq_spec() -> bool {
        true
    }

    open spec fn eq_spec(&self, other: &Self) -> bool {
        self@.equals(other@)
    }
}

/// The curve a machine starts out with.
pub open spec fn default_points() -> Seq<Point> {
    seq![
        Point { temp_c: 45, rpm: 0 },
        Point { temp_c: 55, rpm: 1300 },
        Point { temp_c: 65, rpm: 2100 },
        Point { temp_c: 75, rpm: 2800 },
        Point { temp_c: 85, rpm: 3500 },
    ]
}

fn points_by_default() -> (points: Vec<Point>)
    ensures
        points@ == default_points(),
{
    let points: Vec<Point> = vec![
        Point { temp_c: 45, rpm: 0 },
        Point { temp_c: 55, rpm: 1300 },
        Point { temp_c: 65, rpm: 2100 },
        Point { temp_c: 75, rpm: 2800 },
        Point { temp_c: 85, rpm: 3500 },
    ];
    proof {
        assert(points@ =~= default_points());
    }
    points
}

/// What is in force without a config file.
pub open spec fn default_config() -> ConfigView {
    ConfigView {
        sensors: seq![default_sensor()],
        aggregate: Aggregate::Max,
        curve: default_points(),
        curves: seq![
            CurveView {
                name: Seq::empty(),
                sensor: default_sensor(),
                points: default_points(),
                panic_c: None,
            },
        ],
        smoothing: Smoothing {
            rise_secs: Secs { bits: 0x4120_0000 },
            fall_secs: Secs { bits: 0x4270_0000 },
            panic_c: 90,
        },
        interval_secs: 3,
        hysteresis_rpm: 100,
        manual_rpm: None,
        standby: Some(Standby::Delayed),
        lighting: None,
        lights_follow_screens: false,
    }
}

impl Default for Config {
    fn default() -> (config: Self)
        ensures
            config@ == default_config(),
    {
        let mut sensors: Vec<Sensor> = Vec::new();
        sensors.push(Sensor::default());
        let mut curves: Vec<Curve> = Vec::new();
        curves.push(
            Curve {
                name: String::new(),
                sensor: Sensor::default(),
                points: points_by_default(),
                panic_c: None,
            },
        );
        proof {
            assert(sensor_views(sensors@) =~= seq![default_sensor()]);
            assert(curve_views(curves@) =~= default_config().curves);
        }
        Config {
            sensors,
            aggregate: Aggregate::Max,
            curve: points_by_default(),
            curves,
            smoothing: Smoothing::default(),
            interval_secs: 3,
            hysteresis_rpm: 100,
            manual_rpm: None,
            standby: Some(Standby::Delayed),
            lighting: None,
            lights_follow_screens: false,
        }
    }
}

// ---------------------------------------------------------------------------
// Keeping points in order

/// Put a point where its temperature belongs, behind any others as warm.
pub open spec fn placed(points: Seq<Point>, point: Point) -> Seq<Point>
    decreases points.len(),
{
    if points.len() == 0 || points.last().temp_c <= point.temp_c {
        points.push(point)
    } else {
        placed(points.drop_last(), point).push(points.last())
    }
}

/// The points by temperature; those at the same one stay in the order they came.
pub open spec fn sorted(points: Seq<Point>) -> Seq<Point>
    decreases points.len(),
{
    if points.len() == 0 {
        points
    } else {
        placed(sorted(points.drop_last()), points.last())
    }
}

/// Each point is at least as warm as the ones before it.
pub open spec fn ascending(points: Seq<Point>) -> bool {
    forall|i: int, j: int| 0 <= i <= j < points.len() ==> points[i].temp_c <= points[j].temp_c
}

proof fn lemma_placed(points: Seq<Point>, point: Point)
    requires
        ascending(points),
    ensures
        ascending(placed(points, point)),
        placed(points, point).len() == points.len() + 1,
        placed(points, point).to_multiset() == points.to_multiset().insert(point),
        forall|i: int|
            0 <= i < placed(points, point).len() ==> {
                let p = #[trigger] placed(points, point)[i];
                p == point || points.contains(p)
            },
    decreases points.len(),
{
    broadcast use vstd::seq_lib::group_to_multiset_ensures;

    if points.len() == 0 || points.last().temp_c <= point.temp_c {
        let r = points.push(point);
        assert forall|i: int, j: int| 0 <= i <= j < r.len() implies r[i].temp_c
            <= r[j].temp_c by {
            if i < points.len() {
                assert(points[i].temp_c <= points.last().temp_c);
            }
        }
        assert forall|i: int| 0 <= i < r.len() implies {
            let p = #[trigger] r[i];
            p == point || points.contains(p)
        } by {
            if i < points.len() {
                assert(r[i] == points[i]);
            }
        }
    } else {
        let rest = points.drop_last();
        let last = points.last();
        lemma_placed(rest, point);
        let inner = placed(rest, point);
        let r = inner.push(last);
        assert forall|i: int, j: int| 0 <= i <= j < r.len() implies r[i].temp_c
            <= r[j].temp_c by {
            if j == inner.len() && i < j {
                let p = inner[i];
                if p != point {
                    let k = choose|k: int| 0 <= k < rest.len() && rest[k] == p;
                    assert(points[k].temp_c <= last.temp_c);
                }
            }
        }
        assert forall|i: int| 0 <= i < r.len() implies {
            let p = #[trigger] r[i];
            p == point || points.contains(p)
        } by {
            if i < inner.len() {
                let p = inner[i];
                assert(r[i] == p);
                if p != point {
                    let k = choose|k: int| 0 <= k < rest.len() && rest[k] == p;
                    assert(points[k] == p);
                }
            } else {
                assert(points[points.len() - 1] == last);
            }
        }
        assert(points =~= rest.push(last));
        assert(r.to_multiset() =~= points.to_multiset().insert(point));
    }
}

/// Sorting leaves every point in, adds none, and puts them in order.
pub proof fn law_sorting_keeps_every_point(points: Seq<Point>)
    ensures
        ascending(sorted(points)),
        sorted(points).to_multiset() == points.to_multiset(),
        sorted(points).len() == points.len(),
    decreases points.len(),
{
    broadcast use vstd::seq_lib::group_to_multiset_ensures;

    if points.len() > 0 {
        law_sorting_keeps_every_point(points.drop_last());
        lemma_placed(sorted(points.drop_last()), points.last());
        assert(points =~= points.drop_last().push(points.last()));
    }
}

/// Points in order are left as they are.
pub proof fn law_sorted_points_stay_put(points: Seq<Point>)
    requires
        ascending(points),
    ensures
        sorted(points) == points,
    decreases points.len(),
{
    if points.len() > 0 {
        let rest = points.drop_last();
        assert(ascending(rest)) by {
            assert forall|i: int, j: int| 0 <= i <= j < rest.len() implies rest[i].temp_c
                <= rest[j].temp_c by {
                assert(points[i].temp_c <= points[j].temp_c);
            }
        }
        law_sorted_points_stay_put(rest);
        if rest.len() > 0 {
            assert(points[rest.len() - 1].temp_c <= points[rest.len() as int].temp_c);
        }
        assert(rest.push(points.last()) =~= points);
    }
}

/// Sorting twice is sorting once.
pub proof fn law_sorting_settles(points: Seq<Point>)
    ensures
        sorted(sorted(points)) == sorted(points),
{
    law_sorting_keeps_every_point(points);
    law_sorted_points_stay_put(sorted(points));
}

fn place(points: &mut Vec<Point>, point: Point)
    ensures
        final(points)@ == placed(old(points)@, point),
{
    let mut at: usize = points.len();
    let ghost all = points@;
    proof {
        assert(all.take(at as int) =~= all);
        assert(placed(all, point) =~= placed(all.take(at as int), point) + all.skip(at as int));
    }
    while at > 0 && points[at - 1].temp_c > point.temp_c
        invariant
            at <= points@.len(),
            points@ == all,
            placed(all, point) == placed(all.take(at as int), point) + all.skip(at as int),
        decreases at,
    {
        proof {
            let cut = all.take(at as int);
            assert(cut.last() == all[at - 1]);
            assert(cut.drop_last() =~= all.take(at - 1));
            assert(placed(cut, point) == placed(all.take(at - 1), point).push(all[at - 1]));
            assert(placed(all.take(at - 1), point).push(all[at - 1]) + all.skip(at as int)
                =~= placed(all.take(at - 1), point) + all.skip(at - 1));
        }
        at -= 1;
    }
    proof {
        let cut = all.take(at as int);
        if at > 0 {
            assert(cut.last() == all[at - 1]);
        }
        assert(placed(cut, point) == cut.push(point));
        assert(all.insert(at as int, point) =~= cut.push(point) + all.skip(at as int));
    }
    points.insert(at, point);
}

/// Put points in order of temperature, keeping those at the same one in the
/// order they came.
pub fn sort_points(points: &mut Vec<Point>)
    ensures
        final(points)@ == sorted(old(points)@),
{
    let mut done: Vec<Point> = Vec::new();
    let mut i: usize = 0;
    let ghost all = points@;
    proof {
        assert(all.take(0) =~= Seq::<Point>::empty());
    }
    while i < points.len()
        invariant
            i <= points@.len(),
            points@ == all,
            done@ == sorted(all.take(i as int)),
        decreases points@.len() - i,
    {
        proof {
            let next = all.take(i + 1);
            assert(next.drop_last() =~= all.take(i as int));
            assert(next.last() == all[i as int]);
        }
        place(&mut done, points[i]);
        i += 1;
    }
    proof {
        assert(all.take(i as int) =~= all);
    }
    *points = done;
}

/// A curve with its points in order.
pub open spec fn tidy(curve: CurveView) -> CurveView {
    CurveView { points: sorted(curve.points), ..curve }
}

/// Every curve with its points in order.
pub open spec fn tidied(curves: Seq<CurveView>) -> Seq<CurveView> {
    Seq::new(curves.len(), |i: int| tidy(curves[i]))
}

/// Put the points of every curve in order.
pub fn sort_curves(curves: &mut Vec<Curve>)
    ensures
        curve_views(final(curves)@) == tidied(curve_views(old(curves)@)),
{
    let mut done: Vec<Curve> = Vec::new();
    let mut i: usize = 0;
    while i < curves.len()
        invariant
            i <= curves@.len(),
            curves@ == old(curves)@,
            done@.len() == i,
            forall|k: int| 0 <= k < i ==> done@[k]@ == tidy(curves@[k]@),
        decreases curves@.len() - i,
    {
        let mut points = clone_points(&curves[i].points);
        sort_points(&mut points);
        let curve = Curve {
            name: curves[i].name.clone(),
            sensor: curves[i].sensor.clone(),
            points,
            panic_c: curves[i].panic_c,
        };
        done.push(curve);
        i += 1;
    }
    proof {
        assert(curve_views(done@) =~= tidied(curve_views(old(curves)@)));
    }
    *curves = done;
}

impl Config {
    /// Put a config just read from its file in order: every curve by
    /// temperature.
    pub fn loaded(self) -> (config: Self)
        ensures
            config@ == self@.in_order(),
    {
        let mut config = self;
        sort_points(&mut config.curve);
        sort_curves(&mut config.curves);
        config
    }

    /// The speed for a temperature: what is held by hand, or what the curve
    /// says.
    pub open spec fn target(config: ConfigView, temp_c: u8) -> Option<u16> {
        match config.manual_rpm {
            Some(rpm) => Some(rpm),
            None => curve::target(config.curve, temp_c),
        }
    }

    /// Target speed for a temperature, interpolated between curve points.
    pub fn target_for(&self, temp_c: u8) -> (rpm: Option<u16>)
        ensures
            rpm == Config::target(self@, temp_c),
    {
        if let Some(rpm) = self.manual_rpm {
            return Some(rpm);
        }
        curve::target_for(self.curve.as_slice(), temp_c)
    }
}

/// Loading changes nothing but the order of points: a config whose points are
/// in order stays as it is, so what was loaded once loads as it is from then on.
pub proof fn law_loading_only_orders_points(config: ConfigView)
    ensures
        ascending(config.in_order().curve),
        config.in_order().curve.to_multiset() == config.curve.to_multiset(),
        config.in_order().in_order() == config.in_order(),
        ascending(config.curve) && (forall|i: int|
            0 <= i < config.curves.len() ==> ascending((#[trigger] config.curves[i]).points))
            ==> config.in_order() == config,
{
    law_sorting_keeps_every_point(config.curve);
    law_sorting_settles(config.curve);
    let once = tidied(config.curves);
    assert forall|i: int| 0 <= i < config.curves.len() implies #[trigger] tidied(once)[i]
        == once[i] by {
        law_sorting_settles(config.curves[i].points);
    }
    assert(tidied(once) =~= once);
    if ascending(config.curve) && (forall|i: int|
        0 <= i < config.curves.len() ==> ascending((#[trigger] config.curves[i]).points)) {
        law_sorted_points_stay_put(config.curve);
        assert forall|i: int| 0 <= i < config.curves.len() implies #[trigger] once[i]
            == config.curves[i] by {
            law_sorted_points_stay_put(config.curves[i].points);
        }
        assert(once =~= config.curves);
    }
}

/// A speed held by hand wins over the curve at every temperature.
pub proof fn law_manual_speed_wins(config: ConfigView, rpm: u16, temp_c: u8)
    requires
        config.manual_rpm == Some(rpm),
    ensures
        Config::target(config, temp_c) == Some(rpm),
{
}

/// Where a config that could not be read or written went wrong.
///
/// Only `Read` is no reason to give up: without a file there are defaults.
#[derive(Debug)]
pub enum ConfigError {
    Read { path: String, source: String },
    Parse { path: String, source: String },
    Write { path: String, source: String },
    Serialize { source: String },
}

impl ConfigError {
    pub open spec fn label(self) -> Seq<char> {
        match self {
            ConfigError::Read { path, source } => "cannot read "@ + path@ + ": "@ + source@,
            ConfigError::Parse { path, source } => "cannot parse "@ + path@ + ": "@ + source@,
            ConfigError::Write { path, source } => "cannot write "@ + path@ + ": "@ + source@,
            ConfigError::Serialize { source } => "cannot serialise config: "@ + source@,
        }
    }

    pub fn to_string(&self) -> (text: String)
        ensures
            text@ == self.label(),
    {
        match self {
            Self::Read { path, source } => about("cannot read ", path, source),
            Self::Parse { path, source } => about("cannot parse ", path, source),
            Self::Write { path, source } => about("cannot write ", path, source),
            Self::Serialize { source } => text::joined(
                "cannot serialise config: ",
                source.as_str(),
            ),
        }
    }
}

fn about(what: &str, path: &String, source: &String) -> (text: String)
    ensures
        text@ == what@ + path@ + ": "@ + source@,
{
    let mut text = text::joined(what, path.as_str());
    text.append(": ");
    text.append(source.as_str());
    text
}

/// What a daemon starts with: the config it read, defaults when there is no
/// file to read, and an error when there is one it cannot make sense of.
pub fn starting(loaded: Result<Config, ConfigError>) -> (config: Result<Config, String>)
    ensures
        match (loaded, config) {
            (Ok(read), Ok(config)) => config@ == read@,
            (Err(ConfigError::Read { .. }), Ok(config)) => config@ == default_config(),
            (Err(error), Err(message)) => !(error is Read) && message@ == error.label(),
            _ => false,
        },
{
    match loaded {
        Ok(config) => Ok(config),
        Err(ConfigError::Read { path, source }) => Ok(Config::default()),
        Err(error) => Err(error.to_string()),
    }
}

// ---------------------------------------------------------------------------
// What a configuration promises

/// Following the hottest sensor comes to a reading that one of them gave and
/// none exceeds; there is none exactly when nothing was read.
pub proof fn law_the_hottest_reading_is_followed(readings: Seq<u8>, i: int)
    ensures
        Aggregate::Max.of(readings) is None <==> readings.len() == 0,
        Aggregate::Max.of(readings) matches Some(r) ==> readings.contains(r) && (0 <= i
            < readings.len() ==> readings[i] <= r),
{
    lemma_hottest(readings);
}

/// The average is what every reading would have to be to add up to the same,
/// rounded down.
pub proof fn law_the_average_adds_up(readings: Seq<u8>)
    ensures
        Aggregate::Mean.of(readings) is None <==> readings.len() == 0,
        Aggregate::Mean.of(readings) matches Some(r) ==> r * readings.len() <= sum(readings) < (r
            + 1) * readings.len(),
{
    if readings.len() > 0 {
        lemma_sum_bound(readings);
        let n = readings.len();
        let s = sum(readings);
        assert(s / n <= 255 && (s / n) * n <= s < (s / n + 1) * n) by (nonlinear_arith)
            requires
                n > 0,
                s <= 255 * n,
        ;
    }
}

/// Every reading counts for itself in a sum, whatever the others are.
pub proof fn law_sums_add_up(readings: Seq<u8>, reading: u8)
    ensures
        sum(Seq::empty()) == 0,
        sum(readings.push(reading)) == sum(readings) + reading,
{
    assert(readings.push(reading).drop_last() =~= readings);
}

/// The points of a curve that are at one temperature, in the order they come.
pub open spec fn at_temperature(points: Seq<Point>, temp_c: u8) -> Seq<Point> {
    points.filter(|p: Point| p.temp_c == temp_c)
}

proof fn lemma_one_more_point(points: Seq<Point>, point: Point, temp_c: u8)
    ensures
        at_temperature(points.push(point), temp_c) == (if point.temp_c == temp_c {
            at_temperature(points, temp_c).push(point)
        } else {
            at_temperature(points, temp_c)
        }),
{
    reveal(Seq::filter);
    assert(points.push(point).drop_last() =~= points);
}

proof fn lemma_placed_keeps_ties(points: Seq<Point>, point: Point, temp_c: u8)
    requires
        ascending(points),
    ensures
        at_temperature(placed(points, point), temp_c) == at_temperature(points.push(point), temp_c),
    decreases points.len(),
{
    if points.len() > 0 && points.last().temp_c > point.temp_c {
        let rest = points.drop_last();
        let last = points.last();
        assert(ascending(rest)) by {
            assert forall|i: int, j: int| 0 <= i <= j < rest.len() implies rest[i].temp_c
                <= rest[j].temp_c by {
                assert(points[i].temp_c <= points[j].temp_c);
            }
        }
        lemma_placed_keeps_ties(rest, point, temp_c);
        let inner = placed(rest, point);
        assert(placed(points, point) == inner.push(last));
        assert(rest.push(last) =~= points);
        lemma_one_more_point(inner, last, temp_c);
        lemma_one_more_point(rest, last, temp_c);
        lemma_one_more_point(rest, point, temp_c);
        lemma_one_more_point(points, point, temp_c);
    }
}

/// Sorting keeps points that are as warm as each other in the order they came.
pub proof fn law_sorting_keeps_ties_in_order(points: Seq<Point>, temp_c: u8)
    ensures
        at_temperature(sorted(points), temp_c) == at_temperature(points, temp_c),
    decreases points.len(),
{
    if points.len() > 0 {
        let rest = points.drop_last();
        let point = points.last();
        law_sorting_keeps_ties_in_order(rest, temp_c);
        law_sorting_keeps_every_point(rest);
        lemma_placed_keeps_ties(sorted(rest), point, temp_c);
        lemma_one_more_point(sorted(rest), point, temp_c);
        lemma_one_more_point(rest, point, temp_c);
        assert(rest.push(point) =~= points);
    }
}

/// Putting a configuration in order touches nothing but the points of its
/// curves: every other setting, and every other part of each curve, stays.
pub proof fn law_order_touches_only_points(config: ConfigView, i: int)
    requires
        0 <= i < config.curves.len(),
    ensures
        ({
            let done = config.in_order();
            &&& done.curves.len() == config.curves.len()
            &&& done.curves[i].name == config.curves[i].name
            &&& done.curves[i].sensor == config.curves[i].sensor
            &&& done.curves[i].panic_c == config.curves[i].panic_c
            &&& ascending(done.curves[i].points)
            &&& done.curves[i].points.to_multiset() == config.curves[i].points.to_multiset()
            &&& done.sensors == config.sensors && done.aggregate == config.aggregate
            &&& done.smoothing == config.smoothing
            &&& done.interval_secs == config.interval_secs
            &&& done.hysteresis_rpm == config.hysteresis_rpm
            &&& done.manual_rpm == config.manual_rpm && done.standby == config.standby
            &&& done.lighting == config.lighting
            &&& done.lights_follow_screens == config.lights_follow_screens
        }),
{
    law_sorting_keeps_every_point(config.curves[i].points);
}

/// Without a speed held by hand the curve decides, and a configuration without
/// either asks for nothing.
pub proof fn law_the_curve_decides_otherwise(config: ConfigView, temp_c: u8)
    requires
        config.manual_rpm is None,
    ensures
        Config::target(config, temp_c) == curve::target(config.curve, temp_c),
        config.curve.len() == 0 ==> Config::target(config, temp_c) is None,
{
}

/// Two configurations that differ in any setting are not the same.
pub proof fn law_equal_configurations_agree(a: ConfigView, b: ConfigView)
    ensures
        a.equals(b) ==> b.equals(a),
        a.equals(b) ==> {
            &&& a.sensors == b.sensors && a.aggregate == b.aggregate
            &&& a.curve == b.curve && a.curves == b.curves
            &&& a.smoothing.panic_c == b.smoothing.panic_c
            &&& a.interval_secs == b.interval_secs && a.hysteresis_rpm == b.hysteresis_rpm
            &&& a.manual_rpm == b.manual_rpm && a.standby == b.standby
            &&& a.lighting == b.lighting && a.lights_follow_screens == b.lights_follow_screens
        },
        !a.smoothing.rise_secs.nan() && !a.smoothing.fall_secs.nan() ==> a.equals(a),
        a.smoothing.equals(b.smoothing) && a == (ConfigView { smoothing: a.smoothing, ..b })
            ==> a.equals(b),
{
}

/// Seconds are equal as floats are: by their bits, save that what is no number
/// equals nothing, itself included, and that zero has two signs.
pub proof fn law_seconds_are_equal_as_floats_are(a: Secs, b: Secs)
    ensures
        a.equals(b) <==> b.equals(a),
        a.bits & 0x7F80_0000 == 0x7F80_0000 && a.bits & 0x007F_FFFF != 0 <==> !a.equals(a),
        a.bits == b.bits && a.equals(a) ==> a.equals(b),
        a.bits != b.bits && a.equals(b) ==> a.bits & 0x7FFF_FFFF == 0 && b.bits & 0x7FFF_FFFF == 0,
        (Secs { bits: 0 }).equals(Secs { bits: 0x8000_0000 }),
{
    let x = a.bits;
    let y = b.bits;
    assert((x & 0x7F80_0000 == 0x7F80_0000 && x & 0x007F_FFFF != 0) == (x % 0x8000_0000
        > 0x7F80_0000)) by (bit_vector);
    assert(x & 0x7FFF_FFFF == x % 0x8000_0000) by (bit_vector);
    assert(y & 0x7FFF_FFFF == y % 0x8000_0000) by (bit_vector);
}

} // verus!
