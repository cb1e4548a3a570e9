//! What the window shows, in words and numbers.

use crate::choices;
use crate::choices::SensorChoice;
use crate::config;
use crate::config::{Curve, Sensor};
use crate::curve;
use crate::gui;
use crate::gui::{Message, State};
use crate::ipc;
use crate::ipc::Status;
use crate::lighting::{LightMode, Rgb};
use crate::text;
use vstd::prelude::*;

verus! {

/// What the window is called.
pub fn title(state: &State) -> (text: String)
    ensures
        text@ == (match state@.status {
            Some(status) => status.model + " - flydigictl"@,
            None => "flydigictl"@,
        }),
{
    match &state.status {
        Some(status) => text::joined(status.model.as_str(), " - flydigictl"),
        None => "flydigictl".to_owned(),
    }
}

// ---------------------------------------------------------------------------
// The speed

/// The card that says how the cooler is doing.
#[derive(Debug)]
pub enum SpeedCard {
    NoDaemon { detail: String },
    NoCooler,
    Running { model: String, current: String, target: String, leading: String, supply: String },
}

#[verifier::ext_equal]
pub enum SpeedCardView {
    NoDaemon { detail: Seq<char> },
    NoCooler,
    Running {
        model: Seq<char>,
        current: Seq<char>,
        target: Seq<char>,
        leading: Seq<char>,
        supply: Seq<char>,
    },
}

impl View for SpeedCard {
    type V = SpeedCardView;

    open spec fn view(&self) -> SpeedCardView {
        match self {
            SpeedCard::NoDaemon { detail } => SpeedCardView::NoDaemon { detail: detail@ },
            SpeedCard::NoCooler => SpeedCardView::NoCooler,
            SpeedCard::Running { model, current, target, leading, supply } => {
                SpeedCardView::Running {
                    model: model@,
                    current: current@,
                    target: target@,
                    leading: leading@,
                    supply: supply@,
                }
            },
        }
    }
}

pub open spec fn current_line(status: ipc::StatusView) -> Seq<char> {
    (match status.current_rpm {
        Some(rpm) => text::dec(rpm as nat),
        None => "-"@,
    }) + " rpm"@
}

pub open spec fn target_line(status: ipc::StatusView) -> Seq<char> {
    "target "@ + (match status.target_rpm {
        Some(rpm) => text::dec(rpm as nat) + " rpm"@,
        None => "-"@,
    })
}

pub open spec fn leading_line(status: ipc::StatusView) -> Seq<char> {
    match (status.leading, status.manual) {
        (_, true) => "held by hand"@,
        (Some(name), false) => "led by "@ + name,
        (None, false) => "no reading yet"@,
    }
}

pub open spec fn supply_line(status: ipc::StatusView) -> Seq<char> {
    match (status.supply, status.supply_max_rpm) {
        (Some(supply), Some(max)) => "supply "@ + supply + ", up to "@ + text::dec(max as nat)
            + " rpm"@,
        _ => "supply unknown"@,
    }
}

pub open spec fn speed(status: Option<ipc::StatusView>, socket: Seq<char>) -> SpeedCardView {
    match status {
        None => SpeedCardView::NoDaemon { detail: "Nothing answering on "@ + socket },
        Some(status) => if !status.connected {
            SpeedCardView::NoCooler
        } else {
            SpeedCardView::Running {
                model: status.model,
                current: current_line(status),
                target: target_line(status),
                leading: leading_line(status),
                supply: supply_line(status),
            }
        },
    }
}

fn write_current(status: &Status) -> (text: String)
    ensures
        text@ == current_line(status@),
{
    let mut text = match status.current_rpm {
        Some(rpm) => text::decimal(rpm as u64),
        None => "-".to_owned(),
    };
    text.append(" rpm");
    text
}

fn write_target(status: &Status) -> (text: String)
    ensures
        text@ == target_line(status@),
{
    let mut text = "target ".to_owned();
    match status.target_rpm {
        Some(rpm) => {
            text::push_dec(&mut text, rpm as u64);
            text.append(" rpm");
            proof {
                assert(text@ =~= target_line(status@));
            }
        },
        None => text.append("-"),
    }
    text
}

fn write_leading(status: &Status) -> (text: String)
    ensures
        text@ == leading_line(status@),
{
    if status.manual {
        return "held by hand".to_owned();
    }
    match &status.leading {
        Some(name) => text::joined("led by ", name.as_str()),
        None => "no reading yet".to_owned(),
    }
}

fn write_supply(status: &Status) -> (text: String)
    ensures
        text@ == supply_line(status@),
{
    match (&status.supply, status.supply_max_rpm) {
        (Some(supply), Some(max)) => {
            let mut text = text::joined("supply ", supply.as_str());
            text.append(", up to ");
            text::push_dec(&mut text, max as u64);
            text.append(" rpm");
            text
        },
        _ => "supply unknown".to_owned(),
    }
}

pub fn speed_card(state: &State, socket: &str) -> (card: SpeedCard)
    ensures
        card@ == speed(state@.status, socket@),
{
    match &state.status {
        None => SpeedCard::NoDaemon { detail: text::joined("Nothing answering on ", socket) },
        Some(status) => {
            if !status.connected {
                return SpeedCard::NoCooler;
            }
            SpeedCard::Running {
                model: status.model.clone(),
                current: write_current(status),
                target: write_target(status),
                leading: write_leading(status),
                supply: write_supply(status),
            }
        },
    }
}

/// The speed held by hand: as last asked for, or else as the daemon has it.
pub open spec fn manual(state: gui::StateView) -> Option<u16> {
    match state.manual_intent {
        Some(intent) => intent,
        None => match state.status {
            Some(status) => status.manual_rpm,
            None => None,
        },
    }
}

/// Where the slider for a speed stands under a ceiling.
pub open spec fn slider(rpm: u16, ceiling: u16) -> u16 {
    if rpm < ceiling {
        rpm
    } else {
        ceiling
    }
}

/// The controls for holding a speed: the speed, and where its slider stands.
pub fn manual_card(state: &State) -> (r: Option<(u16, u16)>)
    ensures
        r == (match manual(state@) {
            Some(rpm) => Some(
                (
                    rpm,
                    if rpm < state@.ceiling() {
                        rpm
                    } else {
                        state@.ceiling()
                    },
                ),
            ),
            None => None,
        }),
        r matches Some((rpm, at)) ==> manual(state@) == Some(rpm) && at == slider(
            rpm,
            state@.ceiling(),
        ),
{
    let held = match state.manual_intent {
        Some(intent) => intent,
        None => match &state.status {
            Some(status) => status.manual_rpm,
            None => None,
        },
    };
    match held {
        Some(rpm) => {
            let ceiling = state.ceiling();
            Some(
                (
                    rpm,
                    if rpm < ceiling {
                        rpm
                    } else {
                        ceiling
                    },
                ),
            )
        },
        None => None,
    }
}

/// A speed in words.
pub fn rpm_label(rpm: u16) -> (text: String)
    ensures
        text@ == text::dec(rpm as nat) + " rpm"@,
{
    let mut text = text::decimal(rpm as u64);
    text.append(" rpm");
    text
}

// ---------------------------------------------------------------------------
// The curves

/// What the curve of a name asked for, if it did: the first of that name.
pub open spec fn demand_of(demands: Seq<curve::DemandView>, name: Seq<char>) -> Option<
    curve::DemandView,
>
    decreases demands.len(),
{
    if demands.len() == 0 {
        None
    } else if demands[0].name == name {
        Some(demands[0])
    } else {
        demand_of(demands.drop_first(), name)
    }
}

/// The same, in the last status there was.
pub open spec fn reading_of(status: Option<ipc::StatusView>, name: Seq<char>) -> Option<
    curve::DemandView,
> {
    match status {
        Some(status) => demand_of(status.demands, name),
        None => None,
    }
}

fn find_reading(status: &Option<Status>, name: &str) -> (r: Option<(u8, u16)>)
    ensures
        r == (match reading_of(crate::control::status_view(*status), name@) {
            Some(demand) => Some((demand.temp_c, demand.rpm)),
            None => None,
        }),
{
    match status {
        None => None,
        Some(last) => {
            let ghost all = curve::demand_views(last.demands@);
            let mut i: usize = 0;
            proof {
                assert(all.skip(0) =~= all);
            }
            while i < last.demands.len()
                invariant
                    *status == Some(*last),
                    i <= last.demands@.len(),
                    all == curve::demand_views(last.demands@),
                    demand_of(all, name@) == demand_of(all.skip(i as int), name@),
                decreases last.demands@.len() - i,
            {
                proof {
                    assert(all.skip(i as int).drop_first() =~= all.skip(i + 1));
                    assert(all.skip(i as int)[0] == last.demands@[i as int]@);
                }
                if text::same(last.demands[i].name.as_str(), name) {
                    return Some((last.demands[i].temp_c, last.demands[i].rpm));
                }
                i += 1;
            }
            None
        },
    }
}

/// One curve in the list of them.
#[derive(Debug)]
pub struct Row {
    pub name: String,
    pub detail: String,
    pub selected: bool,
    pub leading: bool,
}

#[verifier::ext_equal]
pub struct RowView {
    pub name: Seq<char>,
    pub detail: Seq<char>,
    pub selected: bool,
    pub leading: bool,
}

impl View for Row {
    type V = RowView;

    open spec fn view(&self) -> RowView {
        RowView {
            name: self.name@,
            detail: self.detail@,
            selected: self.selected,
            leading: self.leading,
        }
    }
}

pub open spec fn row_views(rows: Seq<Row>) -> Seq<RowView> {
    Seq::new(rows.len(), |i: int| rows[i]@)
}

pub open spec fn row(state: gui::StateView, config: config::ConfigView, i: int) -> RowView {
    let name = curve::described(config.curves[i], i as nat);
    RowView {
        name,
        detail: match reading_of(state.status, name) {
            Some(demand) => text::dec(demand.temp_c as nat) + " C  ->  "@ + text::dec(
                demand.rpm as nat,
            ) + " rpm"@,
            None => "no reading"@,
        },
        selected: i == state.selected,
        leading: match state.status {
            Some(status) => status.leading == Some(name),
            None => false,
        },
    }
}

fn write_row(state: &State, curve: &Curve, index: usize) -> (r: Row)
    requires
        state.config matches Some(config) && index < config.curves@.len() && *curve
            == config.curves@[index as int],
    ensures
        r@ == row(state@, state@.config->0, index as int),
{
    let name = curve::describe(curve, index);
    let detail = match find_reading(&state.status, name.as_str()) {
        Some((temp_c, rpm)) => {
            let mut detail = text::decimal(temp_c as u64);
            detail.append(" C  ->  ");
            text::push_dec(&mut detail, rpm as u64);
            detail.append(" rpm");
            detail
        },
        None => "no reading".to_owned(),
    };
    let leading = match &state.status {
        Some(status) => match &status.leading {
            Some(leading) => *leading == name,
            None => false,
        },
        None => false,
    };
    let r = Row { name, detail, selected: index == state.selected, leading };
    proof {
        assert(state@.config->0.curves[index as int] == curve@);
        assert(r@ =~= row(state@, state@.config->0, index as int));
    }
    r
}

/// The list of curves, once there is a config.
pub fn curve_list(state: &State) -> (r: Option<Vec<Row>>)
    ensures
        match (r, state@.config) {
            (Some(rows), Some(config)) => row_views(rows@) == Seq::new(
                config.curves.len(),
                |i: int| row(state@, config, i),
            ),
            (None, None) => true,
            _ => false,
        },
{
    match &state.config {
        None => None,
        Some(config) => {
            let mut rows: Vec<Row> = Vec::new();
            let mut i: usize = 0;
            while i < config.curves.len()
                invariant
                    i <= config.curves@.len(),
                    state.config == Some(*config),
                    rows@.len() == i,
                    forall|k: int| 0 <= k < i ==> (#[trigger] rows@[k])@ == row(state@, config@, k),
                decreases config.curves@.len() - i,
            {
                rows.push(write_row(state, &config.curves[i], i));
                i += 1;
            }
            proof {
                assert(row_views(rows@) =~= Seq::new(
                    config@.curves.len(),
                    |i: int| row(state@, config@, i),
                ));
            }
            Some(rows)
        },
    }
}

/// The pane a curve is edited in.
#[derive(Debug)]
pub enum EditorPane {
    Waiting,
    NoCurve,
    Editing(Editing),
}

#[derive(Debug)]
pub struct Editing {
    pub reading_c: Option<u8>,
    pub demand_rpm: Option<u16>,
    /// What the name field holds.
    pub name: String,
    /// The sensor the picker stands at.
    pub chosen: SensorChoice,
    pub panic_c: u8,
    pub panic_label: String,
    pub panic_hint: String,
}

#[verifier::ext_equal]
pub struct EditingView {
    pub reading_c: Option<u8>,
    pub demand_rpm: Option<u16>,
    pub name: Seq<char>,
    pub chosen: choices::ChoiceView,
    pub panic_c: u8,
    pub panic_label: Seq<char>,
    pub panic_hint: Seq<char>,
}

impl View for Editing {
    type V = EditingView;

    open spec fn view(&self) -> EditingView {
        EditingView {
            reading_c: self.reading_c,
            demand_rpm: self.demand_rpm,
            name: self.name@,
            chosen: self.chosen@,
            panic_c: self.panic_c,
            panic_label: self.panic_label@,
            panic_hint: self.panic_hint@,
        }
    }
}

/// A sensor in words.
pub open spec fn sensor_words(sensor: config::SensorView) -> Seq<char> {
    if sensor.label.len() == 0 {
        sensor.hwmon + ", hottest input"@
    } else {
        sensor.hwmon + "/"@ + sensor.label
    }
}

/// The choice a sensor is listed under, looking from the front.
pub open spec fn listed(
    sensors: Seq<choices::ChoiceView>,
    sensor: config::SensorView,
) -> Option<choices::ChoiceView>
    decreases sensors.len(),
{
    if sensors.len() == 0 {
        None
    } else if sensors[0].sensor == sensor {
        Some(sensors[0])
    } else {
        listed(sensors.drop_first(), sensor)
    }
}

/// What the picker stands at.
///
/// A curve can address something the picker has no entry for: a sensor this
/// machine does not have, or one written by hand in a form the list does not
/// offer. Only the first deserves a warning.
pub open spec fn chosen(state: gui::StateView, sensor: config::SensorView) -> choices::ChoiceView {
    match listed(state.sensors, sensor) {
        Some(choice) => choice,
        None => choices::ChoiceView {
            label: sensor_words(sensor) + (if choices::exists_for(state.available, sensor) {
                Seq::empty()
            } else {
                " (missing)"@
            }),
            sensor,
        },
    }
}

fn stands_at(state: &State, sensor: &Sensor) -> (r: SensorChoice)
    ensures
        r@ == chosen(state@, sensor@),
{
    let ghost all = choices::choice_views(state.sensors@);
    let mut i: usize = 0;
    proof {
        assert(all.skip(0) =~= all);
    }
    while i < state.sensors.len()
        invariant
            i <= state.sensors@.len(),
            all == choices::choice_views(state.sensors@),
            listed(all, sensor@) == listed(all.skip(i as int), sensor@),
        decreases state.sensors@.len() - i,
    {
        proof {
            assert(all.skip(i as int).drop_first() =~= all.skip(i + 1));
            assert(all.skip(i as int)[0] == state.sensors@[i as int]@);
        }
        if state.sensors[i].sensor == *sensor {
            return state.sensors[i].clone();
        }
        i += 1;
    }
    let mut label = sensor.hwmon.clone();
    if sensor.label.as_str().is_empty() {
        label.append(", hottest input");
    } else {
        label.append("/");
        label.append(sensor.label.as_str());
    }
    if !choices::sensor_exists(&state.available, sensor) {
        label.append(" (missing)");
    }
    let r = SensorChoice { label, sensor: sensor.clone() };
    proof {
        assert(r@ =~= chosen(state@, sensor@));
    }
    r
}

pub open spec fn editing(state: gui::StateView, config: config::ConfigView) -> EditingView {
    let curve = config.curves[state.selected as int];
    let name = curve::described(curve, state.selected as nat);
    let panic_c = match curve.panic_c {
        Some(panic_c) => panic_c,
        None => config.smoothing.panic_c,
    };
    EditingView {
        reading_c: match reading_of(state.status, name) {
            Some(demand) => Some(demand.temp_c),
            None => None,
        },
        demand_rpm: match reading_of(state.status, name) {
            Some(demand) => Some(demand.rpm),
            None => None,
        },
        name: match state.name_draft {
            Some(draft) => draft,
            None => curve.name,
        },
        chosen: chosen(state, curve.sensor),
        panic_c,
        panic_label: "Panic at "@ + text::dec(panic_c as nat) + " C"@,
        panic_hint: "above "@ + text::dec(panic_c as nat) + " C the reading skips smoothing"@,
    }
}

pub fn editor_pane(state: &State) -> (pane: EditorPane)
    ensures
        match state@.config {
            None => pane is Waiting,
            Some(config) => if state@.selected < config.curves.len() {
                pane matches EditorPane::Editing(pane) && pane@ == editing(state@, config)
            } else {
                pane is NoCurve
            },
        },
{
    let config = match &state.config {
        Some(config) => config,
        None => return EditorPane::Waiting,
    };
    if state.selected >= config.curves.len() {
        return EditorPane::NoCurve;
    }
    let curve = &config.curves[state.selected];
    let name = curve::describe(curve, state.selected);
    let reading = find_reading(&state.status, name.as_str());
    let panic_c: u8 = match curve.panic_c {
        Some(panic_c) => panic_c,
        None => config.smoothing.panic_c,
    };
    let mut panic_label = "Panic at ".to_owned();
    text::push_dec(&mut panic_label, panic_c as u64);
    panic_label.append(" C");
    let mut panic_hint = "above ".to_owned();
    text::push_dec(&mut panic_hint, panic_c as u64);
    panic_hint.append(" C the reading skips smoothing");
    let pane = Editing {
        reading_c: match reading {
            Some((temp_c, _)) => Some(temp_c),
            None => None,
        },
        demand_rpm: match reading {
            Some((_, rpm)) => Some(rpm),
            None => None,
        },
        name: match &state.name_draft {
            Some(draft) => draft.clone(),
            None => curve.name.clone(),
        },
        chosen: stands_at(state, &curve.sensor),
        panic_c,
        panic_label,
        panic_hint,
    };
    proof {
        assert(config@.curves[state.selected as int] == curve@);
        assert(pane@ =~= editing(state@, config@));
    }
    EditorPane::Editing(pane)
}

// ---------------------------------------------------------------------------
// The gears

/// The pane the stored speeds are edited in.
#[derive(Debug)]
pub enum GearsPane {
    /// The table is on its way.
    Reading,
    /// There is none: the cooler answers this one itself, so it has to be
    /// connected.
    Missing,
    Table(Vec<GearRow>),
}

/// One stored speed.
#[derive(Debug)]
pub struct GearRow {
    pub label: String,
    pub speed: String,
    /// Where its slider stands.
    pub slider: u16,
}

#[verifier::ext_equal]
pub struct GearRowView {
    pub label: Seq<char>,
    pub speed: Seq<char>,
    pub slider: u16,
}

impl View for GearRow {
    type V = GearRowView;

    open spec fn view(&self) -> GearRowView {
        GearRowView { label: self.label@, speed: self.speed@, slider: self.slider }
    }
}

pub open spec fn gear_row_views(rows: Seq<GearRow>) -> Seq<GearRowView> {
    Seq::new(rows.len(), |i: int| rows[i]@)
}

pub open spec fn gear_row(gear: ipc::GearView, ceiling: u16) -> GearRowView {
    GearRowView {
        label: gear.name + (if gear.allowed {
            Seq::empty()
        } else {
            "  needs more power"@
        }),
        speed: text::dec(gear.rpm as nat) + " rpm"@,
        slider: if gear.rpm < ceiling {
            gear.rpm
        } else {
            ceiling
        },
    }
}

pub fn gears_pane(state: &State) -> (pane: GearsPane)
    ensures
        if state@.gears.len() == 0 {
            if state@.pending > 0 {
                pane is Reading
            } else {
                pane is Missing
            }
        } else {
            pane matches GearsPane::Table(rows) && gear_row_views(rows@) == Seq::new(
                state@.gears.len(),
                |i: int| gear_row(state@.gears[i], state@.ceiling()),
            )
        },
{
    if state.gears.len() == 0 {
        return if state.busy() {
            GearsPane::Reading
        } else {
            GearsPane::Missing
        };
    }
    let ceiling = state.ceiling();
    let ghost all = ipc::gear_views(state.gears@);
    let mut rows: Vec<GearRow> = Vec::new();
    let mut i: usize = 0;
    while i < state.gears.len()
        invariant
            i <= state.gears@.len(),
            all == ipc::gear_views(state.gears@),
            rows@.len() == i,
            forall|k: int| 0 <= k < i ==> (#[trigger] rows@[k])@ == gear_row(all[k], ceiling),
        decreases state.gears@.len() - i,
    {
        let gear = &state.gears[i];
        let mut label = gear.name.clone();
        if !gear.allowed {
            label.append("  needs more power");
        }
        let one = GearRow {
            label,
            speed: rpm_label(gear.rpm),
            slider: if gear.rpm < ceiling {
                gear.rpm
            } else {
                ceiling
            },
        };
        proof {
            assert(all[i as int] == gear@);
            assert(one@ =~= gear_row(all[i as int], ceiling));
        }
        rows.push(one);
        i += 1;
    }
    proof {
        assert(gear_row_views(rows@) =~= Seq::new(
            all.len(),
            |i: int| gear_row(all[i], ceiling),
        ));
    }
    GearsPane::Table(rows)
}

// ---------------------------------------------------------------------------
// The light

/// What the strip is doing, in words. Nothing can be asked what pattern it is
/// playing, so when the daemon has not set one this session, that is said
/// instead of inventing it.
pub open spec fn light_line(status: Option<ipc::StatusView>) -> Seq<char> {
    match status {
        Some(status) => match (status.lighting, status.strip_on) {
            (Some(showing), _) => "showing "@ + showing.label(),
            (None, Some(true)) => "lit, pattern set before this session"@,
            (None, Some(false)) => "strip is off"@,
            (None, None) => "unknown"@,
        },
        None => "unknown"@,
    }
}

/// A percentage with spaces in front up to three places.
pub open spec fn percent_words(brightness: u8) -> Seq<char> {
    (if brightness < 10 {
        "  "@
    } else if brightness < 100 {
        " "@
    } else {
        Seq::empty()
    }) + text::dec(brightness as nat) + "%"@
}

/// A colour in words.
pub open spec fn color_words(color: Rgb) -> Seq<char> {
    "#"@ + text::hex2(color.r) + text::hex2(color.g) + text::hex2(color.b)
}

/// The pane the lighting is edited in.
#[derive(Debug)]
pub struct LightPane {
    pub line: String,
    /// The colour of the swatch, while the draft is one.
    pub swatch: Option<Rgb>,
    /// The picked colour.
    pub picked: String,
    pub brightness: String,
    pub follow_screens: bool,
}

pub fn light_pane(state: &State, picked: Rgb) -> (pane: LightPane)
    ensures
        pane.line@ == light_line(state@.status),
        pane.swatch == (match state@.light.mode {
            LightMode::Static { color } => Some(color),
            _ => None,
        }),
        pane.picked@ == color_words(picked),
        pane.brightness@ == percent_words(state@.light.brightness),
        pane.follow_screens == (match state@.config {
            Some(config) => config.lights_follow_screens,
            None => false,
        }),
{
    let line = match &state.status {
        Some(status) => match (status.lighting, status.strip_on) {
            (Some(showing), _) => text::joined("showing ", showing.to_string().as_str()),
            (None, Some(true)) => "lit, pattern set before this session".to_owned(),
            (None, Some(false)) => "strip is off".to_owned(),
            (None, None) => "unknown".to_owned(),
        },
        None => "unknown".to_owned(),
    };
    let swatch = match state.light.mode {
        LightMode::Static { color } => Some(color),
        _ => None,
    };
    let mut words = "#".to_owned();
    text::push_hex2(&mut words, picked.r);
    text::push_hex2(&mut words, picked.g);
    text::push_hex2(&mut words, picked.b);
    let mut brightness = String::new();
    if state.light.brightness < 10 {
        brightness.append("  ");
    } else if state.light.brightness < 100 {
        brightness.append(" ");
    }
    text::push_dec(&mut brightness, state.light.brightness as u64);
    brightness.append("%");
    proof {
        assert(brightness@ =~= percent_words(state@.light.brightness));
    }
    LightPane {
        line,
        swatch,
        picked: words,
        brightness,
        follow_screens: match &state.config {
            Some(config) => config.lights_follow_screens,
            None => false,
        },
    }
}

/// Is a mode marked as the one in use? Marked from the draft rather than from
/// the status: lighting takes the cooler the best part of a second, and a button
/// that only lights up once that is over reads as a click that did nothing.
pub fn mode_marked(state: &State, mode: LightMode) -> (r: bool)
    ensures
        r == (state@.light.mode == mode),
{
    state.light.mode == mode
}

// ---------------------------------------------------------------------------
// The rest

/// Is it worth saying that changes will not last?
pub fn unsaved(state: &State) -> (r: bool)
    ensures
        r == (state@.config is Some && !state@.writable),
{
    state.config.is_some() && !state.writable
}

/// A key, as far as it matters.
#[derive(Debug)]
pub enum Key {
    Character(String),
    Undo,
    Redo,
    Other,
}

/// Ctrl+Z and its two usual spellings of redo.
pub fn shortcut(key: &Key, command: bool, shift: bool) -> (r: Option<Message>)
    ensures
        r == (if !command {
            None
        } else {
            match key {
                Key::Character(text) => if text@ == "z"@ {
                    if shift {
                        Some(Message::Redo)
                    } else {
                        Some(Message::Undo)
                    }
                } else if text@ == "y"@ {
                    Some(Message::Redo)
                } else {
                    None
                },
                Key::Undo => Some(Message::Undo),
                Key::Redo => Some(Message::Redo),
                Key::Other => None,
            }
        }),
{
    if !command {
        return None;
    }
    match key {
        Key::Character(text) => {
            if text::same(text.as_str(), "z") {
                if shift {
                    Some(Message::Redo)
                } else {
                    Some(Message::Undo)
                }
            } else if text::same(text.as_str(), "y") {
                Some(Message::Redo)
            } else {
                None
            }
        },
        Key::Undo => Some(Message::Undo),
        Key::Redo => Some(Message::Redo),
        Key::Other => None,
    }
}

// ---------------------------------------------------------------------------
// What the window shows is what there is

/// Without a daemon the window says where nothing answers, without a cooler that
/// there is none, and otherwise the speed the fan runs at and the one it was
/// told, in that order.
pub proof fn law_the_speed_card_says_what_is_known(
    status: ipc::StatusView,
    socket: Seq<char>,
    current: u16,
    target: u16,
)
    requires
        status.current_rpm == Some(current),
        status.target_rpm == Some(target),
    ensures
        speed(None, socket) matches SpeedCardView::NoDaemon { detail } && text::ends(
            detail,
            socket,
        ),
        !status.connected ==> speed(Some(status), socket) is NoCooler,
        status.connected ==> (speed(Some(status), socket) matches SpeedCardView::Running {
            model,
            current: now,
            target: told,
            ..
        } && model == status.model && text::begins(now, text::dec(current as nat)) && text::ends(
            told,
            text::dec(target as nat) + " rpm"@,
        )),
{
    text::law_joined_texts_begin_and_end("Nothing answering on "@, socket, socket);
    text::law_joined_texts_begin_and_end(text::dec(current as nat), " rpm"@, socket);
    text::law_joined_texts_begin_and_end(
        "target "@,
        text::dec(target as nat) + " rpm"@,
        socket,
    );
}

/// What leads is a person before any curve, and the curve that leads by name.
pub proof fn law_the_leader_is_named(status: ipc::StatusView)
    ensures
        status.manual ==> leading_line(status) == "held by hand"@,
        !status.manual ==> (status.leading matches Some(name) ==> text::ends(
            leading_line(status),
            name,
        ) && text::begins(leading_line(status), "led by "@)),
        !status.manual && status.leading is None ==> leading_line(status) == "no reading yet"@,
        status.supply is None || status.supply_max_rpm is None ==> supply_line(status)
            == "supply unknown"@,
        status.supply matches Some(supply) ==> status.supply_max_rpm matches Some(max)
            ==> supply_line(status) == "supply "@ + supply + ", up to "@ + text::dec(max as nat)
            + " rpm"@,
{
    if let Some(name) = status.leading {
        text::law_joined_texts_begin_and_end("led by "@, name, name);
    }
}

/// The speed held by hand is shown as it was last asked for, and as the daemon
/// has it when nothing is on its way.
pub proof fn law_what_was_asked_for_is_shown(state: gui::StateView, rpm: Option<u16>)
    ensures
        state.manual_intent == Some(rpm) ==> manual(state) == rpm,
        state.manual_intent is None && state.status is None ==> manual(state) is None,
        state.manual_intent is None ==> (state.status matches Some(status) ==> manual(state)
            == status.manual_rpm),
{
}

/// A curve's reading is looked up by its name, and the first of that name is
/// taken; none is shown only where none is of that name.
pub proof fn law_readings_are_looked_up_by_name(
    demands: Seq<curve::DemandView>,
    name: Seq<char>,
    i: int,
)
    ensures
        demand_of(demands, name) is None && 0 <= i < demands.len() ==> demands[i].name != name,
        demand_of(demands, name) matches Some(demand) ==> demand.name == name && demands.contains(
            demand,
        ),
    decreases demands.len(),
{
    if demands.len() > 0 {
        if demands[0].name == name {
            assert(demands.contains(demands[0]));
        } else {
            let rest = demands.drop_first();
            law_readings_are_looked_up_by_name(rest, name, i - 1);
            if demand_of(demands, name) is None && 0 < i < demands.len() {
                assert(rest[i - 1] == demands[i]);
            }
            if let Some(demand) = demand_of(rest, name) {
                let k = choose|k: int| 0 <= k < rest.len() && rest[k] == demand;
                assert(demands[k + 1] == demand);
            }
        }
    }
}

/// A row of the list is called like its curve runs, says what that curve reads
/// and asks for, and is marked when it is being edited and when it leads.
pub proof fn law_rows_are_of_their_curves(
    state: gui::StateView,
    config: config::ConfigView,
    i: int,
)
    requires
        0 <= i < config.curves.len(),
    ensures
        ({
            let shown = row(state, config, i);
            &&& shown.name == curve::described(config.curves[i], i as nat)
            &&& shown.selected <==> i == state.selected
            &&& shown.leading <==> (state.status is Some && state.status->0.leading == Some(
                shown.name,
            ))
            &&& reading_of(state.status, shown.name) is None ==> shown.detail == "no reading"@
            &&& reading_of(state.status, shown.name) matches Some(demand) ==> text::begins(
                shown.detail,
                text::dec(demand.temp_c as nat) + " C"@,
            ) && text::ends(shown.detail, text::dec(demand.rpm as nat) + " rpm"@)
        }),
{
    let shown = row(state, config, i);
    if let Some(demand) = reading_of(state.status, shown.name) {
        let temp = text::dec(demand.temp_c as nat);
        let rpm = text::dec(demand.rpm as nat) + " rpm"@;
        reveal_strlit(" C");
        reveal_strlit(" C  ->  ");
        let rest = " C  ->  "@.skip(2);
        assert(" C  ->  "@ =~= " C"@ + rest);
        assert(shown.detail =~= (temp + " C"@) + (rest + rpm));
        assert(shown.detail =~= (temp + " C  ->  "@) + rpm);
        text::law_joined_texts_begin_and_end(temp + " C"@, rest + rpm, rpm);
        text::law_joined_texts_begin_and_end(temp + " C  ->  "@, rpm, rpm);
    }
}

/// The picker stands at the entry for the very sensor of the curve; a sensor
/// without one is shown all the same, and marked where the machine has no such
/// thing.
pub proof fn law_the_picker_stands_at_the_sensor(
    state: gui::StateView,
    sensor: config::SensorView,
    i: int,
)
    ensures
        chosen(state, sensor).sensor == sensor,
        listed(state.sensors, sensor) is None && 0 <= i < state.sensors.len()
            ==> state.sensors[i].sensor != sensor,
        listed(state.sensors, sensor) is Some ==> state.sensors.contains(chosen(state, sensor)),
        listed(state.sensors, sensor) is None && !choices::exists_for(state.available, sensor)
            ==> text::ends(chosen(state, sensor).label, " (missing)"@),
        listed(state.sensors, sensor) is None && choices::exists_for(state.available, sensor)
            ==> chosen(state, sensor).label == sensor_words(sensor),
{
    lemma_listed(state.sensors, sensor, i);
    text::law_joined_texts_begin_and_end(sensor_words(sensor), " (missing)"@, sensor.hwmon);
    assert(sensor_words(sensor) + Seq::<char>::empty() =~= sensor_words(sensor));
}

proof fn lemma_listed(sensors: Seq<choices::ChoiceView>, sensor: config::SensorView, i: int)
    ensures
        listed(sensors, sensor) is None && 0 <= i < sensors.len() ==> sensors[i].sensor != sensor,
        listed(sensors, sensor) matches Some(choice) ==> choice.sensor == sensor
            && sensors.contains(choice),
    decreases sensors.len(),
{
    if sensors.len() > 0 {
        if sensors[0].sensor == sensor {
            assert(sensors.contains(sensors[0]));
        } else {
            let rest = sensors.drop_first();
            lemma_listed(rest, sensor, i - 1);
            if listed(sensors, sensor) is None && 0 < i < sensors.len() {
                assert(rest[i - 1] == sensors[i]);
            }
            if let Some(choice) = listed(rest, sensor) {
                let k = choose|k: int| 0 <= k < rest.len() && rest[k] == choice;
                assert(sensors[k + 1] == choice);
            }
        }
    }
}

/// The pane a curve is edited in shows that curve: what it reads, what it asks
/// for, its name or what is being typed, its sensor, and its own panic threshold
/// or the one for all.
pub proof fn law_the_pane_is_of_the_edited_curve(
    state: gui::StateView,
    config: config::ConfigView,
)
    requires
        state.selected < config.curves.len(),
    ensures
        ({
            let pane = editing(state, config);
            let curve = config.curves[state.selected as int];
            let reading = reading_of(
                state.status,
                curve::described(curve, state.selected as nat),
            );
            &&& curve.panic_c matches Some(panic_c) ==> pane.panic_c == panic_c
            &&& curve.panic_c is None ==> pane.panic_c == config.smoothing.panic_c
            &&& state.name_draft is None ==> pane.name == curve.name
            &&& state.name_draft matches Some(draft) ==> pane.name == draft
            &&& pane.chosen.sensor == curve.sensor
            &&& reading is None ==> pane.reading_c is None && pane.demand_rpm is None
            &&& reading matches Some(demand) ==> pane.reading_c == Some(demand.temp_c)
                && pane.demand_rpm == Some(demand.rpm)
            &&& pane.panic_label == "Panic at "@ + text::dec(pane.panic_c as nat) + " C"@
        }),
{
    law_the_picker_stands_at_the_sensor(
        state,
        config.curves[state.selected as int].sensor,
        0,
    );
}

/// A gear is shown by its name, with a remark where it needs more power, and its
/// slider stands at its speed as far as the supply allows.
pub proof fn law_gear_rows_are_of_their_gears(gear: ipc::GearView, ceiling: u16)
    ensures
        text::begins(gear_row(gear, ceiling).label, gear.name),
        gear_row(gear, ceiling).label == gear.name <==> gear.allowed,
        gear_row(gear, ceiling).slider <= ceiling,
        gear.rpm <= ceiling ==> gear_row(gear, ceiling).slider == gear.rpm,
        gear.rpm > ceiling ==> gear_row(gear, ceiling).slider == ceiling,
        gear_row(gear, ceiling).speed == text::dec(gear.rpm as nat) + " rpm"@,
{
    let remark = if gear.allowed {
        Seq::<char>::empty()
    } else {
        "  needs more power"@
    };
    reveal_strlit("  needs more power");
    text::law_joined_texts_begin_and_end(gear.name, remark, remark);
    if gear.allowed {
        assert(gear.name + remark =~= gear.name);
    } else {
        assert((gear.name + remark).len() > gear.name.len());
    }
}

/// The strip is said to show what was set, and otherwise only whether it is lit.
pub proof fn law_the_light_line_invents_nothing(status: ipc::StatusView)
    ensures
        status.lighting matches Some(showing) ==> light_line(Some(status)) == "showing "@
            + showing.label(),
        status.lighting is None && status.strip_on == Some(true) ==> light_line(Some(status))
            == "lit, pattern set before this session"@,
        status.lighting is None && status.strip_on == Some(false) ==> light_line(Some(status))
            == "strip is off"@,
        status.lighting is None && status.strip_on is None ==> light_line(Some(status))
            == "unknown"@,
        light_line(None) == "unknown"@,
{
}

/// A colour in words reads back as the colour.
pub proof fn law_colour_words_read_back(color: Rgb)
    ensures
        crate::lighting::exact_color(color_words(color)) == Some(color),
{
    let digits = text::hex2(color.r) + text::hex2(color.g) + text::hex2(color.b);
    reveal_strlit("#");
    crate::lighting::law_colours_read_back(color, Seq::empty());
    assert(color_words(color) =~= seq!['#'] + digits);
}

/// A slider stands at its speed as far as the ceiling allows, and at the ceiling
/// beyond that.
pub proof fn law_sliders_stop_at_the_ceiling(rpm: u16, ceiling: u16)
    ensures
        slider(rpm, ceiling) <= ceiling,
        slider(rpm, ceiling) <= rpm,
        slider(rpm, ceiling) == rpm || slider(rpm, ceiling) == ceiling,
{
}

} // verus!
