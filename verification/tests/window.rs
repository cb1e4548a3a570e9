use flydigictl::choices::{sensor_choices, sensor_exists, SensorChoice};
use flydigictl::client;
use flydigictl::client::{Call, Client, Expected, Next, Unreachable};
use flydigictl::config::{Config, Curve, Kind, Point, Sensor};
use flydigictl::curve::Demand;
use flydigictl::editor;
use flydigictl::editor::{Action, Aim, Editor, Grabbed, Interaction, Pointer};
use flydigictl::gui::{Answer, Effect, Message, State, Tab, HISTORY, NOTE_LIFE};
use flydigictl::ipc::{Gear, Reply, Request, SensorInfo, Status, Warning, WarningCode};
use flydigictl::panes;
use flydigictl::panes::{EditorPane, GearsPane, Key, SpeedCard};
use flydigictl::picker::{Held, Outcome, Press};
use flydigictl::protocol::{LightMode, Lighting, Rgb, Standby};

fn info(kind: Kind, hwmon: &str, device: &str, kernel: &str, label: &str) -> SensorInfo {
    SensorInfo {
        kind,
        hwmon: hwmon.to_string(),
        device: device.to_string(),
        kernel: kernel.to_string(),
        label: label.to_string(),
        temp_c: None,
    }
}

fn machine() -> Vec<SensorInfo> {
    vec![
        info(Kind::Hwmon, "nvme", "0000:05:00.0", "nvme0", "Composite"),
        info(Kind::Hwmon, "nvme", "0000:02:00.0", "nvme1", "Sensor 1"),
        info(Kind::Hwmon, "nvme", "0000:02:00.0", "nvme1", "Composite"),
        info(Kind::Hwmon, "k10temp", "0000:00:18.3", "k", ""),
        info(Kind::Hwmon, "k10temp", "0000:00:18.3", "k", "Tctl"),
        info(Kind::Nvidia, "nvidia", "0000:01:00.0", "active", "core"),
        info(Kind::Nvidia, "nvidia", "0000:01:00.0", "active", "memory"),
    ]
}

#[test]
fn every_chip_is_offered_once_and_in_order() {
    let choices = sensor_choices(&machine());
    let shown: Vec<(String, &str, &str, &str)> = choices
        .iter()
        .map(|choice| {
            (
                choice.to_string(),
                choice.sensor.hwmon.as_str(),
                choice.sensor.device.as_str(),
                choice.sensor.label.as_str(),
            )
        })
        .collect();
    let expected: Vec<(String, &str, &str, &str)> = [
        ("k10temp (hottest)", "k10temp", "", ""),
        ("k10temp/Tctl", "k10temp", "", "Tctl"),
        ("nvidia (hottest)", "nvidia", "", ""),
        ("nvidia/core", "nvidia", "", "core"),
        ("nvidia/memory", "nvidia", "", "memory"),
        ("nvme (all, hottest)", "nvme", "", ""),
        ("nvme (all)/Composite", "nvme", "", "Composite"),
        ("nvme (all)/Sensor 1", "nvme", "", "Sensor 1"),
        ("nvme 02:00.0 (hottest)", "nvme", "0000:02:00.0", ""),
        ("nvme 02:00.0/Sensor 1", "nvme", "0000:02:00.0", "Sensor 1"),
        ("nvme 02:00.0/Composite", "nvme", "0000:02:00.0", "Composite"),
        ("nvme 05:00.0 (hottest)", "nvme", "0000:05:00.0", ""),
        ("nvme 05:00.0/Composite", "nvme", "0000:05:00.0", "Composite"),
    ]
    .iter()
    .map(|(label, hwmon, device, input)| (label.to_string(), *hwmon, *device, *input))
    .collect();
    assert_eq!(shown, expected);
    assert_eq!(choices[2].sensor.kind, Kind::Nvidia);
    assert!(choices.iter().all(|c| sensor_exists(&machine(), &c.sensor)));
    assert!(sensor_choices(&Vec::new()).is_empty());
}

#[test]
fn every_input_is_offered_and_only_spread_chips_by_device() {
    let machine = machine();
    let choices = sensor_choices(&machine);
    let offered = |hwmon: &str, device: &str, label: &str| {
        choices.iter().any(|choice| {
            choice.sensor.hwmon == hwmon
                && choice.sensor.device == device
                && choice.sensor.label == label
        })
    };

    for input in &machine {
        let spread = machine
            .iter()
            .any(|other| other.hwmon == input.hwmon && other.device != input.device);
        assert!(offered(&input.hwmon, "", ""));
        assert!(input.label.is_empty() || offered(&input.hwmon, "", &input.label));
        assert_eq!(offered(&input.hwmon, &input.device, ""), spread);
        if !input.label.is_empty() {
            assert_eq!(offered(&input.hwmon, &input.device, &input.label), spread);
        }
    }
    assert!(choices
        .windows(2)
        .all(|pair| pair[0].sensor.hwmon <= pair[1].sensor.hwmon));
}

fn sensor(hwmon: &str, device: &str, label: &str) -> Sensor {
    Sensor {
        kind: Kind::Hwmon,
        hwmon: hwmon.to_string(),
        device: device.to_string(),
        label: label.to_string(),
    }
}

#[test]
fn a_sensor_exists_as_the_daemon_would_match_it() {
    let machine = machine();
    assert!(sensor_exists(&machine, &sensor("nvme", "", "")));
    assert!(sensor_exists(&machine, &sensor("nvme", "nvme0", "Composite")));
    assert!(!sensor_exists(&machine, &sensor("nvme", "nvme0", "Sensor 1")));
    assert!(!sensor_exists(&machine, &sensor("spd5118", "", "")));
}

fn point(temp_c: u8, rpm: u16) -> Point {
    Point { temp_c, rpm }
}

fn curve(name: &str) -> Curve {
    Curve {
        name: name.to_string(),
        sensor: sensor("k10temp", "", "Tctl"),
        points: vec![point(40, 500), point(80, 2500)],
        panic_c: None,
    }
}

fn config() -> Config {
    Config {
        curves: vec![curve("cpu"), curve("ram")],
        ..Config::default()
    }
}

/// A window with a config, and nothing under way.
fn window() -> State {
    let (mut state, effects) = State::new(0);
    assert!(matches!(effects[..], [Effect::GetConfig, Effect::GetSensors]));
    assert!(state.busy());
    state.update(Message::Done(Answer::Config(Ok((config(), true)))), 0);
    state.update(Message::Done(Answer::Sensors(Ok(machine()))), 0);
    assert!(!state.busy());
    state
}

fn sent(effects: Vec<Effect>) -> Config {
    match effects.into_iter().next() {
        Some(Effect::SetConfig { config }) => config,
        other => panic!("{other:?}"),
    }
}

fn points(state: &State) -> Vec<Point> {
    state.config.as_ref().unwrap().curves[state.selected]
        .points
        .clone()
}

#[test]
fn a_config_answer_is_taken_in() {
    let (mut state, _) = State::new(0);
    state.selected = 5;
    state.update(Message::Done(Answer::Config(Ok((config(), true)))), 0);
    assert_eq!(state.selected, 1);
    assert!(state.writable);
    assert_eq!(state.committed, Some(config()));
    state.update(
        Message::Done(Answer::Config(Err("daemon is not running".to_string()))),
        7,
    );
    let note = state.note.as_ref().unwrap();
    assert_eq!((note.text.as_str(), note.said), ("daemon is not running", 7));
    assert_eq!(state.working_since, None);
}

#[test]
fn points_are_added_moved_and_removed() {
    let mut state = window();
    let config = sent(state.update(Message::PointAdded(point(60, 900)), 0));
    let all = vec![point(40, 500), point(60, 900), point(80, 2500)];
    assert_eq!(config.curves[0].points, all);
    assert_eq!(state.history.len(), 1);

    // A drag keeps its order and is sent once, when it is over.
    assert!(state
        .update(
            Message::PointMoved {
                index: 0,
                point: point(70, 700)
            },
            0
        )
        .is_empty());
    assert_eq!(points(&state)[0], point(70, 700));
    assert!(state
        .update(
            Message::PointMoved {
                index: 9,
                point: point(1, 1)
            },
            0
        )
        .is_empty());
    let config = sent(state.update(Message::PointsSettled, 0));
    assert_eq!(
        config.curves[0].points,
        [point(60, 900), point(70, 700), point(80, 2500)]
    );

    let config = sent(state.update(Message::Undo, 0));
    assert_eq!(config.curves[0].points, all);
    let config = sent(state.update(Message::Redo, 0));
    assert_eq!(config.curves[0].points[1], point(70, 700));

    for _ in 0..5 {
        state.update(Message::PointRemoved(0), 0);
    }
    assert_eq!(points(&state), [point(80, 2500)]);
}

#[test]
fn undo_and_redo_take_each_other_back() {
    let mut state = window();
    let before = state.config.clone();
    assert!(state.update(Message::Undo, 0).is_empty());
    state.update(Message::CurveAdded, 0);
    assert_eq!(state.selected, 2);
    let after = state.config.clone();
    assert_ne!(before, after);

    sent(state.update(Message::Undo, 0));
    assert_eq!(state.config, before);
    assert_eq!(state.selected, 1);
    sent(state.update(Message::Redo, 0));
    assert_eq!(state.config, after);
    assert!(state.update(Message::Redo, 0).is_empty());

    // A new change after an undo leaves nothing to redo.
    state.update(Message::Undo, 0);
    state.update(Message::FollowScreensToggled(true), 0);
    assert!(state.update(Message::Redo, 0).is_empty());
}

#[test]
fn history_reaches_back_so_far() {
    let mut state = window();
    for i in 0..100u8 {
        state.update(Message::CurvePanicChanged(i), 0);
        state.update(Message::CurvePanicCommitted, 0);
    }
    assert_eq!(state.history.len(), HISTORY);
    let mut undone = 0;
    while !state.update(Message::Undo, 0).is_empty() {
        undone += 1;
    }
    assert_eq!(undone, HISTORY);
    let panic_c = state.config.as_ref().unwrap().curves[0].panic_c;
    assert_eq!(panic_c, Some(35));

    // Sending the same again is nothing to undo.
    let mut state = window();
    sent(state.update(Message::CurvePanicCommitted, 0));
    assert!(state.history.is_empty());
}

#[test]
fn curves_are_added_named_and_removed() {
    let mut state = window();
    let config = sent(state.update(Message::CurveAdded, 0));
    let added = &config.curves[2];
    assert_eq!(added.name, "");
    assert_eq!(added.sensor, state.sensors[0].sensor);
    assert_eq!(added.points, [point(50, 500), point(80, 2600)]);

    state.update(Message::CurveRenamed("  gpu ".to_string()), 0);
    let config = sent(state.update(Message::CurveNameCommitted, 0));
    assert_eq!(config.curves[2].name, "gpu");
    assert!(state.update(Message::CurveNameCommitted, 0).is_empty());

    let choice = SensorChoice {
        label: "x".to_string(),
        sensor: sensor("nvme", "", ""),
    };
    let config = sent(state.update(Message::CurveSensorPicked(choice), 0));
    assert_eq!(config.curves[2].sensor.hwmon, "nvme");

    sent(state.update(Message::CurveRemoved, 0));
    assert_eq!(state.selected, 1);
    state.update(Message::CurveSelected(0), 0);
    sent(state.update(Message::CurveRemoved, 0));
    let config = sent(state.update(Message::CurveRemoved, 0));
    assert_eq!(config.curves.len(), 1);
    assert_eq!(config.curves[0].name, "ram");
}

#[test]
fn without_a_config_nothing_is_sent() {
    let mut state = window();
    state.update(Message::Offline, 0);
    assert!(state.config.is_none());
    for message in [
        Message::PointAdded(point(1, 1)),
        Message::PointsSettled,
        Message::CurveAdded,
        Message::CurveRemoved,
        Message::FollowScreensToggled(true),
        Message::ExportConfig,
    ] {
        assert!(state.update(message, 0).is_empty());
    }
}

fn status() -> Status {
    Status {
        model: "BS3 Pro".to_string(),
        connected: true,
        current_rpm: Some(1100),
        target_rpm: Some(2826),
        supply: Some("medium".to_string()),
        supply_max_rpm: Some(3300),
        leading: Some("ram".to_string()),
        demands: vec![Demand {
            name: "ram".to_string(),
            temp_c: 49,
            smoothed_c: 49,
            rpm: 2826,
            panic: false,
        }],
        ..Status::disconnected()
    }
}

#[test]
fn the_first_status_brings_the_lighting_along() {
    let (mut state, _) = State::new(0);
    let color = Rgb { r: 1, g: 2, b: 3 };
    let lighting = Lighting {
        mode: LightMode::Static { color },
        brightness: 40,
        indicators: false,
    };
    let live = || Status {
        lighting: Some(lighting),
        ..status()
    };
    match &state.update(Message::Live(live()), 0)[..] {
        [Effect::Pick { color: picked }, Effect::GetConfig, Effect::GetSensors] => {
            assert_eq!(*picked, color)
        }
        other => panic!("{other:?}"),
    }
    assert_eq!(state.light, lighting);
    state.light.brightness = 90;
    assert!(state.update(Message::Live(live()), 0).is_empty());
    assert_eq!(state.light.brightness, 90);
}

#[test]
fn a_speed_is_held_by_hand() {
    let mut state = window();
    state.update(Message::Live(status()), 0);
    match state.update(Message::ManualToggled(true), 0)[..] {
        [Effect::SetManual { rpm }] => assert_eq!(rpm, Some(2826)),
        ref other => panic!("{other:?}"),
    }
    assert_eq!(panes::manual_card(&state), Some((2826, 2826)));

    // The draft holds until the daemon says the same.
    assert!(state.update(Message::ManualChanged(3900), 0).is_empty());
    assert_eq!(panes::manual_card(&state), Some((3900, 3300)));
    match state.update(Message::ManualCommitted, 0)[..] {
        [Effect::SetManual { rpm }] => assert_eq!(rpm, Some(3900)),
        ref other => panic!("{other:?}"),
    }
    state.update(Message::Live(status()), 0);
    assert_eq!(state.manual_intent, Some(Some(3900)));
    let held = Status {
        manual_rpm: Some(3900),
        ..status()
    };
    state.update(Message::Live(held), 0);
    assert_eq!(state.manual_intent, None);

    match state.update(Message::ManualToggled(false), 0)[..] {
        [Effect::SetManual { rpm: None }] => {}
        ref other => panic!("{other:?}"),
    }
    assert!(state.update(Message::ManualCommitted, 0).is_empty());

    // Where the slider starts from when there is nothing to go by, or too much.
    for (target, expected) in [(None, 500), (Some(100), 500), (Some(3999), 3300)] {
        let odd = Status {
            target_rpm: target,
            ..status()
        };
        state.update(Message::Live(odd), 0);
        match state.update(Message::ManualToggled(true), 0)[..] {
            [Effect::SetManual { rpm }] => assert_eq!(rpm, Some(expected)),
            ref other => panic!("{other:?}"),
        }
    }
}

#[test]
fn one_lighting_request_is_out_at_a_time() {
    let mut state = window();
    let lights = |effects: Vec<Effect>| match effects[..] {
        [Effect::SetLighting { lighting }] => Some(lighting),
        [] => None,
        ref other => panic!("{other:?}"),
    };
    state.update(Message::BrightnessChanged(10), 0);
    let first = lights(state.update(Message::BrightnessCommitted, 0)).unwrap();
    assert_eq!(first.brightness, 10);

    state.update(Message::BrightnessChanged(20), 0);
    assert!(lights(state.update(Message::BrightnessCommitted, 0)).is_none());
    assert!(lights(state.update(Message::IndicatorsToggled(false), 0)).is_none());
    let next = lights(state.update(Message::Done(Answer::Light(Ok(None))), 0)).unwrap();
    assert_eq!(next.brightness, 20);
    assert!(!next.indicators);
    assert!(lights(state.update(Message::Done(Answer::Light(Ok(None))), 0)).is_none());
    assert!(!state.lighting_out);

    let color = Rgb { r: 9, g: 8, b: 7 };
    match state.update(Message::ModePicked(LightMode::Static { color }), 0)[..] {
        [Effect::Pick { color: picked }, Effect::SetLighting { lighting }] => {
            assert_eq!(picked, color);
            assert_eq!(lighting.mode, LightMode::Static { color });
        }
        ref other => panic!("{other:?}"),
    }
    state.update(Message::Done(Answer::Light(Ok(None))), 0);
    state.update(Message::ColorPicked(Rgb { r: 0, g: 0, b: 0 }), 0);
    assert!(lights(state.update(Message::ColorCommitted, 0)).is_some());
}

#[test]
fn notes_say_what_is_worth_saying() {
    let mut state = window();
    let warn = |code: WarningCode| {
        Message::Done(Answer::Acked(Ok(Some(Warning {
            code,
            message: "caveat".to_string(),
        }))))
    };
    let said = |state: &State| state.note.as_ref().map(|note| note.text.clone());

    state.update(warn(WarningCode::SupplyLimited), 100);
    assert_eq!(said(&state).as_deref(), Some("caveat"));
    assert!(state.animated());
    state.update(warn(WarningCode::ConfigReadOnly), 100);
    assert_eq!(said(&state), None);
    state.update(Message::Done(Answer::Acked(Err("no cooler".to_string()))), 100);
    assert_eq!(said(&state).as_deref(), Some("no cooler"));
    state.update(Message::Ticked, 100 + NOTE_LIFE - 1);
    assert!(said(&state).is_some());
    state.update(Message::Ticked, 100 + NOTE_LIFE);
    assert_eq!(said(&state), None);
    assert!(!state.animated());

    state.exported(Ok(()), 5);
    assert_eq!(said(&state).as_deref(), Some("Configuration copied as TOML"));
    state.exported(Err("odd".to_string()), 5);
    assert_eq!(said(&state).as_deref(), Some("odd"));
}

fn gear(name: &str, rpm: u16, allowed: bool) -> Gear {
    Gear {
        name: name.to_string(),
        rpm,
        allowed,
    }
}

#[test]
fn gears_are_read_written_and_read_back() {
    let mut state = window();
    assert!(matches!(panes::gears_pane(&state), GearsPane::Missing));
    assert!(matches!(
        state.update(Message::TabSelected(Tab::Gears), 0)[..],
        [Effect::GetGears]
    ));
    assert!(matches!(panes::gears_pane(&state), GearsPane::Reading));
    state.update(
        Message::Done(Answer::Gears(Ok(vec![
            gear("quiet", 1500, true),
            gear("overclock", 4000, false),
        ]))),
        0,
    );
    state.update(Message::Live(status()), 0);
    match panes::gears_pane(&state) {
        GearsPane::Table(rows) => {
            assert_eq!(rows[0].label, "quiet");
            assert_eq!(rows[0].speed, "1500 rpm");
            assert_eq!(rows[0].slider, 1500);
            assert_eq!(rows[1].label, "overclock  needs more power");
            assert_eq!(rows[1].slider, 3300);
        }
        other => panic!("{other:?}"),
    }

    state.update(Message::GearMoved { index: 0, rpm: 1600 }, 0);
    state.update(Message::GearMoved { index: 7, rpm: 1 }, 0);
    match &state.update(Message::GearCommitted(0), 0)[..] {
        [Effect::SetGear { name, rpm }, Effect::GetGears] => {
            assert_eq!((name.as_str(), *rpm), ("quiet", 1600))
        }
        other => panic!("{other:?}"),
    }
    assert!(state.update(Message::GearCommitted(7), 0).is_empty());
    assert!(state
        .update(Message::TabSelected(Tab::Light), 0)
        .is_empty());
}

#[test]
fn standby_and_reload_go_out() {
    let mut state = window();
    match state.update(Message::StandbySelected(Standby::Instant), 0)[..] {
        [Effect::SetStandby { standby }] => assert_eq!(standby, Standby::Instant),
        ref other => panic!("{other:?}"),
    }
    assert_eq!(
        state.config.as_ref().unwrap().standby,
        Some(Standby::Instant)
    );
    assert!(matches!(
        state.update(Message::Reload, 0)[..],
        [Effect::GetConfig]
    ));
    match &state.update(Message::ExportConfig, 0)[..] {
        [Effect::Export { config }] => assert_eq!(Some(config), state.config.as_ref()),
        other => panic!("{other:?}"),
    }
}

#[test]
fn the_speed_card_says_how_it_is() {
    let (mut state, _) = State::new(0);
    assert_eq!(panes::title(&state), "flydigictl");
    match panes::speed_card(&state, "/run/x.sock") {
        SpeedCard::NoDaemon { detail } => assert_eq!(detail, "Nothing answering on /run/x.sock"),
        other => panic!("{other:?}"),
    }
    state.status = Some(Status::disconnected());
    assert!(matches!(
        panes::speed_card(&state, ""),
        SpeedCard::NoCooler
    ));

    let lines = |state: &State| match panes::speed_card(state, "") {
        SpeedCard::Running {
            model,
            current,
            target,
            leading,
            supply,
        } => [model, current, target, leading, supply],
        other => panic!("{other:?}"),
    };
    state.status = Some(status());
    assert_eq!(panes::title(&state), "BS3 Pro - flydigictl");
    assert_eq!(
        lines(&state),
        [
            "BS3 Pro",
            "1100 rpm",
            "target 2826 rpm",
            "led by ram",
            "supply medium, up to 3300 rpm"
        ]
    );
    state.status = Some(Status {
        manual: true,
        supply_max_rpm: None,
        current_rpm: None,
        target_rpm: None,
        ..status()
    });
    assert_eq!(
        lines(&state),
        ["BS3 Pro", "- rpm", "target -", "held by hand", "supply unknown"]
    );
    state.status = Some(Status {
        leading: None,
        ..status()
    });
    assert_eq!(lines(&state)[3], "no reading yet");
}

#[test]
fn the_curve_list_says_what_each_asks_for() {
    let mut state = window();
    state.update(Message::Live(status()), 0);
    let rows = panes::curve_list(&state).unwrap();
    assert_eq!(rows[0].name, "cpu");
    assert_eq!(rows[0].detail, "no reading");
    assert!(rows[0].selected && !rows[0].leading);
    assert_eq!(rows[1].detail, "49 C  ->  2826 rpm");
    assert!(!rows[1].selected && rows[1].leading);

    state.update(Message::Offline, 0);
    assert!(panes::curve_list(&state).is_none());
    assert!(!panes::unsaved(&state));
}

#[test]
fn the_editor_shows_the_curve_and_its_sensor() {
    let mut state = window();
    state.update(Message::Live(status()), 0);
    state.update(Message::CurveSelected(1), 0);
    let editing = |state: &State| match panes::editor_pane(state) {
        EditorPane::Editing(pane) => pane,
        other => panic!("{other:?}"),
    };
    let pane = editing(&state);
    assert_eq!(pane.reading_c, Some(49));
    assert_eq!(pane.demand_rpm, Some(2826));
    assert_eq!(pane.name, "ram");
    assert_eq!(pane.chosen.label, "k10temp/Tctl");
    assert_eq!(pane.panic_label, "Panic at 90 C");
    assert_eq!(pane.panic_hint, "above 90 C the reading skips smoothing");

    // By hand in a form the list does not offer, and not there at all.
    let pick = |state: &mut State, sensor: Sensor| {
        let choice = SensorChoice {
            label: String::new(),
            sensor,
        };
        state.update(Message::CurveSensorPicked(choice), 0);
    };
    pick(&mut state, sensor("nvme", "nvme0", ""));
    assert_eq!(editing(&state).chosen.label, "nvme, hottest input");
    pick(&mut state, sensor("spd5118", "", "x"));
    assert_eq!(editing(&state).chosen.label, "spd5118/x (missing)");

    state.update(Message::CurveRenamed("dimm".to_string()), 0);
    assert_eq!(editing(&state).name, "dimm");
    state.update(Message::CurveSelected(9), 0);
    assert!(matches!(panes::editor_pane(&state), EditorPane::NoCurve));
    state.update(Message::Offline, 0);
    assert!(matches!(panes::editor_pane(&state), EditorPane::Waiting));

    let mut state = window();
    state.update(Message::Done(Answer::Config(Ok((config(), false)))), 0);
    assert!(panes::unsaved(&state));
}

#[test]
fn the_light_pane_says_what_is_known() {
    let mut state = window();
    let picked = Rgb {
        r: 0x7A,
        g: 0xA2,
        b: 0x07,
    };
    let line = |state: &State| panes::light_pane(state, picked).line;
    assert_eq!(line(&state), "unknown");
    for (lighting, strip_on, expected) in [
        (None, None, "unknown"),
        (None, Some(false), "strip is off"),
        (None, Some(true), "lit, pattern set before this session"),
        (Some(Lighting::default()), Some(true), "showing off"),
    ] {
        state.status = Some(Status {
            lighting,
            strip_on,
            ..status()
        });
        assert_eq!(line(&state), expected);
    }

    for (brightness, expected) in [(5, "  5%"), (50, " 50%"), (100, "100%")] {
        state.light.brightness = brightness;
        assert_eq!(panes::light_pane(&state, picked).brightness, expected);
    }
    let pane = panes::light_pane(&state, picked);
    assert_eq!(pane.picked, "#7aa207");
    assert_eq!(pane.swatch, None);
    assert!(!pane.follow_screens);
    state.light.mode = LightMode::Static { color: picked };
    assert_eq!(panes::light_pane(&state, picked).swatch, Some(picked));
    assert!(panes::mode_marked(&state, LightMode::Static { color: picked }));
    assert!(!panes::mode_marked(&state, LightMode::Off));
}

#[test]
fn shortcuts_undo_and_redo() {
    let z = Key::Character("z".to_string());
    let y = Key::Character("y".to_string());
    assert!(matches!(panes::shortcut(&z, true, false), Some(Message::Undo)));
    assert!(matches!(panes::shortcut(&z, true, true), Some(Message::Redo)));
    assert!(matches!(panes::shortcut(&y, true, false), Some(Message::Redo)));
    assert!(matches!(
        panes::shortcut(&Key::Undo, true, false),
        Some(Message::Undo)
    ));
    assert!(matches!(
        panes::shortcut(&Key::Redo, true, false),
        Some(Message::Redo)
    ));
    assert!(panes::shortcut(&z, false, false).is_none());
    assert!(panes::shortcut(&Key::Character("x".to_string()), true, false).is_none());
    assert!(panes::shortcut(&Key::Other, true, false).is_none());
}

#[test]
fn effects_become_requests() {
    let call = |effect: Effect| Client::call(effect);
    assert!(matches!(
        call(Effect::GetConfig),
        Some(Call {
            request: Request::GetConfig,
            timeout_ms: 500,
            expected: Expected::Config
        })
    ));
    assert!(matches!(
        call(Effect::SetLighting {
            lighting: Lighting::default()
        }),
        Some(Call {
            request: Request::SetLighting { .. },
            timeout_ms: 3000,
            expected: Expected::Light
        })
    ));
    assert!(matches!(
        call(Effect::SetManual { rpm: Some(900) }),
        Some(Call {
            request: Request::SetManual { rpm: Some(900) },
            expected: Expected::Acked,
            ..
        })
    ));
    assert!(call(Effect::Pick {
        color: Rgb { r: 0, g: 0, b: 0 }
    })
    .is_none());
}

#[test]
fn answers_are_what_was_asked_for() {
    let done = || -> Result<Reply, String> { Ok(Reply::Done { warning: None }) };
    assert!(matches!(
        Client::answer(Expected::Acked, done(), "Done"),
        Answer::Acked(Ok(None))
    ));
    assert!(matches!(
        Client::answer(Expected::Light, done(), "Done"),
        Answer::Light(Ok(None))
    ));
    match Client::answer(Expected::Config, done(), "Done") {
        Answer::Config(Err(message)) => assert_eq!(message, "unexpected reply: Done"),
        other => panic!("{other:?}"),
    }
    match Client::answer(Expected::Gears, Err("no cooler".to_string()), "") {
        Answer::Gears(Err(message)) => assert_eq!(message, "no cooler"),
        other => panic!("{other:?}"),
    }
    let listed = Ok(Reply::Sensors { sensors: machine() });
    match Client::answer(Expected::Sensors, listed, "") {
        Answer::Sensors(Ok(sensors)) => assert_eq!(sensors.len(), machine().len()),
        other => panic!("{other:?}"),
    }

    let error = Ok(Reply::Error {
        message: "no cooler".to_string(),
    });
    assert!(matches!(client::received(error), Err(message) if message == "no cooler"));
    assert!(client::received(done()).is_ok());
    assert!(client::answered("{}").is_ok());
    assert_eq!(
        client::answered(" \n"),
        Err("daemon closed the connection".to_string())
    );
    assert_eq!(
        client::connect_fault(Unreachable::NotFound),
        "daemon is not running"
    );
    assert_eq!(
        client::connect_fault(Unreachable::PermissionDenied),
        "no permission for the daemon socket"
    );
    assert_eq!(
        client::connect_fault(Unreachable::Other("refused".to_string())),
        "refused"
    );
    assert_eq!(Client::new("/x.sock".to_string()).socket(), "/x.sock");
}

#[test]
fn a_stream_ends_only_where_it_breaks() {
    match client::next(Ok(Reply::Status(status()))) {
        Next::Update(status) => assert_eq!(status.model, "BS3 Pro"),
        other => panic!("{other:?}"),
    }
    assert!(matches!(
        client::next(Ok(Reply::Done { warning: None })),
        Next::Skip
    ));
    assert!(matches!(client::next(Err("eof".to_string())), Next::End));
    assert!(!client::worth_parsing("\r\n"));
}

#[test]
fn a_point_is_grabbed_dragged_and_let_go() {
    let mut grabbed = Grabbed::default();
    let at = point(60, 900);
    assert_eq!(grabbed.update(Pointer::Pressed(None)), None);
    assert_eq!(grabbed.update(Pointer::Moved(Some(at))), None);
    assert_eq!(grabbed.update(Pointer::Released), None);
    assert_eq!(
        grabbed.update(Pointer::Pressed(Some(Aim {
            nearest: None,
            point: at
        }))),
        Some(Action::Add(at))
    );
    assert_eq!(
        grabbed.update(Pointer::Pressed(Some(Aim {
            nearest: Some(2),
            point: at
        }))),
        Some(Action::Redraw)
    );
    assert!(grabbed.active(None, 2));
    assert_eq!(grabbed.interaction(false, true), Interaction::Grabbing);
    assert_eq!(
        grabbed.update(Pointer::Moved(Some(at))),
        Some(Action::Move {
            index: 2,
            point: at
        })
    );
    assert_eq!(grabbed.update(Pointer::Moved(None)), None);
    assert_eq!(grabbed.update(Pointer::Released), Some(Action::Settle));
    assert_eq!(grabbed.interaction(true, true), Interaction::Grab);
    assert_eq!(grabbed.interaction(false, true), Interaction::Crosshair);
    assert_eq!(grabbed.interaction(false, false), Interaction::Normal);
    assert!(grabbed.active(Some(1), 1));
    assert!(!grabbed.active(None, 1));
    assert_eq!(
        grabbed.update(Pointer::RightPressed(Some(1))),
        Some(Action::Remove(1))
    );
    assert_eq!(grabbed.update(Pointer::RightPressed(None)), None);
}

#[test]
fn the_nearest_point_within_reach_is_taken() {
    let nearest = |distances: &[f32]| {
        editor::nearest(&distances.iter().map(|d| d.to_bits()).collect())
    };
    assert_eq!(nearest(&[30.0, 11.0, 5.5, 5.5, 12.0]), Some(2));
    assert_eq!(nearest(&[12.0]), Some(0));
    assert_eq!(nearest(&[12.000001]), None);
    assert_eq!(nearest(&[f32::NAN, f32::INFINITY]), None);
    assert_eq!(nearest(&[]), None);
}

#[test]
fn no_point_stalls_the_fan() {
    for (rpm, expected) in [
        (0, 0),
        (249, 0),
        (250, 500),
        (499, 500),
        (500, 500),
        (1234, 1234),
    ] {
        assert_eq!(editor::to_point(60, rpm), point(60, expected));
    }
}

#[test]
fn the_graph_is_ruled_and_outlined() {
    let points = [point(80, 2500), point(40, 500)];
    let graph = Editor {
        points: &points,
        max_rpm: 3300,
        reading_c: None,
        demand_rpm: None,
    };
    assert_eq!(graph.rules(), [0, 1000, 2000, 3000]);
    assert_eq!(graph.sorted(), [point(40, 500), point(80, 2500)]);
    assert_eq!(
        graph.outline(),
        [
            point(20, 500),
            point(40, 500),
            point(80, 2500),
            point(100, 2500)
        ]
    );
    let empty = Editor {
        points: &[],
        max_rpm: 65535,
        reading_c: None,
        demand_rpm: None,
    };
    assert!(empty.outline().is_empty());
    assert_eq!(empty.rules().len(), 66);
    assert_eq!(editor::marks(), [20, 30, 40, 50, 60, 70, 80, 90, 100]);
    assert_eq!(editor::point_label(point(60, 900)), "60 C / 900 rpm");
}

#[test]
fn a_colour_is_read_while_held_and_committed_once() {
    let mut held = Held::default();
    assert_eq!(held.track(Press::Moved { known: true }), None);
    assert_eq!(held.track(Press::Up), None);
    assert_eq!(held.track(Press::Down { inside: false }), None);
    assert_eq!(
        held.track(Press::Down { inside: true }),
        Some(Outcome::Read)
    );
    assert_eq!(
        held.track(Press::Moved { known: true }),
        Some(Outcome::Read)
    );
    assert_eq!(held.track(Press::Moved { known: false }), None);
    assert_eq!(held.track(Press::Up), Some(Outcome::Commit));
    assert_eq!(held.track(Press::Up), None);
}
