use flydigictl::config::{Config, ConfigError, Curve, Point, Sensor};
use flydigictl::control::{
    read_supply, saved, Ask, Burst, Control, Evaluation, Held, Hold, FRAME_TIMEOUT, SECOND,
    STOP_AFTER,
};
use flydigictl::curve::Demand;
use flydigictl::error::Error;
use flydigictl::ipc::{Light, Reply, Request, Status, WarningCode};
use flydigictl::protocol;
use flydigictl::protocol::{
    enter_realtime, gear_light, light_off, light_on, set_gear_rpm, set_realtime_rpm, set_standby,
    Gear, LightMode, Lighting, Mode, Model, Rgb, Standby, Supply,
};

fn control() -> Control {
    Control::new(Config::default(), "/etc/x.toml".to_string(), true)
}

fn frame(mode: Mode, current_rpm: u16, target_rpm: u16) -> protocol::Status {
    protocol::Status {
        current_rpm,
        target_rpm,
        mode,
        standby: Standby::Off,
        max_gear: Gear::Overclock,
        gear: Gear::Quiet,
        seq: 0,
    }
}

fn demand(name: &str, temp_c: u8, rpm: u16) -> Demand {
    Demand {
        name: name.to_string(),
        temp_c,
        smoothed_c: temp_c,
        rpm,
        panic: false,
    }
}

fn demands(list: &[(&str, u8, u16)]) -> Evaluation {
    Evaluation {
        demands: list.iter().map(|d| demand(d.0, d.1, d.2)).collect(),
        asleep: vec!["gpu".to_string()],
        unreadable: Vec::new(),
    }
}

/// A cooler that is open, with a full supply and every setup step done.
fn connected(mut control: Control) -> Control {
    control.config.standby = None;
    assert!(matches!(control.tick(0), Ask::Open));
    assert!(matches!(control.opened(Some(Model::Bs3Pro)), Ask::Supply));
    assert!(matches!(
        control.supply_answered(Some(vec![3]), 0),
        Ask::Strip
    ));
    let ask = control.strip_answered(Some(vec![1]), 0);
    if let Ask::Restore { .. } = ask {
        control.restored(true, 0);
    }
    control
}

fn published(ask: Ask) -> Status {
    match ask {
        Ask::Publish {
            status: Some(status),
        } => status,
        other => panic!("{other:?}"),
    }
}

fn reply(ask: Ask) -> Reply {
    match ask {
        Ask::Answer { reply } => reply,
        other => panic!("{other:?}"),
    }
}

fn message(ask: Ask) -> String {
    match reply(ask) {
        Reply::Error { message } => message,
        other => panic!("{other:?}"),
    }
}

#[test]
fn a_missing_cooler_is_looked_for_every_three_seconds() {
    let mut control = control();
    assert!(matches!(control.tick(5 * SECOND), Ask::Open));
    assert!(matches!(
        control.opened(None),
        Ask::Publish { status: None }
    ));
    assert!(matches!(
        control.tick(8 * SECOND - 1),
        Ask::Publish { status: None }
    ));
    assert!(matches!(control.tick(8 * SECOND), Ask::Open));
}

#[test]
fn a_cooler_just_met_is_set_up_step_by_step() {
    let lighting = Lighting {
        mode: LightMode::Effect { effect: 2 },
        brightness: 40,
        indicators: false,
    };
    let config = Config {
        lighting: Some(lighting),
        ..Config::default()
    };
    let mut control = Control::new(config, "/etc/x.toml".to_string(), true);

    assert!(matches!(control.tick(0), Ask::Open));
    assert!(matches!(control.opened(Some(Model::Bs3)), Ask::Supply));
    match control.supply_answered(Some(vec![2]), 0) {
        Ask::Standby { report } => assert_eq!(report, set_standby(Standby::Delayed)),
        other => panic!("{other:?}"),
    }
    assert_eq!(control.supply, Some(Supply::Medium));
    assert!(matches!(control.standby_asserted(), Ask::Strip));
    match control.strip_answered(Some(vec![0]), 0) {
        Ask::Restore { reports } => assert_eq!(reports, lighting.reports(None)),
        other => panic!("{other:?}"),
    }
    assert_eq!(control.strip_on, Some(false));
    match control.restored(true, 0) {
        Ask::Evaluate { dt } => assert_eq!(dt, 3 * u128::from(SECOND)),
        other => panic!("{other:?}"),
    }

    // The link drops and comes back: the flash is left alone.
    assert!(matches!(
        control.frame_missed(&Error::Disconnected),
        Ask::Publish { status: None }
    ));
    assert!(matches!(control.tick(10 * SECOND), Ask::Open));
    control.opened(Some(Model::Bs3));
    control.supply_answered(Some(vec![2]), 10 * SECOND);
    match control.strip_answered(None, 10 * SECOND) {
        Ask::Restore { reports } => assert!(reports.is_empty()),
        other => panic!("{other:?}"),
    }
    assert_eq!(control.strip_on, None);
}

#[test]
fn lighting_that_was_not_taken_is_sent_again() {
    let config = Config {
        lighting: Some(Lighting::default()),
        standby: None,
        ..Config::default()
    };
    let mut control = Control::new(config, String::new(), true);
    control.tick(0);
    control.opened(Some(Model::Bs1));
    control.supply_answered(Some(vec![3]), 0);
    control.strip_answered(None, 0);
    control.restored(false, 0);
    assert_eq!(control.uploaded, None);
}

#[test]
fn an_undecided_supply_is_asked_for_again_for_a_while() {
    let mut control = control();
    control.config.standby = None;
    control.tick(0);
    control.opened(Some(Model::Bs3Pro));
    control.supply_answered(Some(vec![0]), SECOND);
    assert!(matches!(
        control.strip_answered(None, SECOND),
        Ask::SupplyAgain
    ));
    assert!(matches!(
        control.supply_answered_again(Some(vec![0]), SECOND),
        Ask::Evaluate { .. }
    ));
    assert!(matches!(control.tick(5 * SECOND), Ask::SupplyAgain));
    assert!(matches!(
        control.supply_answered_again(None, 5 * SECOND),
        Ask::Evaluate { .. }
    ));

    // Five seconds are enough.
    assert!(matches!(control.tick(6 * SECOND), Ask::Evaluate { .. }));
    assert_eq!(control.asked_supply_since, None);
    assert!(matches!(control.tick(6 * SECOND), Ask::Evaluate { .. }));

    // And so is an answer.
    control.asked_supply_since = Some(6 * SECOND);
    assert!(matches!(control.tick(7 * SECOND), Ask::SupplyAgain));
    control.supply_answered_again(Some(vec![1]), 7 * SECOND);
    assert_eq!(control.supply, Some(Supply::Low));
    assert_eq!(control.asked_supply_since, None);

    assert_eq!(read_supply(&Some(vec![9])), Some(Supply::Unknown(9)));
    assert_eq!(read_supply(&Some(Vec::new())), None);
    assert_eq!(read_supply(&None), None);
}

#[test]
fn curves_are_evaluated_on_their_own_schedule() {
    let mut control = connected(control());
    control.evaluated(demands(&[("cpu", 60, 900)]), 10 * SECOND);
    assert!(matches!(control.tick(13 * SECOND - 1), Ask::Listen));
    match control.tick(13 * SECOND + 5) {
        Ask::Evaluate { dt } => assert_eq!(dt, u128::from(3 * SECOND + 5)),
        other => panic!("{other:?}"),
    }

    // An interval of nothing is a second.
    control.config.interval_secs = 0;
    assert!(matches!(control.tick(11 * SECOND - 1), Ask::Listen));
    assert!(matches!(control.tick(11 * SECOND), Ask::Evaluate { .. }));
}

#[test]
fn the_hungriest_curve_is_held_and_shown() {
    let mut control = connected(control());
    assert!(matches!(
        control.evaluated(demands(&[("cpu", 60, 900), ("ram", 49, 2826)]), 0),
        Ask::Listen
    ));
    match control.frame_read(frame(Mode::Gear, 1100, 1000), 0) {
        Ask::Hold { rpm, mode } => assert_eq!((rpm, mode), (2826, Mode::Gear)),
        other => panic!("{other:?}"),
    }
    let status = published(control.held(true));
    assert_eq!(status.model, "BS3 Pro");
    assert!(status.connected);
    assert_eq!(status.temp_c, Some(49));
    assert_eq!(status.current_rpm, Some(1100));
    assert_eq!(status.target_rpm, Some(2826));
    assert!(!status.manual);
    assert_eq!(status.supply.as_deref(), Some("full"));
    assert_eq!(status.supply_max_rpm, Some(4000));
    assert_eq!(status.leading.as_deref(), Some("ram"));
    assert_eq!(status.asleep, ["gpu"]);
    assert_eq!(status.strip_on, Some(true));
    assert_eq!(status.demands.len(), 2);

    // Held already: nothing to write, as long as it moves little.
    let holding = frame(Mode::Realtime, 2800, 2826);
    published(control.frame_read(holding, SECOND));
    control.evaluated(demands(&[("ram", 50, 2925)]), SECOND);
    published(control.frame_read(holding, SECOND));
    control.evaluated(demands(&[("ram", 51, 2926)]), SECOND);
    assert!(matches!(
        control.frame_read(holding, SECOND),
        Ask::Hold { rpm: 2926, .. }
    ));
}

#[test]
fn drift_is_corrected() {
    let mut control = connected(control());
    control.evaluated(demands(&[("cpu", 60, 900)]), 0);
    control.frame_read(frame(Mode::Gear, 0, 0), 0);
    control.held(true);

    published(control.frame_read(frame(Mode::Realtime, 900, 900), 0));
    assert!(matches!(
        control.frame_read(frame(Mode::Realtime, 900, 1500), 0),
        Ask::Hold { rpm: 900, .. }
    ));
    assert!(matches!(
        control.frame_read(frame(Mode::Gear, 900, 900), 0),
        Ask::Hold { rpm: 900, .. }
    ));
}

#[test]
fn a_cooler_that_will_not_hold_a_speed_is_given_up() {
    let mut control = connected(control());
    control.evaluated(demands(&[("cpu", 60, 900)]), 0);
    control.frame_read(frame(Mode::Gear, 0, 0), 0);
    assert!(matches!(control.held(false), Ask::Publish { status: None }));
    assert_eq!(control.model, None);
    assert_eq!(control.applied, None);
}

#[test]
fn stopping_waits_a_minute_and_starting_does_not() {
    let mut control = connected(control());
    control.evaluated(demands(&[("cpu", 40, 0), ("ram", 30, 0)]), 0);
    assert!(control.leader.is_none());

    let gear = frame(Mode::Gear, 0, 0);
    assert!(matches!(
        control.frame_read(gear, SECOND),
        Ask::Hold { rpm: 500, .. }
    ));
    control.held(true);
    let idling = frame(Mode::Realtime, 500, 500);
    published(control.frame_read(idling, SECOND + STOP_AFTER - 1));
    assert!(matches!(
        control.frame_read(idling, SECOND + STOP_AFTER),
        Ask::Hold { rpm: 0, .. }
    ));
    let status = published(control.held(true));
    assert_eq!(status.leading, None);
    assert_eq!(status.temp_c, None);
    assert_eq!(status.target_rpm, Some(0));

    // It stays stopped, and starts the moment a curve asks.
    published(control.frame_read(frame(Mode::Realtime, 0, 0), 2 * STOP_AFTER));
    control.evaluated(demands(&[("cpu", 60, 700)]), 2 * STOP_AFTER);
    assert!(matches!(
        control.frame_read(frame(Mode::Realtime, 0, 0), 2 * STOP_AFTER),
        Ask::Hold { rpm: 700, .. }
    ));
    assert_eq!(control.idle_since, None);
}

#[test]
fn a_person_stops_the_fan_at_once() {
    let mut control = connected(control());
    control.evaluated(demands(&[("cpu", 60, 900)]), 0);
    reply(control.command(Request::SetManual { rpm: Some(0) }));
    assert!(matches!(
        control.frame_read(frame(Mode::Gear, 900, 900), 0),
        Ask::Hold { rpm: 0, .. }
    ));
    let status = published(control.held(true));
    assert!(status.manual);
    assert_eq!(status.manual_rpm, Some(0));
}

#[test]
fn no_reading_leaves_the_cooler_alone() {
    let mut control = connected(control());
    control.evaluated(demands(&[]), 0);
    let status = published(control.frame_read(frame(Mode::Gear, 1900, 2000), 0));
    assert_eq!(status.target_rpm, Some(2000));
}

#[test]
fn silence_is_tolerated_for_three_seconds() {
    let mut control = connected(control());
    let windows = 3 * SECOND / FRAME_TIMEOUT;
    for _ in 1..windows {
        assert!(matches!(control.frame_missed(&Error::Timeout), Ask::Idle));
    }
    assert!(matches!(
        control.frame_missed(&Error::Timeout),
        Ask::Publish { status: None }
    ));
    assert_eq!(control.model, None);

    // A frame in between starts the count over; another fault does not count.
    let mut control = connected(crate::control());
    for _ in 0..50 {
        control.frame_missed(&Error::Timeout);
        control.frame_missed(&Error::Read("EIO".to_string()));
    }
    control.frame_read(frame(Mode::Gear, 0, 0), 0);
    assert_eq!(control.missed, 0);
}

#[test]
fn a_speed_beyond_the_supply_is_capped_and_said() {
    let mut control = connected(control());
    control.supply = Some(Supply::Low);
    match reply(control.command(Request::SetManual { rpm: Some(3500) })) {
        Reply::Done {
            warning: Some(warning),
        } => {
            assert_eq!(warning.code, WarningCode::SupplyLimited);
            assert_eq!(
                warning.message,
                "supply is low, holding 2700 rpm instead of 3500"
            );
        }
        other => panic!("{other:?}"),
    }
    assert!(matches!(
        control.frame_read(frame(Mode::Gear, 0, 0), 0),
        Ask::Hold { rpm: 2700, .. }
    ));
    assert_eq!(control.config.manual_rpm, Some(3500));

    for rpm in [499, 4001, 1] {
        assert_eq!(
            message(control.command(Request::SetManual { rpm: Some(rpm) })),
            format!("rpm {rpm} out of range (500-4000)")
        );
    }
    assert_eq!(control.manual_rpm, Some(3500));
    assert!(matches!(
        reply(control.command(Request::SetManual { rpm: None })),
        Reply::Done { warning: None }
    ));
    assert_eq!(control.manual_rpm, None);
}

#[test]
fn a_config_from_a_client_keeps_what_is_in_force() {
    let mut control = connected(control());
    control.command(Request::SetManual { rpm: Some(1500) });
    control.applied = Some(1500);
    control.asleep = vec!["gpu".to_string()];
    control.unreadable = vec!["ssd".to_string()];

    let fresh = Config {
        manual_rpm: Some(9),
        lighting: Some(Lighting::default()),
        interval_secs: 7,
        curves: vec![Curve {
            name: "cpu".to_string(),
            sensor: Sensor::default(),
            points: vec![
                Point {
                    temp_c: 80,
                    rpm: 2000,
                },
                Point {
                    temp_c: 40,
                    rpm: 500,
                },
            ],
            panic_c: None,
        }],
        ..Config::default()
    };
    assert!(matches!(
        control.command(Request::SetConfig { config: fresh }),
        Ask::Save
    ));
    assert_eq!(control.config.manual_rpm, Some(1500));
    assert_eq!(control.config.lighting, None);
    assert_eq!(control.config.interval_secs, 7);
    assert_eq!(control.config.curves[0].points[0].temp_c, 40);
    assert_eq!(control.applied, Some(1500));
    assert_eq!(control.revision, 1);
    assert!(control.outdated(0) && !control.outdated(1));
    assert!(control.asleep.is_empty());
    assert!(control.unreadable.is_empty());

    match reply(control.command(Request::GetConfig)) {
        Reply::Config { config, writable } => {
            assert_eq!(config, control.config);
            assert!(writable);
        }
        other => panic!("{other:?}"),
    }
}

#[test]
fn a_change_that_cannot_be_saved_is_still_made() {
    let mut control = Control::new(Config::default(), "/etc/x.toml".to_string(), false);
    match reply(control.command(Request::SetConfig {
        config: Config::default(),
    })) {
        Reply::Done {
            warning: Some(warning),
        } => {
            assert_eq!(warning.code, WarningCode::ConfigReadOnly);
            assert_eq!(
                warning.message,
                "/etc/x.toml is read-only, change not saved"
            );
        }
        other => panic!("{other:?}"),
    }

    assert!(matches!(saved(Ok(())), Reply::Done { warning: None }));
    match saved(Err(ConfigError::Write {
        path: "/etc/x.toml".to_string(),
        source: "full".to_string(),
    })) {
        Reply::Done {
            warning: Some(warning),
        } => {
            assert_eq!(warning.code, WarningCode::ConfigSaveFailed);
            assert_eq!(
                warning.message,
                "change applied but not saved: cannot write /etc/x.toml: full"
            );
        }
        other => panic!("{other:?}"),
    }
}

#[test]
fn a_changed_file_is_taken_over() {
    let mut control = connected(control());
    control.asleep = vec!["gpu".to_string()];
    control.unreadable = vec!["ssd".to_string()];
    assert!(matches!(
        control.config_changed(Ok(control.config.clone())),
        Ask::Idle
    ));
    assert_eq!(control.revision, 0);
    assert!(!control.outdated(0));
    assert_eq!(control.asleep, ["gpu"]);
    assert_eq!(control.unreadable, ["ssd"]);

    let lighting = Lighting {
        mode: LightMode::Effect { effect: 1 },
        ..Lighting::default()
    };
    let fresh = Config {
        manual_rpm: Some(800),
        lighting: Some(lighting),
        ..control.config.clone()
    };
    match control.config_changed(Ok(fresh.clone())) {
        Ask::Relight { reports } => assert_eq!(reports, lighting.reports(None)),
        other => panic!("{other:?}"),
    }
    control.relit(true);
    assert_eq!(control.uploaded, Some(lighting));
    assert_eq!(control.manual_rpm, Some(800));
    assert_eq!(control.revision, 1);
    assert!(control.asleep.is_empty());
    assert!(control.unreadable.is_empty());

    // Nothing about the lights changed: nothing is sent.
    let calmer = Config {
        hysteresis_rpm: 300,
        ..fresh
    };
    assert!(matches!(control.config_changed(Ok(calmer)), Ask::Idle));
    assert_eq!(control.revision, 2);

    assert!(matches!(
        control.config_changed(Err(ConfigError::Parse {
            path: String::new(),
            source: String::new(),
        })),
        Ask::Idle
    ));
    assert_eq!(control.revision, 2);
}

#[test]
fn gears_are_read_and_stored() {
    let mut control = control();
    assert_eq!(message(control.command(Request::Gears)), "no cooler");
    let store = |gear: &str, rpm: u16| Request::SetGear {
        gear: gear.to_string(),
        rpm,
    };
    assert_eq!(message(control.command(store("quiet", 1500))), "no cooler");

    let mut control = connected(control);
    control.supply = Some(Supply::Low);
    assert!(matches!(control.command(Request::Gears), Ask::Gears));
    match control.command(store("strong", 3000)) {
        Ask::StoreGear { report } => {
            assert_eq!(Some(report), set_gear_rpm(Gear::Strong, 3000))
        }
        other => panic!("{other:?}"),
    }
    assert_eq!(
        message(control.command(store("turbo", 3000))),
        "no gear called turbo"
    );
    assert_eq!(
        message(control.command(store("quiet", 499))),
        "rpm 499 out of range (500-4000)"
    );

    let payload = vec![0xE8, 0x03, 0xD0, 0x07, 0xB8, 0x0B, 0xA0, 0x0F];
    match control.gears_answered(Ok(payload)) {
        Reply::Gears { gears } => {
            let shown: Vec<(&str, u16, bool)> = gears
                .iter()
                .map(|gear| (gear.name.as_str(), gear.rpm, gear.allowed))
                .collect();
            assert_eq!(
                shown,
                [
                    ("quiet", 1000, true),
                    ("standard", 2000, true),
                    ("strong", 3000, false),
                    ("overclock", 4000, false),
                ]
            );
        }
        other => panic!("{other:?}"),
    }
    let text = |reply: Reply| match reply {
        Reply::Error { message } => message,
        other => panic!("{other:?}"),
    };
    assert_eq!(
        text(control.gears_answered(Ok(vec![1, 2, 3]))),
        "the cooler answered with a gear table it does not have"
    );
    assert_eq!(
        text(control.gears_answered(Err(Error::Disconnected))),
        "device went away"
    );

    assert_eq!(
        text(control.gear_stored("quiet", Ok(0))),
        "the cooler refused gear quiet"
    );
    assert_eq!(
        text(control.gear_stored("quiet", Err(Error::NoAck { cmd: 0x26 }))),
        "no acknowledgement of command 0x26"
    );
    assert!(matches!(
        control.gear_stored("quiet", Ok(1)),
        Reply::Done { warning: None }
    ));
    match control.gear_stored("strong", Ok(1)) {
        Reply::Done {
            warning: Some(warning),
        } => assert_eq!(
            warning.message,
            "supply is low, so this gear will not run until it improves"
        ),
        other => panic!("{other:?}"),
    }
}

#[test]
fn lighting_is_sent_then_remembered() {
    let wanted = Lighting {
        mode: LightMode::Effect { effect: 4 },
        brightness: 30,
        indicators: true,
    };
    let mut control = control();
    assert_eq!(
        message(control.command(Request::SetLighting { lighting: wanted })),
        "no cooler"
    );

    let mut control = connected(control);
    match control.command(Request::SetLighting { lighting: wanted }) {
        Ask::Light {
            wanted: asked,
            reports,
        } => {
            assert_eq!(asked, wanted);
            assert_eq!(reports, wanted.reports(None));
        }
        other => panic!("{other:?}"),
    }
    assert_eq!(
        message(control.light_sent(wanted, Err(Error::NoAck { cmd: 0x42 }))),
        "no acknowledgement of command 0x42"
    );
    assert_eq!(control.lighting, None);

    reply(control.light_sent(wanted, Ok(())));
    assert_eq!(control.lighting, Some(wanted));
    assert_eq!(control.uploaded, Some(wanted));
    assert_eq!(control.config.lighting, Some(wanted));
    assert_eq!(control.strip_on, Some(true));
}

#[test]
fn one_thing_about_the_lighting_can_be_changed() {
    let mut control = connected(control());
    let change = |control: &mut Control, light: Light| match control
        .command(Request::Light { light })
    {
        Ask::Light { wanted, .. } => {
            control.light_sent(wanted, Ok(()));
            wanted
        }
        other => panic!("{other:?}"),
    };

    let lit = change(
        &mut control,
        Light::Static {
            color: "#0a141e".to_string(),
            brightness: 60,
        },
    );
    assert_eq!(
        lit.mode,
        LightMode::Static {
            color: Rgb {
                r: 10,
                g: 20,
                b: 30
            }
        }
    );
    assert_eq!(lit.brightness, 60);

    let playing = change(&mut control, Light::Effect { mode: 3 });
    assert_eq!(playing.mode, LightMode::Effect { effect: 3 });
    assert_eq!(playing.brightness, 60);

    let dark = change(&mut control, Light::Indicators { on: false });
    assert_eq!(dark.mode, playing.mode);
    assert!(!dark.indicators);
    assert_eq!(change(&mut control, Light::Off).mode, LightMode::Off);

    for mode in [0, 6] {
        assert_eq!(
            message(control.command(Request::Light {
                light: Light::Effect { mode }
            })),
            format!("no effect {mode}")
        );
    }
    assert_eq!(
        message(control.command(Request::Light {
            light: Light::Static {
                color: "blue".to_string(),
                brightness: 1
            }
        })),
        "bad color: blue"
    );
}

#[test]
fn standby_is_sent_then_saved() {
    let mut control = control();
    let set = || Request::SetStandby {
        standby: Standby::Instant,
    };
    assert_eq!(message(control.command(set())), "no cooler");
    assert_eq!(control.config.standby, Some(Standby::Instant));

    let mut control = connected(control);
    match control.command(set()) {
        Ask::SetStandby { report } => assert_eq!(report, set_standby(Standby::Instant)),
        other => panic!("{other:?}"),
    }
    assert!(matches!(control.standby_sent(Ok(1)), Ask::Save));
    assert_eq!(
        message(control.standby_sent(Err(Error::NoAck { cmd: 0x0D }))),
        "no acknowledgement of command 0x0d"
    );
    assert!(matches!(
        control.command(Request::Sensors),
        Ask::ListSensors
    ));
}

#[test]
fn lights_follow_the_screens() {
    let mut control = connected(control());
    control.config.lights_follow_screens = true;
    let now = 20 * SECOND;
    assert!(matches!(control.tick(now), Ask::Screens));
    assert!(matches!(
        control.screens_seen(Some(false), now),
        Ask::Evaluate { .. }
    ));
    assert!(matches!(control.tick(now + SECOND - 1), Ask::Evaluate { .. }));
    assert!(matches!(control.tick(now + SECOND), Ask::Screens));

    match control.screens_seen(Some(true), now) {
        Ask::Follow { reports } => {
            assert_eq!(reports, vec![light_off(), gear_light(false)])
        }
        other => panic!("{other:?}"),
    }
    control.followed(true, now);
    assert_eq!(control.strip_on, Some(false));

    // Nobody can tell: nothing changes.
    assert!(matches!(
        control.screens_seen(None, now),
        Ask::Evaluate { .. }
    ));

    match control.screens_seen(Some(false), now) {
        Ask::Follow { reports } => {
            assert_eq!(reports, vec![light_on(), gear_light(true)])
        }
        other => panic!("{other:?}"),
    }
    control.followed(true, now);
    assert_eq!(control.strip_on, Some(true));

    // A strip that was out stays out.
    control.strip_on = Some(false);
    control.screens_seen(Some(true), now);
    control.followed(false, now);
    match control.screens_seen(Some(false), now) {
        Ask::Follow { reports } => assert_eq!(reports, vec![gear_light(true)]),
        other => panic!("{other:?}"),
    }
}

#[test]
fn what_is_chosen_in_the_dark_shows_with_the_screens() {
    let mut control = connected(control());
    control.screens_seen(Some(true), 0);
    control.followed(true, 0);

    let wanted = Lighting {
        mode: LightMode::Effect { effect: 5 },
        ..Lighting::default()
    };
    assert!(matches!(
        reply(control.command(Request::SetLighting { lighting: wanted })),
        Reply::Done { warning: None }
    ));
    assert_eq!(control.uploaded, None);
    assert_eq!(control.lighting, Some(wanted));

    match control.screens_seen(Some(false), 0) {
        Ask::Follow { reports } => assert_eq!(reports, wanted.reports(None)),
        other => panic!("{other:?}"),
    }
    assert_eq!(control.uploaded, Some(wanted));
}

#[test]
fn a_speed_is_written_until_the_cooler_takes_it() {
    let hold = Hold::begin(Mode::Gear);
    assert_eq!(hold.report(1500), enter_realtime());
    let hold = match hold.acknowledged(1500, Ok(9)) {
        Held::More(hold) => hold,
        other => panic!("{other:?}"),
    };
    assert_eq!(hold.report(1500), set_realtime_rpm(1500));
    assert_eq!(Hold::begin(Mode::Realtime), hold);
    assert!(matches!(hold.acknowledged(1500, Ok(1)), Held::Taken));

    // Refused once: in from the top again, and then it is over.
    let hold = match hold.acknowledged(1500, Ok(2)) {
        Held::More(hold) => hold,
        other => panic!("{other:?}"),
    };
    assert_eq!(hold, Hold::Entering { again: true });
    let hold = match hold.acknowledged(1500, Ok(1)) {
        Held::More(hold) => hold,
        other => panic!("{other:?}"),
    };
    match hold.acknowledged(1500, Ok(2)) {
        Held::Failed(error) => {
            assert_eq!(error.to_string(), "the cooler will not hold 1500 rpm")
        }
        other => panic!("{other:?}"),
    }
    assert!(matches!(
        hold.acknowledged(1500, Err(Error::Disconnected)),
        Held::Failed(Error::Disconnected)
    ));
}

#[test]
fn a_burst_ends_with_the_first_failure() {
    let mut burst = Burst::new(vec![light_on(), light_off()]);
    assert_eq!(burst.next(), Some(light_on()));
    assert!(burst.acknowledged(Ok(1)).is_ok());
    assert_eq!(burst.next(), Some(light_off()));
    assert!(matches!(
        burst.acknowledged(Err(Error::Timeout)),
        Err(Error::Timeout)
    ));
    assert!(burst.acknowledged(Ok(1)).is_ok());
    assert_eq!(burst.next(), None);
    assert_eq!(Burst::new(Vec::new()).next(), None);
}
