use flydigictl::cli;
use flydigictl::cli::{Watch, Watched};
use flydigictl::config::{Config, Curve, Kind, Point, Sensor};
use flydigictl::device::{Found, Transport};
use flydigictl::error::Error;
use flydigictl::ipc::{Reply, Request, Status};
use flydigictl::nvidia::Part;
use flydigictl::protocol;
use flydigictl::protocol::{enter_realtime, set_realtime_rpm, Gear, Mode, Model, Standby};
use flydigictl::runner::{build, complaint, evaluate, follow, smoothed, Reading, Source};
use flydigictl::sensor::Available;
use flydigictl::server::{
    bind_fault, inherited_listener, route, sensors_listed, shutting_down, touches, unwritable,
    worth_parsing, Card, Listener, Route, Snapshot,
};

fn sensor(kind: Kind, hwmon: &str, device: &str, label: &str) -> Sensor {
    Sensor {
        kind,
        hwmon: hwmon.to_string(),
        device: device.to_string(),
        label: label.to_string(),
    }
}

fn curve(name: &str, panic_c: Option<u8>) -> Curve {
    Curve {
        name: name.to_string(),
        sensor: Sensor::default(),
        points: vec![
            Point {
                temp_c: 40,
                rpm: 500,
            },
            Point {
                temp_c: 80,
                rpm: 2500,
            },
        ],
        panic_c,
    }
}

fn config() -> Config {
    Config {
        curves: vec![curve("cpu", Some(70)), curve("", None), curve("gpu", None)],
        ..Config::default()
    }
}

fn reading(raw: Option<u8>, smoothed: u8) -> Reading {
    Reading {
        raw,
        updated: raw.map(|_| smoothed),
        sleeping: false,
        missing: false,
    }
}

#[test]
fn curves_run_under_a_name_and_a_threshold() {
    let runners = build(&config());
    assert_eq!(runners.len(), 3);
    assert_eq!(runners[0].name, "cpu");
    assert_eq!(runners[0].panic_c, 70);
    assert_eq!(runners[1].name, "k10temp#1");
    assert_eq!(runners[1].panic_c, 90);
    assert_eq!(runners[1].points.len(), 2);
}

#[test]
fn every_curve_is_evaluated_or_accounted_for() {
    let runners = build(&config());
    let readings = vec![
        reading(Some(60), 50),
        Reading {
            sleeping: true,
            ..reading(None, 0)
        },
        reading(None, 0),
    ];
    let outcome = evaluate(&runners, &readings);
    assert_eq!(outcome.demands.len(), 1);
    assert_eq!(outcome.demands[0].name, "cpu");
    assert_eq!(outcome.demands[0].temp_c, 60);
    assert_eq!(outcome.demands[0].smoothed_c, 50);
    assert_eq!(outcome.demands[0].rpm, 1000);
    assert!(!outcome.demands[0].panic);
    assert_eq!(outcome.asleep, ["k10temp#1"]);
    assert_eq!(outcome.unreadable, ["gpu"]);

    // Missing is neither.
    let readings = vec![
        Reading {
            missing: true,
            ..reading(None, 0)
        },
        reading(Some(40), 40),
        reading(Some(80), 80),
    ];
    let outcome = evaluate(&runners, &readings);
    assert_eq!(outcome.demands.len(), 2);
    assert!(outcome.asleep.is_empty());
    assert!(outcome.unreadable.is_empty());
}

#[test]
fn a_hot_reading_skips_smoothing() {
    let runners = build(&config());
    let readings = vec![reading(Some(70), 40), reading(Some(70), 40), reading(Some(90), 40)];
    let outcome = evaluate(&runners, &readings);
    let rpms: Vec<(u16, bool)> = outcome.demands.iter().map(|d| (d.rpm, d.panic)).collect();
    assert_eq!(rpms, [(2000, true), (500, false), (2500, true)]);
}

#[test]
fn a_first_reading_is_taken_as_it_is() {
    let runners = build(&config());
    let first = |raw: u8| Reading {
        updated: None,
        ..reading(Some(raw), 0)
    };
    let outcome = evaluate(&runners, &vec![first(60), first(60), reading(Some(60), 50)]);
    let seen: Vec<(u8, u8)> = outcome
        .demands
        .iter()
        .map(|demand| (demand.temp_c, demand.smoothed_c))
        .collect();
    assert_eq!(seen, [(60, 60), (60, 60), (60, 50)]);
    assert_eq!(outcome.demands[0].rpm, 1500);

    assert_eq!(smoothed(None, 61), 61);
    assert_eq!(smoothed(Some(48), 61), 48);
}

fn available(hwmon: &str, device: &str, label: &str, path: &str) -> Available {
    Available {
        hwmon: hwmon.to_string(),
        device: device.to_string(),
        kernel: "kernel0".to_string(),
        label: label.to_string(),
        path: path.to_string(),
    }
}

#[test]
fn sources_are_found_where_they_are() {
    let list = vec![
        available("spd5118", "0050", "", "/a"),
        available("spd5118", "0051", "", "/b"),
    ];
    let cards = vec!["0000:01:00.0".to_string()];
    let find = |sensor: Sensor| Source::find(&sensor, &list, &cards);

    match find(sensor(Kind::Hwmon, "spd5118", "", "")) {
        Source::Hwmon { paths } => assert_eq!(paths, ["/a", "/b"]),
        other => panic!("{other:?}"),
    }
    assert!(find(sensor(Kind::Hwmon, "k10temp", "", "")).missing());
    assert!(!find(sensor(Kind::Hwmon, "spd5118", "0051", "")).missing());

    let any = find(sensor(Kind::Nvidia, "", "", ""));
    assert!(matches!(&any, Source::Nvidia { card, .. } if card == "0000:01:00.0"));
    let part = |label: &str| match find(sensor(Kind::Nvidia, "", "", label)) {
        Source::Nvidia { part, .. } => part,
        other => panic!("{other:?}"),
    };
    assert_eq!(part(""), Part::Core);
    assert_eq!(part("core"), Part::Core);
    assert_eq!(part("memory"), Part::Memory);
    assert_eq!(part("Tctl"), Part::Core);
    assert!(!any.missing());
    assert!(any.sleeping(Some("suspended\n")));
    assert!(!any.sleeping(Some("active\n")));
    assert!(find(sensor(Kind::Nvidia, "", "0000:09:00.0", "")).missing());

    let none = Source::find(&sensor(Kind::Nvidia, "", "", ""), &list, &Vec::new());
    assert!(none.missing());
    let chip = find(sensor(Kind::Hwmon, "spd5118", "", ""));
    assert!(!chip.sleeping(Some("suspended")));

    assert_eq!(follow(&vec![Some(40), None, Some(61), Some(50)]), Some(61));
    assert_eq!(follow(&vec![None, None]), None);
    assert_eq!(follow(&Vec::new()), None);
}

#[test]
fn missing_sensors_are_complained_about_once() {
    let list = vec![
        available("spd5118", "0050", "", "/a"),
        available("k10temp", "0000", "Tctl", "/b"),
    ];
    let missing = vec!["gpu".to_string(), "ssd".to_string()];
    assert_eq!(
        complaint(&missing, false, &list).as_deref(),
        Some("no sensor for curve(s): gpu, ssd, retrying. available: spd5118, k10temp/Tctl")
    );
    assert_eq!(complaint(&missing, true, &list), None);
    assert_eq!(complaint(&Vec::new(), false, &list), None);
    assert_eq!(
        complaint(&vec!["gpu".to_string()], false, &Vec::new()).as_deref(),
        Some("no sensor for curve(s): gpu, retrying. available: ")
    );
}

fn status(model: &str) -> Status {
    Status {
        model: model.to_string(),
        connected: true,
        ..Status::disconnected()
    }
}

#[test]
fn subscribers_hear_of_a_cooler_coming_and_going() {
    let mut snapshot = Snapshot::new();
    assert!(snapshot.publish(None).is_none());
    assert!(!snapshot.first().connected);

    let told = snapshot.publish(Some(status("BS3"))).unwrap();
    assert_eq!(told.model, "BS3");
    assert_eq!(snapshot.first().model, "BS3");

    let told = snapshot.publish(None).unwrap();
    assert!(!told.connected);
    assert_eq!(told.model, "");
    assert!(snapshot.publish(None).is_none());
}

#[test]
fn requests_go_where_they_belong() {
    let mut snapshot = Snapshot::new();
    assert!(matches!(
        route(Ok(Request::Subscribe), &snapshot),
        Route::Stream
    ));
    match route(Ok(Request::Status), &snapshot) {
        Route::Answer(Reply::Error { message }) => assert_eq!(message, "no device yet"),
        other => panic!("{other:?}"),
    }
    snapshot.publish(Some(status("BS1")));
    match route(Ok(Request::Status), &snapshot) {
        Route::Answer(Reply::Status(status)) => assert_eq!(status.model, "BS1"),
        other => panic!("{other:?}"),
    }
    match route(Err("expected value".to_string()), &snapshot) {
        Route::Answer(Reply::Error { message }) => {
            assert_eq!(message, "bad request: expected value")
        }
        other => panic!("{other:?}"),
    }
    assert!(matches!(
        route(Ok(Request::Gears), &snapshot),
        Route::Forward(Request::Gears)
    ));

    assert!(worth_parsing(" {} "));
    assert!(!worth_parsing(" \t\u{3000}"));
    match shutting_down() {
        Reply::Error { message } => assert_eq!(message, "daemon shutting down"),
        other => panic!("{other:?}"),
    }
    assert_eq!(unwritable("odd"), r#"{"reply":"error","message":"odd"}"#);
}

#[test]
fn a_listener_is_taken_from_systemd_when_it_is_ours() {
    let from = |pid: Option<&str>, fds: Option<&str>| inherited_listener(pid, 421, fds);
    assert_eq!(from(Some("421"), Some("1")), Listener::Inherited);
    assert_eq!(from(Some("421"), Some("2")), Listener::BoundInstead);
    assert_eq!(from(Some("421"), None), Listener::Bound);
    assert_eq!(from(Some("42"), Some("1")), Listener::Bound);
    assert_eq!(from(None, Some("1")), Listener::Bound);

    let denied = bind_fault("/run/x.sock".to_string(), true, "no".to_string());
    assert_eq!(
        denied.to_string(),
        "no socket was passed and /run/x.sock cannot be created here: start \
         flydigictld.socket, or point --socket somewhere writable"
    );
    let other = bind_fault("/run/x.sock".to_string(), false, "busy".to_string());
    assert_eq!(other.to_string(), "cannot open /run/x.sock: busy");
}

#[test]
fn sensors_are_listed_with_their_readings() {
    let list = vec![
        available("spd5118", "0050", "", "/a"),
        available("k10temp", "0000", "Tctl", "/b"),
    ];
    let contents = vec![Some("49000\n".to_string()), None];
    let cards = vec![
        Card {
            address: "0000:01:00.0".to_string(),
            status: Some("suspended\n".to_string()),
            core: Some("47".to_string()),
            memory: Some("58".to_string()),
        },
        Card {
            address: "0000:02:00.0".to_string(),
            status: None,
            core: Some("47\n".to_string()),
            memory: Some("58\n".to_string()),
        },
        Card {
            address: "0000:03:00.0".to_string(),
            status: Some("active\n".to_string()),
            core: Some("61\n".to_string()),
            memory: Some("N/A\n".to_string()),
        },
    ];
    let sensors = match sensors_listed(&list, &contents, &cards) {
        Reply::Sensors { sensors } => sensors,
        other => panic!("{other:?}"),
    };
    assert_eq!(sensors.len(), 8);
    assert_eq!(sensors[0].temp_c, Some(49));
    assert_eq!(sensors[1].temp_c, None);
    assert_eq!(sensors[1].label, "Tctl");
    assert_eq!(sensors[2].kind, Kind::Nvidia);
    assert_eq!(sensors[2].hwmon, "nvidia");
    assert_eq!(sensors[2].kernel, "suspended");
    assert_eq!(sensors[2].temp_c, None);
    assert_eq!(sensors[3].temp_c, None);
    assert_eq!(sensors[4].kernel, "");

    let parts: Vec<(&str, &str, Option<u8>)> = sensors[2..]
        .iter()
        .map(|info| (info.device.as_str(), info.label.as_str(), info.temp_c))
        .collect();
    assert_eq!(
        parts,
        [
            ("0000:01:00.0", "core", None),
            ("0000:01:00.0", "memory", None),
            ("0000:02:00.0", "core", Some(47)),
            ("0000:02:00.0", "memory", Some(58)),
            ("0000:03:00.0", "core", Some(61)),
            ("0000:03:00.0", "memory", None),
        ]
    );

    // A curve set to a listed reading follows the part it came from.
    let present: Vec<String> = cards.iter().map(|card| card.address.clone()).collect();
    for info in &sensors[2..] {
        let chosen = sensor(info.kind, &info.hwmon, &info.device, &info.label);
        match Source::find(&chosen, &list, &present) {
            Source::Nvidia { card, part, .. } => {
                assert_eq!(card, info.device);
                assert_eq!(part.label(), info.label);
            }
            other => panic!("{other:?}"),
        }
    }
}

#[test]
fn only_the_config_file_matters_in_its_directory() {
    let names = vec![
        None,
        Some("config.toml.new".to_string()),
        Some("config.toml".to_string()),
    ];
    assert!(touches(&names, "config.toml"));
    assert!(!touches(&names, "other.toml"));
    assert!(!touches(&Vec::new(), "config.toml"));
}

fn frame(current_rpm: u16, target_rpm: u16) -> protocol::Status {
    protocol::Status {
        current_rpm,
        target_rpm,
        mode: Mode::Gear,
        standby: Standby::Off,
        max_gear: Gear::Overclock,
        gear: Gear::Quiet,
        seq: 0,
    }
}

#[test]
fn a_status_fits_on_a_line() {
    assert_eq!(
        cli::status_line(&frame(5, 2600)),
        "current    5 rpm   target 2600 rpm   mode gear   gear quiet (max overclock)"
    );
    assert_eq!(
        cli::status_line(&frame(10000, 999)),
        "current 10000 rpm   target  999 rpm   mode gear   gear quiet (max overclock)"
    );
}

#[test]
fn coolers_are_listed() {
    let found = vec![Found {
        path: "/dev/hidraw3".to_string(),
        model: Model::Bs3Pro,
        transport: Transport::Usb,
    }];
    assert_eq!(cli::list(&found).unwrap(), ["/dev/hidraw3  BS3 Pro"]);
    assert!(matches!(cli::list(&Vec::new()), Err(Error::NotFound)));
}

#[test]
fn watching_goes_on_across_gaps() {
    let mut watch = Watch {
        seen: 0,
        limit: Some(2),
    };
    assert!(matches!(
        watch.step(Ok(frame(1, 1))),
        Watched::Print { last: false, .. }
    ));
    assert!(matches!(watch.step(Err(Error::Timeout)), Watched::Quiet));
    assert!(matches!(
        watch.step(Err(Error::Disconnected)),
        Watched::Reopen
    ));
    assert!(matches!(
        watch.step(Err(Error::Read("EIO".to_string()))),
        Watched::Failed(Error::Read(_))
    ));
    assert!(matches!(
        watch.step(Ok(frame(1, 1))),
        Watched::Print { last: true, .. }
    ));

    let mut endless = Watch {
        seen: usize::MAX,
        limit: None,
    };
    assert!(matches!(
        endless.step(Ok(frame(1, 1))),
        Watched::Print { last: false, .. }
    ));

    assert!(cli::worth_retrying(&Error::NotFound));
    assert!(cli::worth_retrying(&Error::Open {
        path: String::new(),
        source: String::new(),
    }));
    assert!(!cli::worth_retrying(&Error::Timeout));
}

#[test]
fn setting_a_speed_takes_two_reports() {
    let (enter, set) = cli::set(2600).unwrap();
    assert_eq!(enter, enter_realtime());
    assert_eq!(set, set_realtime_rpm(2600));
    assert!(cli::set(0).is_ok());
    assert_eq!(
        cli::set(499).unwrap_err().to_string(),
        "rpm 499 out of range (500-4000, or 0 to stop)"
    );
    assert!(cli::set(4001).is_err());
    assert_eq!(cli::set_line(0), "fan stopped");
    assert_eq!(cli::set_line(2600), "target 2600 rpm");
}

#[test]
fn standby_is_chosen_by_name() {
    let (report, line) = cli::standby("delayed").unwrap();
    assert_eq!(report, protocol::set_standby(Standby::Delayed));
    assert_eq!(line, "standby delayed");
    assert_eq!(cli::standby("never").unwrap().1, "standby off");
    assert_eq!(
        cli::standby("soon").unwrap_err().to_string(),
        "no standby called soon"
    );
}

#[test]
fn inputs_are_listed_in_columns() {
    let input = |hwmon: &str, device: &str, kernel: &str, label: &str| Available {
        hwmon: hwmon.to_string(),
        device: device.to_string(),
        kernel: kernel.to_string(),
        label: label.to_string(),
        path: String::new(),
    };
    assert_eq!(
        cli::sensor_line(&input("nvme", "0000:05:00.0", "nvme0", "Composite"), Some(37)),
        "nvme       0000:05:00.0 (nvme0)        Composite   37 C"
    );
    assert_eq!(
        cli::sensor_line(&input("spd5118", "0000:00:14.0/0050", "21-0050", ""), Some(49)),
        "spd5118    0000:00:14.0/0050 (21-0050) -           49 C"
    );
    assert_eq!(
        cli::sensor_line(&input("a_very_long_chip", "x", "y", "z"), None),
        "a_very_long_chip x (y)                       z           -"
    );
}
