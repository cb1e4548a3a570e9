use flydigictl::config::{
    sort_points, starting, Aggregate, Config, ConfigError, Curve, Kind, Point, Secs, Sensor,
    Smoothing,
};
use flydigictl::curve::{describe, target_for, winner, Demand};
use flydigictl::protocol::Standby;

fn curve() -> Config {
    Config {
        curve: vec![
            Point { temp_c: 40, rpm: 0 },
            Point {
                temp_c: 60,
                rpm: 1000,
            },
            Point {
                temp_c: 80,
                rpm: 3000,
            },
        ],
        ..Config::default()
    }
}

#[test]
fn holds_the_ends_of_the_curve() {
    let config = curve();
    assert_eq!(config.target_for(20), Some(0));
    assert_eq!(config.target_for(40), Some(0));
    assert_eq!(config.target_for(95), Some(3000));
}

#[test]
fn interpolates_between_points() {
    let config = curve();
    assert_eq!(config.target_for(50), Some(500));
    assert_eq!(config.target_for(70), Some(2000));
}

#[test]
fn manual_speed_wins_over_the_curve() {
    let config = Config {
        manual_rpm: Some(1234),
        ..curve()
    };
    assert_eq!(config.target_for(90), Some(1234));
}

fn points() -> Vec<Point> {
    vec![
        Point { temp_c: 40, rpm: 0 },
        Point {
            temp_c: 60,
            rpm: 1000,
        },
        Point {
            temp_c: 80,
            rpm: 3000,
        },
    ]
}

#[test]
fn holds_the_ends_and_interpolates_between() {
    let points = points();
    assert_eq!(target_for(&points, 20), Some(0));
    assert_eq!(target_for(&points, 50), Some(500));
    assert_eq!(target_for(&points, 70), Some(2000));
    assert_eq!(target_for(&points, 95), Some(3000));
}

#[test]
fn the_hungriest_curve_wins() {
    let demands = vec![
        Demand {
            name: "cpu".into(),
            temp_c: 60,
            smoothed_c: 60,
            rpm: 700,
            panic: false,
        },
        Demand {
            name: "ram".into(),
            temp_c: 60,
            smoothed_c: 60,
            rpm: 2400,
            panic: false,
        },
    ];
    assert_eq!(winner(&demands).map(|d| d.name.as_str()), Some("ram"));
}

fn point(temp_c: u8, rpm: u16) -> Point {
    Point { temp_c, rpm }
}

#[test]
fn curves_at_the_edges() {
    assert_eq!(target_for(&[], 50), None);
    assert_eq!(target_for(&[point(50, 900)], 0), Some(900));
    assert_eq!(target_for(&[point(50, 900)], 255), Some(900));

    // A curve may fall, and rounds towards the point before.
    let falling = [point(10, 1000), point(13, 0)];
    assert_eq!(target_for(&falling, 11), Some(667));
    assert_eq!(target_for(&falling, 12), Some(334));
    let rising = [point(10, 0), point(13, 1000)];
    assert_eq!(target_for(&rising, 11), Some(333));
    assert_eq!(target_for(&rising, 12), Some(666));

    // Points that share a temperature: the first of them is met.
    let step = [point(40, 500), point(60, 1000), point(60, 2000), point(80, 3000)];
    assert_eq!(target_for(&step, 60), Some(1000));
    assert_eq!(target_for(&step, 61), Some(2050));

    // The widest span there is.
    let wide = [point(0, 0), point(255, 65535)];
    assert_eq!(target_for(&wide, 254), Some(65278));

    // Out of order: the first that is warm enough counts.
    let jumbled = [point(20, 100), point(80, 800), point(40, 400), point(90, 900)];
    assert_eq!(target_for(&jumbled, 50), Some(450));
}

#[test]
fn a_rising_curve_never_slows_down() {
    let points = points();
    for temp_c in 0..255u8 {
        assert!(target_for(&points, temp_c) <= target_for(&points, temp_c + 1));
    }
}

fn demand(name: &str, rpm: u16) -> Demand {
    Demand {
        name: name.to_string(),
        temp_c: 50,
        smoothed_c: 50,
        rpm,
        panic: false,
    }
}

#[test]
fn the_last_of_the_hungriest_wins() {
    assert_eq!(winner(&[]), None);
    let demands = [demand("a", 900), demand("b", 900), demand("c", 100)];
    assert_eq!(winner(&demands), Some(&demands[1]));
}

fn named(name: &str, kind: Kind, hwmon: &str, device: &str, label: &str) -> Curve {
    Curve {
        name: name.to_string(),
        sensor: Sensor {
            kind,
            hwmon: hwmon.to_string(),
            device: device.to_string(),
            label: label.to_string(),
        },
        points: Vec::new(),
        panic_c: None,
    }
}

#[test]
fn curves_without_a_name_get_one() {
    let says = |name: &str, kind: Kind, hwmon: &str, device: &str, label: &str| {
        describe(&named(name, kind, hwmon, device, label), 12)
    };

    assert_eq!(says("ram", Kind::Nvidia, "x", "y", "z"), "ram");
    assert_eq!(says("", Kind::Nvidia, "x", "", "z"), "nvidia#12");
    assert_eq!(
        says("", Kind::Nvidia, "x", "0000:01:00.0", ""),
        "nvidia 0000:01:00.0"
    );
    assert_eq!(says("", Kind::Hwmon, "k10temp", "", ""), "k10temp#12");
    assert_eq!(says("", Kind::Hwmon, "k10temp", "", "Tctl"), "k10temp/Tctl");
    assert_eq!(
        says("", Kind::Hwmon, "nvme", "0000:05:00.0", "Composite"),
        "nvme 05:00.0/Composite"
    );
    assert_eq!(
        says("", Kind::Hwmon, "spd5118", "0000:00:14.0/0050", ""),
        "spd5118 0050#12"
    );
}

#[test]
fn several_sensors_come_down_to_one() {
    assert_eq!(Aggregate::default(), Aggregate::Max);
    assert_eq!(Aggregate::Max.apply(&[]), None);
    assert_eq!(Aggregate::Mean.apply(&[]), None);
    assert_eq!(Aggregate::Max.apply(&[40, 71, 60]), Some(71));
    assert_eq!(Aggregate::Mean.apply(&[40, 71, 60]), Some(57));
    assert_eq!(Aggregate::Mean.apply(&[255; 1000]), Some(255));
}

#[test]
fn sorting_is_by_temperature_and_keeps_ties_in_order() {
    let mut points = vec![
        point(60, 1),
        point(40, 2),
        point(60, 3),
        point(50, 4),
        point(40, 5),
    ];
    sort_points(&mut points);
    let sorted = vec![
        point(40, 2),
        point(40, 5),
        point(50, 4),
        point(60, 1),
        point(60, 3),
    ];
    assert_eq!(points, sorted);

    sort_points(&mut points);
    assert_eq!(points, sorted);
}

#[test]
fn a_config_is_put_in_order_on_load() {
    let mut config = curve();
    config.curve.reverse();
    let mut one = named("cpu", Kind::Hwmon, "k10temp", "", "");
    one.points = vec![point(80, 2), point(20, 1)];
    config.curves = vec![one];

    let loaded = config.loaded();
    assert_eq!(loaded.curve, points());
    assert_eq!(loaded.curves[0].points, [point(20, 1), point(80, 2)]);
    assert_eq!(loaded.interval_secs, 3);
}

#[test]
fn defaults_are_the_documented_ones() {
    let config = Config::default();
    assert_eq!(config.interval_secs, 3);
    assert_eq!(config.hysteresis_rpm, 100);
    assert_eq!(config.manual_rpm, None);
    assert_eq!(config.standby, Some(Standby::Delayed));
    assert_eq!(config.aggregate, Aggregate::Max);
    assert_eq!(config.sensors, [Sensor::default()]);
    assert_eq!(config.sensors[0].hwmon, "k10temp");
    assert_eq!(config.sensors[0].label, "");
    assert_eq!(
        config.curve,
        [
            point(45, 0),
            point(55, 1300),
            point(65, 2100),
            point(75, 2800),
            point(85, 3500)
        ]
    );
    assert_eq!(f32::from_bits(config.smoothing.rise_secs.bits), 10.0);
    assert_eq!(f32::from_bits(config.smoothing.fall_secs.bits), 60.0);
    assert_eq!(config, config.clone());
}

#[test]
fn seconds_compare_as_floats_do() {
    let values = [
        0.0f32,
        -0.0,
        1.5,
        -1.5,
        f32::INFINITY,
        f32::NEG_INFINITY,
        f32::NAN,
        f32::MIN_POSITIVE,
    ];
    for a in values {
        for b in values {
            let same = Secs { bits: a.to_bits() } == Secs { bits: b.to_bits() };
            assert_eq!(same, a == b, "{a} and {b}");
        }
    }

    let odd = Smoothing {
        rise_secs: Secs {
            bits: f32::NAN.to_bits(),
        },
        ..Smoothing::default()
    };
    let config = Config {
        smoothing: odd,
        ..Config::default()
    };
    assert!(config != config.clone());
}

#[test]
fn a_config_differs_where_any_part_does() {
    let config = curve();
    let mut other = config.clone();
    other.curve[1].rpm = 1001;
    assert!(config != other);

    let mut other = config.clone();
    other.sensors[0].label = "Tctl".to_string();
    assert!(config != other);

    let mut other = config.clone();
    other.curves[0].panic_c = Some(80);
    assert!(config != other);

    let mut other = config.clone();
    other.curves.push(config.curves[0].clone());
    assert!(config != other);
}

#[test]
fn only_a_missing_file_means_defaults() {
    let read = ConfigError::Read {
        path: "/etc/x".to_string(),
        source: "gone".to_string(),
    };
    assert_eq!(read.to_string(), "cannot read /etc/x: gone");
    assert_eq!(starting(Err(read)), Ok(Config::default()));

    let parse = ConfigError::Parse {
        path: "/etc/x".to_string(),
        source: "line 3".to_string(),
    };
    assert_eq!(
        starting(Err(parse)),
        Err("cannot parse /etc/x: line 3".to_string())
    );
    assert_eq!(starting(Ok(curve())), Ok(curve()));

    let write = ConfigError::Write {
        path: "/etc/x".to_string(),
        source: "full".to_string(),
    };
    assert_eq!(write.to_string(), "cannot write /etc/x: full");
    let serialize = ConfigError::Serialize {
        source: "odd".to_string(),
    };
    assert_eq!(serialize.to_string(), "cannot serialise config: odd");
}

#[test]
fn a_config_that_was_loaded_loads_as_it_is() {
    let mut config = Config {
        curve: vec![point(80, 3000), point(40, 0), point(80, 1)],
        ..Config::default()
    };
    config.curves[0].points = vec![point(70, 2), point(30, 1)];

    let once = config.clone().loaded();
    assert_eq!(once.curve, [point(40, 0), point(80, 3000), point(80, 1)]);
    assert_eq!(once.curves[0].points, [point(30, 1), point(70, 2)]);
    assert_eq!(once.clone().loaded(), once);
    assert_eq!(Config::default().loaded(), Config::default());
}
