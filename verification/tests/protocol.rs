use flydigictl::protocol::{
    build_report, checksum, enter_realtime, exit_realtime, gear_light, light_effect, light_off,
    light_on, light_static, parse_ack, parse_frame, parse_gear_table, parse_status,
    query_gear_table, query_strip, query_supply, set_gear_rpm, set_realtime_rpm, set_standby, Gear,
    LightMode, Lighting, Mode, Model, Rgb, Standby, Supply, CMD_LIGHT_POWER, CMD_SET_GEAR_RPM,
    MAGIC_FIRST, MAGIC_SECOND, MAX_PAYLOAD, MAX_RPM, REPORT_ID_IN, REPORT_ID_OUT, REPORT_LEN,
    STOP_RPM,
};

/// Frame captured from a BS3 Pro over Bluetooth.
const SAMPLE: [u8; 25] = [
    0x01, 0x5A, 0xA5, 0xEF, 0x0D, 0x68, 0x03, 0x05, 0x6C, 0x07, 0x6C, 0x07, 0x01, 0x01, 0xB4, 0x23,
    0x2B, 0x00, 0x00, 0x00, 0x00, 0x00, 0x00, 0x00, 0x00,
];

#[test]
fn parses_captured_status() {
    let status = parse_status(&SAMPLE).expect("sample frame should parse");
    assert_eq!(status.current_rpm, 1900);
    assert_eq!(status.target_rpm, 1900);
    assert_eq!(status.mode, Mode::Realtime);
    assert_eq!(status.standby, Standby::Off);
    assert_eq!(status.max_gear, Gear::Overclock);
    assert_eq!(status.gear, Gear::Quiet);
    assert_eq!(status.seq, 0x23B4);
}

#[test]
fn mode_byte_is_a_bitfield() {
    // Measured on hardware across every standby setting.
    for (byte, mode, standby) in [
        (0x02, Mode::Gear, Standby::Off),
        (0x03, Mode::Realtime, Standby::Off),
        (0x06, Mode::Gear, Standby::Instant),
        (0x07, Mode::Realtime, Standby::Instant),
        (0x0a, Mode::Gear, Standby::Delayed),
        (0x0b, Mode::Realtime, Standby::Delayed),
    ] {
        assert_eq!(Mode::from_byte(byte), mode, "mode of 0x{byte:02x}");
        assert_eq!(
            Standby::from_mode_byte(byte),
            standby,
            "standby of 0x{byte:02x}"
        );
    }
}

#[test]
fn parses_captured_ack() {
    // Reply to `light off`, captured from a BS3 Pro.
    let raw = [
        0x01, 0x5A, 0xA5, 0x46, 0x03, 0x01, 0x4A, 0x00, 0x00, 0x00, 0x00, 0x00, 0x00, 0x00, 0x00,
        0x00, 0x00, 0x00, 0x00, 0x00, 0x00, 0x00, 0x00, 0x00, 0x00,
    ];
    let ack = parse_ack(&raw).expect("ack should parse");
    assert_eq!(ack.cmd, CMD_LIGHT_POWER);
    assert_eq!(ack.payload, &[0x01]);
}

#[test]
fn telemetry_is_not_an_ack() {
    assert!(parse_ack(&SAMPLE).is_none());
}

#[test]
fn rejects_corrupted_checksum() {
    let mut frame = SAMPLE;
    frame[16] ^= 0xFF;
    assert!(parse_status(&frame).is_none());
}

#[test]
fn builds_realtime_commands_verified_on_hardware() {
    assert_eq!(&enter_realtime()[..5], &[0x02, 0x5A, 0xA5, 0x23, 0x02]);
    assert_eq!(enter_realtime()[5], 0x25);

    let set = set_realtime_rpm(2600);
    assert_eq!(&set[..7], &[0x02, 0x5A, 0xA5, 0x21, 0x04, 0x28, 0x0A]);
    assert_eq!(set[7], 0x57);

    assert_eq!(exit_realtime()[5], 0x26);
}

/// Every report this crate can produce, for the checks that have to hold for
/// all of them.
fn every_report() -> Vec<(&'static str, [u8; REPORT_LEN])> {
    let lighting = Lighting {
        mode: LightMode::Static {
            color: Rgb { r: 9, g: 200, b: 7 },
        },
        brightness: 63,
        indicators: true,
    };

    let mut reports: Vec<(&'static str, [u8; REPORT_LEN])> = vec![
        ("enter_realtime", enter_realtime()),
        ("exit_realtime", exit_realtime()),
        ("set_realtime_rpm", set_realtime_rpm(2600)),
        ("stop", set_realtime_rpm(STOP_RPM)),
        ("query_supply", query_supply()),
        ("query_strip", query_strip()),
        ("query_gear_table", query_gear_table()),
        ("light_off", light_off()),
        ("light_on", light_on()),
        ("gear_light", gear_light(true)),
        ("set_standby", set_standby(Standby::Delayed)),
    ];

    reports.push((
        "set_gear_rpm",
        set_gear_rpm(Gear::Standard, 2000).expect("a real gear has a slot"),
    ));

    reports.extend(
        light_static(Rgb { r: 1, g: 2, b: 3 }, 100)
            .into_iter()
            .map(|report| ("light_static", report)),
    );
    reports.extend(
        light_effect(5, 50)
            .into_iter()
            .map(|report| ("light_effect", report)),
    );
    reports.extend(
        lighting
            .reports(None)
            .into_iter()
            .map(|report| ("lighting", report)),
    );

    reports
}

/// The firmware's own formula, written out again rather than reusing
/// `checksum`: a test that calls the code it is checking proves nothing.
#[test]
fn checksum_matches_the_firmware_formula() {
    for (name, report) in every_report() {
        let len = report[4] as usize;
        let payload = &report[5..5 + (len - 2)];

        let expected = (u32::from(report[3])
            + u32::from(report[4])
            + payload.iter().map(|byte| u32::from(*byte)).sum::<u32>())
            & 0xFF;

        assert_eq!(
            u32::from(report[5 + (len - 2)]),
            expected,
            "checksum of {name}"
        );
    }
}

/// The HID path rejects a frame whose length byte is above 0x11 without a
/// word of complaint, so a report that grows past it would simply stop
/// working. Also the report id and magic, which gate it even earlier.
#[test]
fn every_report_stays_inside_the_firmware_bounds() {
    for (name, report) in every_report() {
        assert_eq!(report[0], REPORT_ID_OUT, "report id of {name}");
        assert_eq!(&report[1..3], &[0x5A, 0xA5], "magic of {name}");
        assert_eq!([MAGIC_FIRST, MAGIC_SECOND], [0x5A, 0xA5]);

        let len = report[4];
        assert!(len >= 2, "{name} declares a length below the header");
        assert!(len <= 0x11, "{name} declares {len}, past the 0x11 ceiling");
        assert!(
            usize::from(len) - 2 <= MAX_PAYLOAD,
            "{name} carries more than {MAX_PAYLOAD} payload bytes"
        );
    }
}

/// Three commands in the firmware are destructive or corrupting, and none
/// of them has a use here: 0xDF erases the firmware and reboots into the
/// ROM loader, 0x06 is a factory reset, and 0x08 with an out-of-range gear
/// corrupts the stored table. Nothing this crate builds may be one.
#[test]
fn never_builds_a_dangerous_command() {
    for (name, report) in every_report() {
        assert!(
            !matches!(report[3], 0xDF | 0x06 | 0x08),
            "{name} builds command 0x{:02X}",
            report[3]
        );
    }
}

/// `0x26` takes a slot, and the firmware answers `00` for anything above
/// three rather than clamping, so an unknown gear must never reach it.
#[test]
fn gear_writes_carry_a_slot_the_firmware_accepts() {
    for gear in Gear::ALL {
        let slot = gear.slot().expect("every listed gear has a slot");
        assert!(slot <= 3, "{} maps to slot {slot}", gear.to_string());

        let report = set_gear_rpm(gear, 2000).expect("a real gear builds a report");
        assert_eq!(report[3], CMD_SET_GEAR_RPM);
        assert_eq!(report[5], slot);
    }

    assert!(
        set_gear_rpm(Gear::Unknown(9), 2000).is_none(),
        "an unknown gear must not be written"
    );
}

#[test]
fn a_report_is_framed_padded_and_summed() {
    let report = build_report(0x26, &[1, 0xD0, 0x07]);
    let mut expected = [0u8; REPORT_LEN];
    expected[..9].copy_from_slice(&[0x02, 0x5A, 0xA5, 0x26, 0x05, 0x01, 0xD0, 0x07, 0x03]);
    assert_eq!(report, expected);
    assert_eq!(set_gear_rpm(Gear::Standard, 2000), Some(expected));

    // The longest payload a padded report has room for.
    let full = build_report(0x42, &[0xFF; 19]);
    assert_eq!(full[4], 21);
    assert_eq!(full[24], ((0x42 + 21 + 19 * 255) % 256) as u8);
}

#[test]
fn a_checksum_wraps_around() {
    assert_eq!(checksum(0x10, &[]), 0x12);
    assert_eq!(checksum(0xFF, &[0xFF, 0xFF]), 0x01);
    assert_eq!(checksum(0, &[1; 300]), ((2 + 300 + 300) % 256) as u8);
}

#[test]
fn frames_parse_back_whatever_pads_them() {
    let payload = [0x01, 0x02, 0x03];
    let mut frame = vec![REPORT_ID_IN, 0x5A, 0xA5, 0x27, 0x05];
    frame.extend_from_slice(&payload);
    frame.push(checksum(0x27, &payload));
    let bare = frame.clone();
    frame.extend_from_slice(&[0xAA; 7]);

    for bytes in [&bare, &frame] {
        let parsed = parse_frame(bytes).expect("a frame should parse");
        assert_eq!(parsed.cmd, 0x27);
        assert_eq!(parsed.payload, &payload);
    }

    // Cut short, another id, another magic, a length below the header.
    assert!(parse_frame(&bare[..bare.len() - 1]).is_none());
    assert!(parse_frame(&[]).is_none());
    for (at, byte) in [(0, 0x02), (1, 0x5B), (2, 0x00), (4, 0x01), (4, 0xFF)] {
        let mut broken = bare.clone();
        broken[at] = byte;
        assert!(parse_frame(&broken).is_none(), "byte {at} as {byte:#x}");
    }

    // Our own reports are not the device's.
    assert!(parse_frame(&query_supply()).is_none());
}

#[test]
fn a_gear_table_is_four_little_endian_speeds() {
    let payload = [0xE8, 0x03, 0xD0, 0x07, 0xB8, 0x0B, 0xA0, 0x0F, 0x99];
    assert_eq!(
        parse_gear_table(&payload),
        Some([1000, 2000, 3000, 4000])
    );
    assert_eq!(parse_gear_table(&payload[..7]), None);
}

#[test]
fn a_short_status_is_no_status() {
    let payload = [0u8; 10];
    let mut frame = vec![REPORT_ID_IN, 0x5A, 0xA5, 0xEF, 12];
    frame.extend_from_slice(&payload);
    frame.push(checksum(0xEF, &payload));
    assert!(parse_frame(&frame).is_some());
    assert!(parse_status(&frame).is_none());
}

#[test]
fn nibbles_it_does_not_know_are_kept() {
    assert_eq!(Gear::selected(0xA), Gear::Standard);
    assert_eq!(Gear::selected(0xC), Gear::Strong);
    assert_eq!(Gear::selected(0xE), Gear::Overclock);
    assert_eq!(Gear::selected(0x2), Gear::Unknown(2));
    assert_eq!(Gear::ceiling(0x2), Gear::Standard);
    assert_eq!(Gear::ceiling(0x4), Gear::Strong);
    assert_eq!(Gear::ceiling(0x8), Gear::Unknown(8));
    assert_eq!(Gear::Unknown(0xB).to_string(), "unknown(0xb)");
    assert_eq!(Gear::Unknown(0x1F).to_string(), "unknown(0x1f)");
}

#[test]
fn names_read_back() {
    for gear in Gear::ALL {
        assert_eq!(gear.to_string().parse::<Gear>(), Ok(gear));
    }
    assert_eq!("turbo".parse::<Gear>(), Err(()));

    for standby in [Standby::Off, Standby::Instant, Standby::Delayed] {
        assert_eq!(standby.to_string().parse::<Standby>(), Ok(standby));
    }
    assert_eq!("never".parse::<Standby>(), Ok(Standby::Off));
    assert_eq!("immediate".parse::<Standby>(), Ok(Standby::Instant));
    assert_eq!("delay".parse::<Standby>(), Ok(Standby::Delayed));
    assert_eq!("later".parse::<Standby>(), Err(()));

    assert_eq!(Mode::Gear.to_string(), "gear");
    assert_eq!(Mode::Realtime.to_string(), "realtime");
}

#[test]
fn models_go_by_their_product_id() {
    assert_eq!(Model::from_pid(0x1001).map(Model::name), Some("BS1"));
    assert_eq!(Model::from_pid(0x1002).map(Model::name), Some("BS2 Pro"));
    assert_eq!(Model::from_pid(0x1003).map(Model::name), Some("BS3"));
    assert_eq!(Model::from_pid(0x1004).map(Model::name), Some("BS3 Pro"));
    assert_eq!(Model::from_pid(0x1005), None);
}

#[test]
fn the_supply_decides_how_fast_it_may_spin() {
    assert_eq!(Supply::from_byte(1), Supply::Low);
    assert_eq!(Supply::from_byte(2), Supply::Medium);
    assert_eq!(Supply::from_byte(3), Supply::Full);
    assert_eq!(Supply::from_byte(0), Supply::Unknown(0));

    assert_eq!(Supply::Low.max_rpm(), 2700);
    assert_eq!(Supply::Medium.max_rpm(), 3300);
    assert_eq!(Supply::Full.max_rpm(), 4000);
    assert_eq!(Supply::Unknown(7).max_rpm(), MAX_RPM);
    assert_eq!(Supply::Low.known_max_rpm(), Some(2700));
    assert_eq!(Supply::Unknown(7).known_max_rpm(), None);

    assert!(!Supply::Unknown(0).decided());
    assert!(Supply::Unknown(7).decided());

    assert_eq!(Supply::Low.max_gear(), Gear::Standard);
    assert!(Supply::Low.allows(Gear::Standard));
    assert!(!Supply::Low.allows(Gear::Strong));
    assert!(Supply::Medium.allows(Gear::Strong));
    assert!(!Supply::Medium.allows(Gear::Overclock));
    assert!(Supply::Full.allows(Gear::Overclock));
    assert!(Supply::Low.allows(Gear::Unknown(1)));

    assert_eq!(Supply::Medium.to_string(), "medium");
    assert_eq!(Supply::Unknown(12).to_string(), "unknown(12)");
}
