use flydigictl::lighting::{
    light_upload, preset_buffer, read_exact_color, BUFFER_LEN, FULL_BUFFER_LEN,
};
use flydigictl::protocol::{
    build_report, gear_light, light_effect, light_off, light_on, light_static, LightMode, Lighting,
    Rgb, CMD_LIGHT_APPLY, CMD_LIGHT_UPLOAD_BEGIN, CMD_LIGHT_UPLOAD_BLOCK, MAX_PAYLOAD, REPORT_LEN,
};

/// The channel dimmed the way single precision does it.
fn dimmed(channel: u8, brightness: u8) -> u8 {
    let factor = f32::from(brightness.min(100)) / 100.0;
    (f32::from(channel) * factor) as u8
}

#[test]
fn dimming_agrees_with_single_precision_everywhere() {
    for channel in 0..=255u8 {
        for brightness in 0..=255u8 {
            let color = Rgb {
                r: channel,
                g: 0,
                b: 255 - channel,
            };
            let lit = color.scaled(brightness);
            assert_eq!(lit.r, dimmed(channel, brightness), "{channel} at {brightness}");
            assert_eq!(lit.g, 0);
            assert_eq!(lit.b, dimmed(255 - channel, brightness));
        }
    }
}

/// The buffer a built-in effect installs, written down run by run.
fn painted(effect: u8, brightness: u8) -> [u8; BUFFER_LEN] {
    let mut buf = [0u8; BUFFER_LEN];
    let (mode, speed) = match effect {
        1 => (0x03, 0x0A),
        2 => (0x03, 0x06),
        3 => (0x03, 0x02),
        4 => (0x01, 0x02),
        _ => (0x02, 0x0A),
    };
    buf[1] = 0x02;
    buf[3] = mode;
    buf[4] = speed;
    buf[5] = brightness.min(100);

    let ramp: Option<[[u8; 3]; 4]> = match effect {
        1 => Some([[0, 0xFF, 0], [0x3F, 0xFF, 0x3F], [0xFF; 3], [0x3F, 0xFF, 0x3F]]),
        2 => Some([[0xFF, 0xFF, 0], [0xFF, 0xFF, 0x3F], [0xFF; 3], [0xFF, 0xFF, 0x3F]]),
        3 => Some([[0xFF, 0, 0], [0xFF, 0x3F, 0x3F], [0xFF; 3], [0xFF, 0x3F, 0x3F]]),
        _ => None,
    };

    if let Some(colors) = ramp {
        for half in [0usize, 90] {
            for (group, start) in [6usize, 36, 66].iter().enumerate() {
                for slot in 0..4 {
                    let at = half + start + slot * 3;
                    buf[at..at + 3].copy_from_slice(&colors[(slot + group) % 4]);
                }
            }
        }
        return buf;
    }

    if effect == 4 {
        for base in (0..BUFFER_LEN).step_by(30) {
            for slot in 0..2 {
                let at = base + 6 + slot * 3;
                buf[at..at + 3].copy_from_slice(&[0xFF, 0x00, 0x00]);
            }
        }
        return buf;
    }

    for (offset, bytes) in [
        (6usize, &[0xFF, 0xFF][..]),
        (8, &[0xFF, 0x1E, 0x1E, 0xA0][..]),
        (14, &[0x50][..]),
        (36, &[0x00, 0x00, 0x50, 0xFF][..]),
        (40, &[0xFF, 0xFF, 0x1E, 0x1E][..]),
        (44, &[0xA0][..]),
        (68, &[0x50, 0x1E, 0x1E, 0xA0][..]),
        (72, &[0xFF, 0xFF][..]),
        (74, &[0xFF][..]),
        (96, &[0xFF, 0xFF, 0xFF, 0x1E][..]),
        (100, &[0x1E, 0xA0][..]),
        (104, &[0x50][..]),
        (128, &[0x50, 0xFF, 0xFF, 0xFF][..]),
        (132, &[0x1E, 0x1E][..]),
        (134, &[0xA0][..]),
        (156, &[0x00, 0x00, 0x50, 0x1E][..]),
        (160, &[0x1E, 0xA0, 0xFF, 0xFF][..]),
        (164, &[0xFF][..]),
    ] {
        buf[offset..offset + bytes.len()].copy_from_slice(bytes);
    }

    buf
}

#[test]
fn presets_paint_what_the_firmware_would() {
    for effect in 0..=255u8 {
        for brightness in [0, 1, 50, 99, 100, 101, 255] {
            assert_eq!(
                preset_buffer(effect, brightness),
                painted(effect, brightness),
                "effect {effect} at {brightness}"
            );
        }
    }
}

#[test]
fn dimming_an_effect_changes_one_byte() {
    for effect in 0..=6u8 {
        let mut dimmer = preset_buffer(effect, 90);
        assert_eq!(dimmer[5], 90);
        dimmer[5] = 35;
        assert_eq!(dimmer, preset_buffer(effect, 35));
    }
}

/// What the device ends up holding after a run of reports.
fn received(reports: &[[u8; REPORT_LEN]]) -> Vec<u8> {
    reports
        .iter()
        .filter(|report| report[3] == CMD_LIGHT_UPLOAD_BLOCK)
        .flat_map(|report| report[5..3 + report[4] as usize].to_vec())
        .collect()
}

#[test]
fn an_upload_carries_the_buffer_whole() {
    for len in [0usize, 1, 14, 15, 16, 30, 186] {
        let buf: Vec<u8> = (0..len).map(|i| i as u8).collect();
        let reports = light_upload(&buf);

        assert_eq!(reports.len(), 3 + (len + MAX_PAYLOAD - 1) / MAX_PAYLOAD);
        assert_eq!(reports[0], light_on());
        assert_eq!(reports[1], build_report(CMD_LIGHT_UPLOAD_BEGIN, &[]));
        assert_eq!(
            reports[reports.len() - 1],
            build_report(CMD_LIGHT_APPLY, &[1])
        );
        assert_eq!(received(&reports), buf);
    }
}

#[test]
fn a_colour_fills_the_lit_steps_and_nothing_else() {
    let color = Rgb {
        r: 200,
        g: 100,
        b: 10,
    };
    let buf = received(&light_static(color, 50));
    assert_eq!(buf.len(), FULL_BUFFER_LEN);
    assert_eq!(
        &buf[..10],
        &[0x00, 0x02, 0x00, 0x00, 0x0A, 50, 200, 100, 10, 0x00]
    );

    for at in 10..FULL_BUFFER_LEN {
        let lit = [30, 60, 90, 120, 150].contains(&(at / 10 * 10));
        let expected = match at % 10 {
            6 if lit => 100,
            7 if lit => 50,
            8 if lit => 5,
            _ => 0,
        };
        assert_eq!(buf[at], expected, "byte {at}");
    }

    assert_eq!(received(&light_effect(3, 80)), painted(3, 80).to_vec());
}

#[test]
fn only_the_difference_is_sent() {
    let lighting = Lighting {
        mode: LightMode::Effect { effect: 3 },
        brightness: 60,
        indicators: true,
    };

    assert!(lighting.reports(Some(&lighting)).is_empty());

    let mut from = lighting;
    from.indicators = false;
    assert_eq!(lighting.reports(Some(&from)), vec![gear_light(true)]);

    let mut from = lighting;
    from.brightness = 10;
    assert_eq!(lighting.reports(Some(&from)), light_effect(3, 60));

    let off = Lighting {
        mode: LightMode::Off,
        ..lighting
    };
    assert_eq!(off.reports(Some(&lighting)), vec![light_off()]);
    assert_eq!(off.reports(None), vec![light_off(), gear_light(true)]);
}

#[test]
fn lighting_says_what_it_is() {
    let mut lighting = Lighting::default();
    assert_eq!(lighting.mode, LightMode::Off);
    assert_eq!(lighting.brightness, 100);
    assert!(lighting.indicators);
    assert_eq!(lighting.to_string(), "off");

    lighting.mode = LightMode::Static {
        color: Rgb {
            r: 0x0A,
            g: 0xA2,
            b: 0xF7,
        },
    };
    lighting.brightness = 7;
    assert_eq!(lighting.to_string(), "#0aa2f7 at 7%");

    lighting.mode = LightMode::Effect { effect: 3 };
    lighting.brightness = 100;
    assert_eq!(lighting.to_string(), "effect 3 at 100%");
}

#[test]
fn colours_are_six_hexadecimal_digits() {
    let violet = Some(Rgb {
        r: 0x7A,
        g: 0xA2,
        b: 0xF7,
    });
    assert_eq!(read_exact_color("7aa2f7"), violet);
    assert_eq!(read_exact_color("#7AA2F7"), violet);
    assert_eq!(read_exact_color("#7aa2f"), None);
    assert_eq!(read_exact_color("7aa2f7ff"), None);
    assert_eq!(read_exact_color("##7aa2f7"), None);
    assert_eq!(read_exact_color("7aa2g7"), None);
    assert_eq!(
        read_exact_color("+1+2+3"),
        Some(Rgb { r: 1, g: 2, b: 3 })
    );
}
