use flydigictl::device::{
    await_ack, await_answer, await_status, command_of, find_all, first, framed, named, parse_hid_id,
    probe_model, transport_of, wired_first, Found, Node, Seen, Transport, Wait,
};
use flydigictl::error::Error;
use flydigictl::protocol::{
    checksum, enter_realtime, query_supply, Model, REPORT_ID_OUT, REPORT_LEN,
};

#[test]
fn matches_bluetooth_attached_cooler() {
    let uevent = "DRIVER=hid-generic\nHID_ID=0005:000037D7:00001004\nHID_NAME=FlyDigi BS3PRO\n";
    assert_eq!(
        parse_hid_id(uevent),
        Some((Model::Bs3Pro, Transport::Bluetooth))
    );
}

#[test]
fn matches_usb_attached_cooler() {
    let uevent = "HID_ID=0003:000037D7:00001002\n";
    assert_eq!(parse_hid_id(uevent), Some((Model::Bs2Pro, Transport::Usb)));
}

/// A cooler plugged into this machine appears on both transports at once,
/// and the wired one is the one to talk to. Node names say nothing: which
/// number each lands on changes from boot to boot.
#[test]
fn a_wired_cooler_outranks_the_same_one_over_bluetooth() {
    let found = vec![
        Found {
            path: "/dev/hidraw9".to_string(),
            model: Model::Bs3Pro,
            transport: Transport::Bluetooth,
        },
        Found {
            path: "/dev/hidraw0".to_string(),
            model: Model::Bs3Pro,
            transport: Transport::Usb,
        },
    ];

    let found = wired_first(&found);

    assert_eq!(found[0].transport, Transport::Usb);
}

/// Written reports are built in the Bluetooth shape; the USB path drops the
/// report id and pads to its own length.
#[test]
fn usb_writes_start_at_the_magic() {
    let report = query_supply();
    assert_eq!(report[0], REPORT_ID_OUT);

    let (len, from) = Transport::Usb.write_shape();
    assert_eq!(len, 31);
    assert_eq!(&report[from..from + 2], &[0x5A, 0xA5]);

    let (len, from) = Transport::Bluetooth.write_shape();
    assert_eq!((len, from), (REPORT_LEN, 0));
}

#[test]
fn ignores_other_vendors() {
    assert_eq!(parse_hid_id("HID_ID=0003:0000258A:000001A2\n"), None);
    assert_eq!(parse_hid_id("DRIVER=hid-generic\n"), None);
}

#[test]
fn reads_ids_however_the_line_ends() {
    let bs1 = Some((Model::Bs1, Transport::Usb));
    assert_eq!(parse_hid_id("A=1\r\nHID_ID=3:37d7:1001\r\n"), bs1);
    assert_eq!(parse_hid_id("HID_ID=3:37d7:1001"), bs1);
    assert_eq!(parse_hid_id("HID_ID=3:37d7:1001:ignored\nB=2"), bs1);
    assert_eq!(parse_hid_id("HID_ID=+3:+37d7:+1001\n"), bs1);

    // Only the low half of the product counts.
    assert_eq!(parse_hid_id("HID_ID=3:37d7:50001001"), bs1);

    assert_eq!(parse_hid_id("HID_ID=3:37d7:1001\r"), None);
    assert_eq!(parse_hid_id("HID_ID=3:37d7"), None);
    assert_eq!(parse_hid_id("HID_ID=3"), None);
    assert_eq!(parse_hid_id("HID_ID=:37d7:1001"), None);
    assert_eq!(parse_hid_id("HID_ID=3:37d7:"), None);
    assert_eq!(parse_hid_id("HID_ID=100000000:37d7:1001"), None);
    assert_eq!(parse_hid_id("HID_ID=3:37d7:1009"), None);
    assert_eq!(parse_hid_id(" HID_ID=3:37d7:1001"), None);
    assert_eq!(parse_hid_id(""), None);

    // The first such line decides, good or bad.
    assert_eq!(parse_hid_id("HID_ID=x\nHID_ID=3:37d7:1001\n"), None);
}

fn node(name: &str, uevent: Option<&str>) -> Node {
    Node {
        name: name.to_string(),
        uevent: uevent.map(str::to_string),
    }
}

#[test]
fn finds_coolers_and_puts_wired_ones_first() {
    let nodes = vec![
        node("hidraw0", Some("HID_ID=0005:000037D7:00001004\n")),
        node("hidraw1", None),
        node("hidraw2", Some("HID_ID=0003:0000258A:000001A2\n")),
        node("hidraw3", Some("HID_ID=0003:000037D7:00001004\n")),
        node("hidraw4", Some("HID_ID=0005:000037D7:00001003\n")),
    ];

    let found = find_all(&nodes);
    let paths: Vec<&str> = found.iter().map(|one| one.path.as_str()).collect();
    assert_eq!(paths, ["/dev/hidraw3", "/dev/hidraw0", "/dev/hidraw4"]);
    assert_eq!(found[2].model, Model::Bs3);

    assert_eq!(first(&found).unwrap().path, "/dev/hidraw3");
    assert!(matches!(first(&Vec::new()), Err(Error::NotFound)));
}

#[test]
fn coolers_come_in_order_of_name() {
    let wireless = Some("HID_ID=0005:000037D7:00001004\n");
    let wired = Some("HID_ID=0003:000037D7:00001002\n");
    let nodes = vec![
        node("hidraw9", wireless),
        node("hidraw3", wired),
        node("hidraw10", wireless),
        node("hidraw2", wired),
        node("hidraw1", None),
    ];
    let found = find_all(&nodes);
    let paths: Vec<&str> = found.iter().map(|one| one.path.as_str()).collect();
    assert_eq!(
        paths,
        ["/dev/hidraw2", "/dev/hidraw3", "/dev/hidraw10", "/dev/hidraw9"]
    );
    assert_eq!(found[0].model, Model::Bs2Pro);
    assert_eq!(found[3].transport, Transport::Bluetooth);
}

#[test]
fn a_named_path_is_believed() {
    let uevent = "HID_ID=0003:000037D7:00001002\n";
    assert_eq!(probe_model(Some(uevent)), Some(Model::Bs2Pro));
    assert_eq!(transport_of(Some(uevent)), Some(Transport::Usb));
    assert_eq!(probe_model(None), None);
    assert_eq!(transport_of(Some("")), None);

    let known = named("/dev/hidraw7".to_string(), Some(uevent));
    assert_eq!(known.path, "/dev/hidraw7");
    assert_eq!(known.model, Model::Bs2Pro);
    assert_eq!(known.transport, Transport::Usb);

    let unknown = named("/dev/elsewhere".to_string(), None);
    assert_eq!(unknown.model, Model::Bs3Pro);
    assert_eq!(unknown.transport, Transport::Bluetooth);
}

#[test]
fn both_transports_carry_the_same_frame() {
    let report = enter_realtime();
    assert_eq!(framed(Transport::Bluetooth, &report), report.to_vec());

    let usb = framed(Transport::Usb, &report);
    assert_eq!(usb.len(), 31);
    assert_eq!(&usb[..24], &report[1..]);
    assert_eq!(&usb[24..], &[0; 7]);

    // Shorter and longer than it should be.
    assert_eq!(framed(Transport::Usb, &[9]), vec![0; 31]);
    assert_eq!(framed(Transport::Bluetooth, &[7; 40]), vec![7; 25]);
}

fn frame(lead: u8, cmd: u8, payload: &[u8]) -> Vec<u8> {
    let mut bytes = vec![lead, 0x5A, 0xA5, cmd, 2 + payload.len() as u8];
    bytes.extend_from_slice(payload);
    bytes.push(checksum(cmd, payload));
    bytes.resize(32, 0);
    bytes
}

#[test]
fn an_acknowledgement_echoes_the_command() {
    assert_eq!(command_of(&enter_realtime()), 0x23);

    for (transport, lead) in [(Transport::Bluetooth, 0x01), (Transport::Usb, 0x03)] {
        let ack = |payload: &[u8]| {
            await_ack(0x21, transport, Seen::Bytes(frame(lead, 0x21, payload)))
        };
        assert!(matches!(ack(&[0x02]), Wait::Done(2)));
        assert!(matches!(ack(&[]), Wait::Done(0)));
    }

    let bluetooth = Transport::Bluetooth;
    let other = Seen::Bytes(frame(0x01, 0x23, &[1]));
    assert!(matches!(await_ack(0x21, bluetooth, other), Wait::Again));
    let telemetry = Seen::Bytes(frame(0x01, 0xEF, &[0; 11]));
    assert!(matches!(await_ack(0xEF, bluetooth, telemetry), Wait::Again));
    let lead = Seen::Bytes(frame(0x03, 0x21, &[1]));
    assert!(matches!(await_ack(0x21, bluetooth, lead), Wait::Again));
    assert!(matches!(
        await_ack(0x21, bluetooth, Seen::Interrupted),
        Wait::Again
    ));
}

#[test]
fn an_answer_is_its_payload() {
    let seen = Seen::Bytes(frame(0x01, 0x07, &[3, 9]));
    match await_answer(0x07, Transport::Bluetooth, seen) {
        Wait::Done(payload) => assert_eq!(payload, [3, 9]),
        other => panic!("{other:?}"),
    }
    let seen = Seen::Bytes(frame(0x01, 0x45, &[3]));
    assert!(matches!(
        await_answer(0x07, Transport::Bluetooth, seen),
        Wait::Again
    ));
}

#[test]
fn a_status_is_waited_for_past_other_frames() {
    let status = [0x68, 0x03, 0x05, 0x6C, 0x07, 0xD0, 0x07, 0x01, 0x01, 0xB4, 0x23];
    match await_status(Transport::Usb, Seen::Bytes(frame(0x03, 0xEF, &status))) {
        Wait::Done(status) => {
            assert_eq!(status.current_rpm, 1900);
            assert_eq!(status.target_rpm, 2000);
        }
        other => panic!("{other:?}"),
    }
    let ack = Seen::Bytes(frame(0x01, 0x21, &[1]));
    assert!(matches!(
        await_status(Transport::Bluetooth, ack),
        Wait::Again
    ));
}

#[test]
fn silence_is_blamed_on_the_command() {
    let text = |wait: Wait<u8>| match wait {
        Wait::Failed(error) => error.to_string(),
        other => panic!("{other:?}"),
    };
    let ack = |seen: Seen| text(await_ack(0x0D, Transport::Bluetooth, seen));

    assert_eq!(ack(Seen::Expired), "no acknowledgement of command 0x0d");
    assert_eq!(ack(Seen::Quiet), "no acknowledgement of command 0x0d");
    assert_eq!(ack(Seen::HungUp), "device went away");
    assert_eq!(ack(Seen::Closed), "device went away");
    assert_eq!(
        ack(Seen::PollFailed("EINVAL".to_string())),
        "poll failed: EINVAL"
    );
    assert_eq!(
        ack(Seen::ReadFailed("EIO".to_string())),
        "read failed: EIO"
    );

    match await_status(Transport::Bluetooth, Seen::Quiet) {
        Wait::Failed(error) => assert_eq!(error.to_string(), "timed out waiting for status"),
        other => panic!("{other:?}"),
    }
    match await_answer(0x45, Transport::Bluetooth, Seen::Quiet) {
        Wait::Failed(error) => {
            assert_eq!(error.to_string(), "no acknowledgement of command 0x45")
        }
        other => panic!("{other:?}"),
    }
}

#[test]
fn errors_say_what_went_wrong() {
    assert_eq!(
        Error::NotFound.to_string(),
        "no cooler found (check bluetooth pairing and udev rules)"
    );
    assert_eq!(
        Error::Open {
            path: "/dev/hidraw0".to_string(),
            source: "Permission denied".to_string(),
        }
        .to_string(),
        "cannot open /dev/hidraw0: Permission denied"
    );
    assert_eq!(
        Error::Write("broken".to_string()).to_string(),
        "write failed: broken"
    );
    assert_eq!(
        Error::RpmOutOfRange {
            rpm: 300,
            min: 500,
            max: 4000,
        }
        .to_string(),
        "rpm 300 out of range (500-4000, or 0 to stop)"
    );
    assert_eq!(Error::Config("no".to_string()).to_string(), "no");
}
