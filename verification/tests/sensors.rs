use flydigictl::config::{Kind, Sensor};
use flydigictl::nvidia;
use flydigictl::nvidia::{Part, PciDevice};
use flydigictl::screens::{all_dark, is_dark, Output};
use flydigictl::sensor::{
    address_of, i2c_client_address, inputs_of, is_pci_address, label_of, list, read, resolve_all,
    short_address, Available, Chip, Input,
};
use flydigictl::text::{rank, sort_names};

#[test]
fn recognises_pci_slots() {
    assert!(is_pci_address("0000:05:00.0"));
    assert!(is_pci_address("0000:00:18.3"));
    assert!(!is_pci_address("pci0000:00"));
    assert!(!is_pci_address("i2c-21"));
    assert!(!is_pci_address("nvme0"));
    assert!(!is_pci_address("0000:05:00.0.1"));
}

#[test]
fn takes_the_chip_half_of_an_i2c_name() {
    assert_eq!(i2c_client_address("21-0050"), Some("0050"));
    assert_eq!(i2c_client_address("3-004f"), Some("004f"));
    assert_eq!(i2c_client_address("i2c-21"), None);
    assert_eq!(i2c_client_address("nvme0"), None);
}

#[test]
fn shows_the_readable_tail() {
    assert_eq!(short_address("0000:05:00.0"), "05:00.0");
    assert_eq!(short_address("0000:00:14.0/0050"), "0050");
    assert_eq!(short_address("thermal_zone0"), "thermal_zone0");
}

#[test]
fn short_addresses_at_the_edges() {
    assert_eq!(short_address(""), "");
    assert_eq!(short_address("0000:"), "");
    assert_eq!(short_address("a/b/c"), "c");
    assert_eq!(short_address("a/"), "");
    assert_eq!(short_address("0001:05:00.0"), "0001:05:00.0");
}

#[test]
fn slots_and_clients_at_the_edges() {
    assert!(is_pci_address("0000.05.00:0"));
    assert!(is_pci_address("ABCD:ef:01.9"));
    assert!(!is_pci_address("000g:05:00.0"));
    assert!(!is_pci_address("0000:05:00"));
    assert!(!is_pci_address(""));
    assert_eq!(i2c_client_address("-0050"), None);
    assert_eq!(i2c_client_address("21-005"), None);
    assert_eq!(i2c_client_address("21-00500"), None);
    assert_eq!(i2c_client_address("21-00g0"), None);
    assert_eq!(i2c_client_address("2-1-0050"), None);
}

fn strings(parts: &[&str]) -> Vec<String> {
    parts.iter().map(|part| part.to_string()).collect()
}

#[test]
fn an_address_is_the_last_slot_and_the_clients_below() {
    let dimm = strings(&[
        "/", "sys", "devices", "pci0000:00", "0000:00:14.0", "i2c-21", "21-0050", "hwmon",
    ]);
    assert_eq!(address_of(&dimm).as_deref(), Some("0000:00:14.0/0050"));

    let drive = strings(&["0000:00:01.1", "0000:05:00.0", "nvme", "nvme0", "hwmon3"]);
    assert_eq!(address_of(&drive).as_deref(), Some("0000:05:00.0"));

    // A client above the slot has nothing to do with it.
    let above = strings(&["1-0010", "0000:05:00.0", "2-0020", "3-0030"]);
    assert_eq!(address_of(&above).as_deref(), Some("0000:05:00.0/0020/0030"));

    assert_eq!(address_of(&strings(&["sys", "21-0050"])), None);
    assert_eq!(address_of(&Vec::new()), None);
}

#[test]
fn an_address_outlasts_a_reboot() {
    let before = strings(&["devices", "0000:05:00.0", "nvme", "nvme0", "hwmon3"]);
    let after = strings(&["devices", "0000:05:00.0", "nvme", "nvme1", "hwmon7"]);
    assert_eq!(address_of(&before).as_deref(), Some("0000:05:00.0"));
    assert_eq!(address_of(&before), address_of(&after));

    let before = strings(&["0000:00:14.0", "i2c-21", "21-0050", "hwmon"]);
    let after = strings(&["0000:00:14.0", "i2c-3", "3-0050", "hwmon"]);
    assert_eq!(address_of(&before).as_deref(), Some("0000:00:14.0/0050"));
    assert_eq!(address_of(&before), address_of(&after));
}

#[test]
fn readings_are_whole_degrees() {
    assert_eq!(read("49000\n"), Some(49));
    assert_eq!(read("49999"), Some(49));
    assert_eq!(read("  +255999  "), Some(255));
    assert_eq!(read("256000"), None);
    assert_eq!(read("0"), Some(0));
    assert_eq!(read("-999"), Some(0));
    assert_eq!(read("-1000"), None);
    assert_eq!(read("-"), None);
    assert_eq!(read("-+5"), None);
    assert_eq!(read("4x"), None);
    assert_eq!(read(""), None);
    assert_eq!(read("99999999999999999999"), None);
}

#[test]
fn inputs_are_found_and_named() {
    let files = strings(&[
        "temp2_input",
        "temp1_label",
        "name",
        "temp10_input",
        "in0_input",
        "temp1_input",
        "temp1_input2",
    ]);
    assert_eq!(
        inputs_of(&files),
        ["temp10_input", "temp1_input", "temp2_input"]
    );
    assert_eq!(label_of("temp1_input"), "temp1_label");
    assert_eq!(label_of("temp_input_input"), "temp_label_label");
    assert_eq!(label_of("temp1"), "temp1");
}

#[test]
fn names_are_put_in_order() {
    let names = strings(&["hidraw9", "hidraw10", "", "hidraw", "hidraw10"]);
    assert_eq!(
        sort_names(names),
        ["", "hidraw", "hidraw10", "hidraw10", "hidraw9"]
    );
    let names = strings(&["hidraw9", "hidraw10", "", "hidraw", "hidraw10"]);
    assert_eq!(rank(&names), [2, 3, 1, 4, 0]);
}

fn chips() -> Vec<Chip> {
    vec![
        Chip {
            dir: "hwmon0".to_string(),
            name: Some("nvme\n".to_string()),
            kernel: "nvme0".to_string(),
            parts: Some(strings(&["0000:05:00.0", "nvme", "nvme0"])),
            inputs: vec![
                Input {
                    path: "/h0/temp1_input".to_string(),
                    label: Some("Composite\n".to_string()),
                },
                Input {
                    path: "/h0/temp2_input".to_string(),
                    label: None,
                },
            ],
        },
        Chip {
            dir: "hwmon1".to_string(),
            name: None,
            kernel: "lost".to_string(),
            parts: None,
            inputs: vec![Input {
                path: "/h1/temp1_input".to_string(),
                label: None,
            }],
        },
        Chip {
            dir: "hwmon2".to_string(),
            name: Some("nvme".to_string()),
            kernel: "nvme1".to_string(),
            parts: None,
            inputs: vec![Input {
                path: "/h2/temp1_input".to_string(),
                label: Some("Composite".to_string()),
            }],
        },
    ]
}

#[test]
fn chips_offer_their_inputs() {
    let offered = list(&chips());
    assert_eq!(offered.len(), 3);
    assert_eq!(
        offered[0],
        Available {
            hwmon: "nvme".to_string(),
            device: "0000:05:00.0".to_string(),
            kernel: "nvme0".to_string(),
            label: "Composite".to_string(),
            path: "/h0/temp1_input".to_string(),
        }
    );
    assert_eq!(offered[1].label, "");
    // Without an address the kernel's name has to do.
    assert_eq!(offered[2].device, "nvme1");
}

#[test]
fn chips_and_inputs_are_listed_in_order() {
    let mut shuffled = chips();
    shuffled.reverse();
    shuffled[2].inputs.reverse();
    assert_eq!(list(&shuffled), list(&chips()));
    let paths: Vec<String> = list(&shuffled).into_iter().map(|entry| entry.path).collect();
    assert_eq!(
        paths,
        ["/h0/temp1_input", "/h0/temp2_input", "/h2/temp1_input"]
    );
}

fn sensor(hwmon: &str, device: &str, label: &str) -> Sensor {
    Sensor {
        kind: Kind::Hwmon,
        hwmon: hwmon.to_string(),
        device: device.to_string(),
        label: label.to_string(),
    }
}

#[test]
fn empty_fields_match_anything() {
    let offered = list(&chips());
    let paths = |hwmon: &str, device: &str, label: &str| {
        resolve_all(&sensor(hwmon, device, label), &offered)
    };

    assert_eq!(
        paths("nvme", "", ""),
        ["/h0/temp1_input", "/h0/temp2_input", "/h2/temp1_input"]
    );
    assert_eq!(
        paths("nvme", "", "Composite"),
        ["/h0/temp1_input", "/h2/temp1_input"]
    );
    assert_eq!(
        paths("nvme", "0000:05:00.0", ""),
        ["/h0/temp1_input", "/h0/temp2_input"]
    );
    // The kernel's name works too.
    assert_eq!(paths("nvme", "nvme0", "Composite"), ["/h0/temp1_input"]);
    assert!(paths("k10temp", "", "").is_empty());
    assert!(paths("nvme", "", "Tctl").is_empty());
}

#[test]
fn reads_a_plain_number() {
    assert_eq!(nvidia::parse("47\n"), Some(47));
    assert_eq!(nvidia::parse(" 61 "), Some(61));
}

#[test]
fn refuses_an_answer_that_is_not_one() {
    assert_eq!(nvidia::parse("N/A"), None);
    assert_eq!(nvidia::parse(""), None);
    assert_eq!(nvidia::parse("0"), None);
    assert_eq!(nvidia::parse("300"), None);
}

#[test]
fn an_answer_at_the_edges() {
    assert_eq!(nvidia::parse("127"), Some(127));
    assert_eq!(nvidia::parse("128"), None);
    assert_eq!(nvidia::parse("+5"), Some(5));
    assert_eq!(nvidia::parse("-5"), None);
    assert_eq!(nvidia::parse("4294967296"), None);
}

#[test]
fn a_sleeping_card_is_not_asked() {
    assert_eq!(nvidia::awake(Some("active\n")), Some(true));
    assert_eq!(nvidia::awake(Some("suspended\n")), Some(false));
    assert_eq!(nvidia::awake(None), None);

    assert!(nvidia::worth_asking(Some("active")));
    assert!(!nvidia::worth_asking(Some("suspending")));
    assert!(nvidia::worth_asking(None));

    assert_eq!(nvidia::read_temperature(Some("suspended"), Some("47")), None);
    assert_eq!(nvidia::read_temperature(Some("active"), Some("47\n")), Some(47));
    assert_eq!(nvidia::read_temperature(None, Some("47")), Some(47));
    assert_eq!(nvidia::read_temperature(None, None), None);

    assert_eq!(
        nvidia::power_state(Some(" suspended\n")).as_deref(),
        Some("suspended")
    );
    assert_eq!(nvidia::power_state(None), None);
}

#[test]
fn parts_of_a_card_are_found_by_their_label() {
    for part in [Part::Core, Part::Memory] {
        assert_eq!(Part::named(part.label()), part);
    }
    assert_eq!(Part::Core.label(), "core");
    assert_eq!(Part::Memory.label(), "memory");
    assert_eq!(Part::named(""), Part::Core);
    assert_eq!(Part::named("Memory"), Part::Core);
    assert_eq!(Part::Core.query(), "temperature.gpu");
    assert_eq!(Part::Memory.query(), "temperature.memory");
}

#[test]
fn cards_are_display_controllers_of_one_vendor() {
    let device = |address: &str, vendor: Option<&str>, class: Option<&str>| PciDevice {
        address: address.to_string(),
        vendor: vendor.map(str::to_string),
        class: class.map(str::to_string),
    };
    let devices = vec![
        device("0000:02:00.0", Some("0x10de\n"), Some("0x030200\n")),
        device("0000:01:00.1", Some("0x10de\n"), Some("0x040300\n")),
        device("0000:01:00.0", Some("0x10de\n"), Some("0x030000\n")),
        device("0000:00:02.0", Some("0x8086\n"), Some("0x030000\n")),
        device("0000:00:03.0", None, Some("0x030000\n")),
        device("0000:00:04.0", Some("0x10de"), None),
    ];
    assert_eq!(nvidia::cards(&devices), ["0000:01:00.0", "0000:02:00.0"]);
}

#[test]
fn reads_an_output_as_dark_either_way() {
    assert!(is_dark(Some("disabled"), Some("On")));
    assert!(is_dark(Some("enabled"), Some("Off")));
    assert!(!is_dark(Some("enabled"), Some("On")));
}

#[test]
fn missing_attributes_mean_lit() {
    assert!(!is_dark(None, None));
}

fn output(status: &str, enabled: &str, dpms: &str) -> Output {
    Output {
        status: Some(status.to_string()),
        enabled: Some(enabled.to_string()),
        dpms: Some(dpms.to_string()),
    }
}

#[test]
fn judges_a_machine_by_its_connected_outputs() {
    // A laptop panel that is off, an external monitor that is not, and a
    // pile of connectors with nothing plugged in.
    let outputs = vec![
        output("connected", "disabled", "Off"),
        output("connected", "enabled", "On"),
        output("disconnected", "disabled", "Off"),
    ];
    assert_eq!(all_dark(Some(&outputs)), Some(false));

    let outputs = vec![
        output("connected", "disabled", "Off"),
        output("connected", "disabled", "Off"),
        output("disconnected", "disabled", "Off"),
    ];
    assert_eq!(all_dark(Some(&outputs)), Some(true));

    // Nothing plugged in anywhere is nothing to light for either.
    let outputs = vec![
        output("disconnected", "disabled", "Off"),
        output("disconnected", "disabled", "Off"),
        output("disconnected", "disabled", "Off"),
    ];
    assert_eq!(all_dark(Some(&outputs)), Some(true));
}

#[test]
fn says_nothing_without_drm() {
    assert_eq!(all_dark(None), None);
}

#[test]
fn attributes_come_with_their_newlines() {
    let lit = vec![
        output("connected\n", "disabled\n", "On\n"),
        output("connected\n", "enabled\n", "On\n"),
    ];
    assert_eq!(all_dark(Some(&lit)), Some(false));

    let dark = vec![output("connected\n", "enabled\n", "Off\n")];
    assert_eq!(all_dark(Some(&dark)), Some(true));

    let silent = vec![Output {
        status: Some("connected".to_string()),
        enabled: None,
        dpms: None,
    }];
    assert_eq!(all_dark(Some(&silent)), Some(false));
}

#[test]
fn a_kernel_that_reports_nothing_is_not_judged() {
    let mute = || Output {
        status: None,
        enabled: None,
        dpms: None,
    };
    assert_eq!(all_dark(Some(&Vec::new())), None);
    assert_eq!(all_dark(Some(&vec![mute(), mute()])), None);

    // What an entry without a status says otherwise does not count either.
    let switched_off = Output {
        status: None,
        enabled: Some("disabled".to_string()),
        dpms: Some("Off".to_string()),
    };
    assert_eq!(all_dark(Some(&vec![switched_off])), None);

    let one = vec![mute(), output("disconnected", "disabled", "Off")];
    assert_eq!(all_dark(Some(&one)), Some(true));
    let one = vec![output("connected", "enabled", "On"), mute()];
    assert_eq!(all_dark(Some(&one)), Some(false));
}
