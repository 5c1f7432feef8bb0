use hwrng::devices::{
    bus_attributes, describe_bus_device, describe_tpm, describe_usb, driver_attributes,
    first_probe, next_probe, remark, tpm_attributes, usb_device_files, usb_device_path, Attribute,
    Bus, Probe, Source,
};
use hwrng::drivers::{drivers_dir, find_driver, pick_device, DirEntry};

fn some(s: &str) -> Option<String> {
    Some(s.to_string())
}

/// All candidates for a name, down to the final one.
fn walk(name: &str) -> Vec<String> {
    let mut shown: Vec<String> = Vec::new();
    let mut probe = first_probe(name);
    loop {
        shown.push(match &probe {
            Probe::Noop => "noop".to_string(),
            Probe::Tpm { path } => format!("tpm {path}"),
            Probe::Usb { path, suffix } => format!("usb {path} {suffix}"),
            Probe::OnBus { bus } => bus.name().to_string(),
            Probe::Unmapped => "unmapped".to_string(),
        });
        if remark(&probe).is_some() {
            return shown;
        }
        probe = next_probe(name, &probe);
    }
}

#[test]
fn candidates_are_probed_in_order() {
    assert_eq!(walk("none"), ["noop"]);
    assert_eq!(
        walk("tpm-rng-0"),
        [
            "tpm /sys/class/tpm/tpm0",
            "usb /sys/bus/usb/devices/rng-0 rng-0",
            "virtio",
            "pci",
            "platform",
            "unmapped",
        ]
    );
    assert_eq!(
        walk("infnoise-1-1:1.0"),
        [
            "usb /sys/bus/usb/devices/1-1:1.0 1-1:1.0",
            "virtio",
            "pci",
            "platform",
            "unmapped",
        ]
    );
    assert_eq!(walk("bcm2835"), ["virtio", "pci", "platform", "unmapped"]);
    assert_eq!(walk("none-")[0], "usb /sys/bus/usb/devices/ ");
    assert_eq!(walk("x-/etc")[0], "usb /etc /etc");
}

#[test]
fn final_candidates_have_remarks() {
    assert_eq!(remark(&Probe::Noop), Some("  (kernel no-op rng)\n"));
    assert_eq!(remark(&Probe::Unmapped), Some("  (no device mapping known)\n"));
    assert_eq!(remark(&Probe::OnBus { bus: Bus::Pci }), None);
    assert!(matches!(next_probe("x", &Probe::Unmapped), Probe::Unmapped));
    assert!(matches!(next_probe("none", &Probe::Noop), Probe::Noop));
}

fn sources(list: &[Attribute]) -> Vec<(&str, bool)> {
    list.iter().map(|a| (a.file, a.source == Source::LinkName)).collect()
}

#[test]
fn attributes_say_what_to_read() {
    assert_eq!(
        sources(&tpm_attributes()),
        [("tpm_version_major", false), ("device/driver", true), ("device/modalias", false)]
    );
    assert_eq!(sources(&driver_attributes()), [("driver", true), ("modalias", false)]);
    assert_eq!(
        sources(&bus_attributes(Bus::Pci)),
        [("vendor", false), ("device", false), ("class", false)]
    );
    assert_eq!(
        sources(&bus_attributes(Bus::Virtio)),
        [("vendor", false), ("device", false)]
    );
    assert_eq!(
        sources(&bus_attributes(Bus::Platform)),
        [("of_node/compatible", false), ("firmware_node", true)]
    );
    assert_eq!(
        usb_device_files(),
        ["idVendor", "manufacturer", "idProduct", "product", "serial", "bcdDevice"]
    );
}

#[test]
fn a_tpm_is_described() {
    assert_eq!(
        describe_tpm("/sys/class/tpm/tpm0", &[some("2"), some("tpm_tis"), some("acpi:X")]),
        "  device:      /sys/class/tpm/tpm0\n  tpm-version: 2\n  driver:      tpm_tis\n  modalias:    acpi:X\n"
    );
    assert_eq!(
        describe_tpm("/t", &[None, some("d"), None]),
        "  device:      /t\n  driver:      d\n"
    );
    assert_eq!(describe_tpm("/t", &[]), "  device:      /t\n");
}

#[test]
fn a_bus_device_is_described() {
    assert_eq!(
        describe_bus_device(
            "/sys/devices/pci0000:00/0000:00:1f.0",
            Bus::Pci,
            &[some("intel-rng"), some("pci:v8086")],
            &[some("0x8086"), some("0x1234"), some("0x060100")],
        ),
        "  device:      /sys/devices/pci0000:00/0000:00:1f.0\n  driver:      intel-rng\n  modalias:    pci:v8086\n  pci-bdf:     0000:00:1f.0\n  pci-vendor:  0x8086\n  pci-device:  0x1234\n  pci-class:   0x060100\n"
    );
    assert_eq!(
        describe_bus_device("/v", Bus::Virtio, &[None, None], &[some("0x1af4"), some("0x0004")]),
        "  device:      /v\n  virtio-vendor: 0x1af4\n  virtio-device: 0x0004\n"
    );
    assert_eq!(
        describe_bus_device("/p", Bus::Platform, &[None, None], &[some("brcm"), some("n")]),
        "  device:      /p\n  of-compatible: brcm\n  firmware:    n\n"
    );
    assert_eq!(describe_bus_device("/", Bus::Pci, &[], &[]), "  device:      /\n");
}

#[test]
fn a_usb_interface_is_described_with_its_device() {
    let device = Some(vec![
        some("0403"),
        some("FTDI"),
        some("6015"),
        None,
        some("1337"),
        some("1000"),
    ]);
    assert_eq!(
        describe_usb("/u/1-1:1.0", &[some("infnoise"), some("usb:v")], &device),
        "  device:      /u/1-1:1.0\n  driver:      infnoise\n  modalias:    usb:v\n  usb-vendor:  0403 (FTDI)\n  usb-product: 6015\n  serial:      1337\n  bcd-device:  1000\n"
    );
    // A manufacturer or a product name alone is not shown.
    let device = Some(vec![None, some("FTDI"), some("6015"), some("TRNG"), None, None]);
    assert_eq!(
        describe_usb("/u", &[None, None], &device),
        "  device:      /u\n  usb-product: 6015 (TRNG)\n"
    );
    assert_eq!(describe_usb("/u", &[None, None], &None), "  device:      /u\n");
}

#[test]
fn the_usb_device_is_named_before_the_colon() {
    assert_eq!(usb_device_path("1-1:1.0"), "/sys/bus/usb/devices/1-1");
    assert_eq!(usb_device_path("rng-0"), "/sys/bus/usb/devices/rng-0");
    assert_eq!(usb_device_path(":1.0"), "/sys/bus/usb/devices/");
    assert_eq!(usb_device_path("/a:b"), "/a");
}

#[test]
fn the_first_driver_of_the_same_root_is_found() {
    let drivers: Vec<String> =
        ["virtio_net", "virtio_rng", "virtio"].iter().map(|s| s.to_string()).collect();
    assert_eq!(find_driver("virtio_rng.0", &drivers), Some(1));
    assert_eq!(find_driver("virtio-net", &drivers), Some(0));
    assert_eq!(find_driver("intel", &drivers), None);
    assert_eq!(drivers_dir(Bus::Virtio), "/sys/bus/virtio/drivers");
    assert_eq!(drivers_dir(Bus::Pci), "/sys/bus/pci/drivers");
    assert_eq!(drivers_dir(Bus::Platform), "/sys/bus/platform/drivers");
}

fn entries(list: &[(&str, bool)]) -> Vec<DirEntry> {
    list.iter()
        .map(|(name, is_symlink)| DirEntry {
            name: name.as_bytes().to_vec(),
            is_symlink: *is_symlink,
        })
        .collect()
}

#[test]
fn the_index_picks_among_the_sorted_links() {
    let list = entries(&[
        ("virtio3", true),
        ("bind", false),
        ("virtio10", true),
        ("module", true),
        ("uevent", false),
    ]);
    // In order: module, virtio10, virtio3.
    assert_eq!(pick_device("virtio_rng.0", &list), Some(3));
    assert_eq!(pick_device("virtio_rng.1", &list), Some(2));
    assert_eq!(pick_device("virtio_rng.2", &list), Some(0));
    assert_eq!(pick_device("virtio_rng.3", &list), None);
    assert_eq!(pick_device("virtio_rng", &list), Some(3));
    assert_eq!(pick_device("x", &entries(&[("bind", false)])), None);
    assert_eq!(pick_device("x", &[]), None);
}

#[test]
fn the_order_of_the_listing_does_not_matter() {
    let names = ["b", "ab", "a", "", "é", "B", "abc"];
    let mut sorted = names.to_vec();
    sorted.sort();
    for turn in 0..names.len() {
        let mut listed: Vec<(&str, bool)> = names.iter().map(|n| (*n, true)).collect();
        listed.rotate_left(turn);
        let list = entries(&listed);
        for (i, expected) in sorted.iter().enumerate() {
            let k = pick_device(&format!("x.{i}"), &list).unwrap();
            assert_eq!(list[k].name, expected.as_bytes());
        }
    }
}
