use armbian_imager::devices::classify_linux_device;
use armbian_imager::devices::classify_windows_disk;
use armbian_imager::devices::get_disk_info;
use armbian_imager::devices::get_system_disk;
use armbian_imager::devices::get_system_disks;
use armbian_imager::devices::listed_disk;
use armbian_imager::devices::offer_mac_disk;
use armbian_imager::devices::read_info_line;
use armbian_imager::devices::DiskFacts;
use armbian_imager::devices::ListedDevice;
use armbian_imager::devices::ListedDisk;
use armbian_imager::devices::ListedPartition;
use armbian_imager::devices::ListedValue;
use armbian_imager::devices::MountSource;
use armbian_imager::text::compare_text;
use armbian_imager::text::has_text;
use armbian_imager::text::parse_u64;
use armbian_imager::text::TextOrder;

fn listed(name: &str, size: ListedValue, rm: ListedValue, tran: Option<&str>) -> ListedDevice {
    ListedDevice {
        name: Some(name.to_string()),
        size,
        model: Some("  SanDisk Ultra \n".to_string()),
        rm,
        tran: tran.map(|t| t.to_string()),
    }
}

#[test]
fn linux_devices_are_offered_by_their_path_and_size() {
    let system = vec!["nvme0n1".to_string(), "nvme0n1p2".to_string()];
    let device =
        classify_linux_device(&listed("/dev/sdb", ListedValue::Number(Some(32_000_000_000)), ListedValue::Flag(true), Some("usb")), &system)
            .unwrap();
    assert_eq!(device.path, "/dev/sdb");
    assert_eq!(device.name, "sdb");
    assert_eq!(device.size, 32_000_000_000);
    assert_eq!(device.model, "SanDisk Ultra");
    assert!(device.is_removable);
    assert!(!device.is_system);
    assert_eq!(device.bus_type.as_deref(), Some("USB"));

    let nvme = classify_linux_device(
        &listed("/dev/nvme0n1", ListedValue::Text("512110190592".to_string()), ListedValue::Text("0".to_string()), None),
        &system,
    )
    .unwrap();
    assert_eq!(nvme.size, 512110190592);
    assert!(nvme.is_system);
    assert!(!nvme.is_removable);
    assert_eq!(nvme.bus_type.as_deref(), Some("NVMe"));

    for (path, tran, bus) in [
        ("/dev/mmcblk0", Some("mmc"), Some("SD")),
        ("/dev/mmcblk0", None, Some("SD")),
        ("/dev/sda", Some("sata"), Some("SATA")),
        ("/dev/sda", Some("SAS"), Some("SAS")),
        ("/dev/nvme1n1", Some("nvme"), Some("NVMe")),
        ("/dev/sda", None, None),
        ("/dev/vda", Some("virtio"), Some("VIRTIO")),
        ("/dev/hda", Some(""), None),
    ] {
        let device =
            classify_linux_device(&listed(path, ListedValue::Number(Some(1)), ListedValue::Other, tran), &system).unwrap();
        assert_eq!(device.bus_type.as_deref(), bus, "{} {:?}", path, tran);
        assert!(!device.is_removable);
    }

    for rm in [ListedValue::Text("1".to_string()), ListedValue::Number(Some(1)), ListedValue::Flag(true)] {
        assert!(classify_linux_device(&listed("/dev/sdc", ListedValue::Number(Some(1)), rm, None), &system).unwrap().is_removable);
    }
    for rm in [ListedValue::Text("true".to_string()), ListedValue::Number(Some(2)), ListedValue::Number(None), ListedValue::Other] {
        assert!(!classify_linux_device(&listed("/dev/sdc", ListedValue::Number(Some(1)), rm, None), &system).unwrap().is_removable);
    }

    // not offered: other devices, special areas, devices without a size
    for path in ["/dev/loop0", "/dev/sr0", "sdb", "", "/dev/mmcblk0boot0", "/dev/mmcblk0rpmb", "/dev/sdboot"] {
        assert!(
            classify_linux_device(&listed(path, ListedValue::Number(Some(1)), ListedValue::Other, None), &system).is_none(),
            "{}",
            path
        );
    }
    for size in [
        ListedValue::Number(Some(0)),
        ListedValue::Number(None),
        ListedValue::Text("0".to_string()),
        ListedValue::Text("12 GB".to_string()),
        ListedValue::Text("".to_string()),
        ListedValue::Other,
        ListedValue::Flag(true),
    ] {
        assert!(classify_linux_device(&listed("/dev/sdb", size, ListedValue::Other, None), &system).is_none());
    }
    let unnamed = ListedDevice { name: None, size: ListedValue::Number(Some(1)), model: None, rm: ListedValue::Other, tran: None };
    assert!(classify_linux_device(&unnamed, &system).is_none());
    let bare = ListedDevice { name: Some("/dev/sdz".to_string()), size: ListedValue::Number(Some(9)), model: None, rm: ListedValue::Other, tran: None };
    assert_eq!(classify_linux_device(&bare, &system).unwrap().model, "");
}

#[test]
fn linux_system_disks_match_by_the_beginning_of_the_name() {
    let offer = |path: &str, system: &[&str]| {
        let system: Vec<String> = system.iter().map(|s| s.to_string()).collect();
        classify_linux_device(&listed(path, ListedValue::Number(Some(1)), ListedValue::Other, None), &system).unwrap().is_system
    };
    assert!(offer("/dev/sda", &["sda2"]));
    assert!(offer("/dev/sda", &["sda"]));
    assert!(offer("/dev/sda1", &["sda"]));
    assert!(!offer("/dev/sdb", &["sda", "sda2"]));
    assert!(!offer("/dev/sdb", &[]));
}

#[test]
fn system_disks_are_gathered_from_the_mount_points() {
    let mounts = vec![
        MountSource { source: "/dev/nvme0n1p2\n".to_string(), parent: Some("nvme0n1\n".to_string()) },
        MountSource { source: "".to_string(), parent: None },
        MountSource { source: "/dev/sda1".to_string(), parent: Some(" \n".to_string()) },
        MountSource { source: " /dev/mapper/root ".to_string(), parent: None },
        MountSource { source: "overlay".to_string(), parent: Some("".to_string()) },
    ];
    assert_eq!(get_system_disks(&mounts), vec!["nvme0n1", "nvme0n1p2", "sda1", "root", "overlay"]);
    assert!(get_system_disks(&Vec::new()).is_empty());
}

#[test]
fn windows_disks_are_offered_with_their_drive_letters() {
    let partitions = vec![
        ListedPartition { disk_number: Some(1), drive_letter: Some("E".to_string()) },
        ListedPartition { disk_number: Some(0), drive_letter: Some("C".to_string()) },
        ListedPartition { disk_number: Some(1), drive_letter: Some("".to_string()) },
        ListedPartition { disk_number: Some(1), drive_letter: Some("F".to_string()) },
        ListedPartition { disk_number: None, drive_letter: Some("Z".to_string()) },
        ListedPartition { disk_number: Some(1), drive_letter: None },
    ];
    let disk = ListedDisk {
        number: Some(1),
        size: Some(64_000_000_000),
        friendly_name: Some("Generic STORAGE DEVICE".to_string()),
        bus_type: Some("USB".to_string()),
    };
    let device = classify_windows_disk(&disk, &partitions, Some(0)).unwrap();
    assert_eq!(device.path, r"\\.\PhysicalDrive1");
    assert_eq!(device.name, "Disk 1 (E:, F:)");
    assert_eq!(device.size, 64_000_000_000);
    assert_eq!(device.model, "Generic STORAGE DEVICE");
    assert!(device.is_removable);
    assert!(!device.is_system);
    assert_eq!(device.bus_type.as_deref(), Some("USB"));

    let system = ListedDisk { number: Some(0), size: Some(1), friendly_name: None, bus_type: None };
    let device = classify_windows_disk(&system, &partitions, Some(0)).unwrap();
    assert_eq!(device.name, "Disk 0 (C:)");
    assert_eq!(device.model, "Unknown");
    assert!(device.is_system);
    assert!(!device.is_removable);
    assert_eq!(device.bus_type, None);

    let card = ListedDisk { number: Some(12), size: Some(1), friendly_name: None, bus_type: Some("SD".to_string()) };
    let device = classify_windows_disk(&card, &partitions, None).unwrap();
    assert_eq!(device.name, "Disk 12");
    assert_eq!(device.path, r"\\.\PhysicalDrive12");
    assert!(device.is_removable);
    assert!(!device.is_system);

    let sata = ListedDisk { number: Some(2), size: Some(1), friendly_name: None, bus_type: Some("SATA".to_string()) };
    assert!(!classify_windows_disk(&sata, &partitions, None).unwrap().is_removable);
    for disk in [
        ListedDisk { number: None, size: Some(1), friendly_name: None, bus_type: None },
        ListedDisk { number: Some(-1), size: Some(1), friendly_name: None, bus_type: None },
        ListedDisk { number: Some(1), size: Some(0), friendly_name: None, bus_type: None },
        ListedDisk { number: Some(1), size: None, friendly_name: None, bus_type: None },
    ] {
        assert!(classify_windows_disk(&disk, &partitions, None).is_none());
    }
}

const DISK_INFO: &str = "   Device Identifier:         disk4
   Device Node:               /dev/disk4
   Whole:                     Yes
   Part of Whole:             disk4
   Device / Media Name:       Ultra Fit

   Volume Name:               Not applicable (no file system)
   Disk Size:                 15.4 GB (15376318464 Bytes) (exactly 30031872 512-Byte-Units)
   Device Block Size:         512 Bytes

   Removable Media:           Removable
   Device Location:           External
";

#[test]
fn mac_disk_information_is_read_line_by_line() {
    let device = get_disk_info("/dev/disk4", DISK_INFO);
    assert_eq!(device.path, "/dev/disk4");
    assert_eq!(device.name, "disk4");
    assert_eq!(device.size, 15376318464);
    assert_eq!(device.model, "Ultra Fit");
    assert!(device.is_removable);
    assert!(!device.is_system);
    assert_eq!(device.bus_type, None);

    let nothing = get_disk_info("disk9", "");
    assert_eq!(nothing.name, "disk9");
    assert_eq!(nothing.size, 0);
    assert_eq!(nothing.model, "");
    assert!(nothing.is_removable);

    let facts = || DiskFacts { size: 7, model: "m".to_string(), is_removable: false, is_internal: false };
    assert_eq!(read_info_line(facts(), "Disk Size: 1 GB (1000 Bytes)").size, 1000);
    assert_eq!(read_info_line(facts(), "Disk Size: 1 GB (about 1000 Bytes)").size, 0);
    assert_eq!(read_info_line(facts(), "Disk Size: 1 GB").size, 7);
    assert_eq!(read_info_line(facts(), "Disk Size: 1 GB (  ").size, 7);
    assert_eq!(read_info_line(facts(), "Disk Size: 1 GB (5(6").size, 5);
    assert_eq!(read_info_line(facts(), "  Device / Media Name:  A: B ").model, "A");
    assert_eq!(read_info_line(facts(), "Device / Media Name:").model, "");
    // the label itself says `Removable`
    assert!(read_info_line(facts(), "Removable Media: Fixed").is_removable);
    assert!(read_info_line(facts(), "Device Location: Internal").is_internal);
    assert!(!read_info_line(facts(), "Device Location: External").is_internal);
    assert_eq!(read_info_line(facts(), "Something Else: 5").size, 7);

    let internal = get_disk_info("/dev/disk0", "Device Location: Internal\n");
    assert!(!internal.is_system);
}

#[test]
fn mac_system_disk_and_list() {
    assert_eq!(get_system_disk(DISK_INFO), Some("disk4".to_string()));
    assert_eq!(get_system_disk("   Part of Whole:   disk1: more\n   Part of Whole: disk2\n"), Some("disk1".to_string()));
    assert_eq!(get_system_disk("nothing here\n"), None);
    assert_eq!(get_system_disk(""), None);

    let disk = listed_disk("/dev/disk4 (external, physical):").unwrap();
    assert_eq!(disk.name, "/dev/disk4");
    assert!(!disk.internal);
    let disk = listed_disk("/dev/disk0 (internal, physical):").unwrap();
    assert_eq!(disk.name, "/dev/disk0");
    assert!(disk.internal);
    assert_eq!(listed_disk("/dev/disk9:::").unwrap().name, "/dev/disk9");
    assert!(listed_disk("/dev/disk1 (synthesized):").is_none());
    assert!(listed_disk("/dev/disk5 (disk image):").is_none());
    assert!(listed_disk("   0:      GUID_partition_scheme").is_none());
    assert!(listed_disk(" /dev/disk4 (external):").is_none());
    assert!(listed_disk("").is_none());
}

#[test]
fn mac_disks_are_marked_as_the_systems() {
    let described = |removable: bool, size: u64| get_disk_info(
        "/dev/disk4",
        &format!("Disk Size: X ({} Bytes)\n{}", size, if removable { "Removable Media: Removable\n" } else { "" }),
    );
    let d = described(true, 5);
    assert!(d.is_removable);
    assert!(!offer_mac_disk(described(true, 5), "/dev/disk4", Some("disk1"), false).unwrap().is_system);
    assert!(offer_mac_disk(described(true, 5), "/dev/disk4", Some("disk4"), false).unwrap().is_system);
    assert!(offer_mac_disk(described(true, 5), "/dev/disk0", Some("disk1"), false).unwrap().is_system);
    assert!(!offer_mac_disk(described(true, 5), "/dev/disk0", None, false).unwrap().is_system);
    // a disk is removable unless its information says otherwise, and it never does
    assert!(!offer_mac_disk(described(false, 5), "/dev/disk4", None, true).unwrap().is_system);
    assert!(offer_mac_disk(described(true, 0), "/dev/disk4", None, false).is_none());
    let offered = offer_mac_disk(described(true, 5), "/dev/disk4", None, false).unwrap();
    assert_eq!(offered.size, 5);
    assert_eq!(offered.path, "/dev/disk4");
}

#[test]
fn more_text_helpers() {
    let chars = |s: &str| -> Vec<char> { s.chars().collect() };
    assert!(has_text(&chars("mmcblk0boot0"), &chars("boot")));
    assert!(has_text(&chars("boot"), &chars("boot")));
    assert!(has_text(&chars("abc"), &chars("")));
    assert!(has_text(&chars(""), &chars("")));
    assert!(!has_text(&chars("boo"), &chars("boot")));
    assert!(!has_text(&chars(""), &chars("a")));
    assert_eq!(parse_u64(&chars("18446744073709551615"), 0), Some(u64::MAX));
    assert_eq!(parse_u64(&chars("18446744073709551616"), 0), None);
    assert_eq!(parse_u64(&chars("99999999999999999999999"), 0), None);
    assert_eq!(parse_u64(&chars("+0012"), 0), Some(12));
    assert_eq!(parse_u64(&chars("-1"), 0), None);
    assert_eq!(parse_u64(&chars(""), 0), None);
    for (a, b) in [("", ""), ("", "a"), ("a", ""), ("abc", "abd"), ("abc", "ab"), ("b", "abc"), ("é", "z"), ("24.11", "24.2"), ("same", "same")] {
        let expected = match a.cmp(b) {
            std::cmp::Ordering::Less => TextOrder::Before,
            std::cmp::Ordering::Equal => TextOrder::Same,
            std::cmp::Ordering::Greater => TextOrder::After,
        };
        assert_eq!(compare_text(a, b), expected, "{:?} {:?}", a, b);
    }
}
