use accelrd::sensors::common::{
    card_index, drm_cards, mark_partitions, parse_cpulist, read_hex_u16, read_i32, read_pci_bars, read_u64,
    sriov_capacity, DeviceFiles, HwmonEntry, Sysfs,
};
use accelrd::sensors::host::{
    disk_bytes, disk_metrics, memory_metrics, parse_meminfo_str, parse_mountinfo, snapshot as host_snapshot, DiskBlocks,
};
use accelrd::sensors::nvidia::parse_nvidia_info_field;
use accelrd::sensors::{enumerate_all, snapshot, Accelerator, Coverage, MemoryKind, Ratio, Vendor};
use accelrd::telemetry::live::tick;
use accelrd::telemetry::AttrValue;
use accelrd::textmap::TextMap;

fn texts(pairs: &[(&str, &str)]) -> TextMap<String> {
    let mut m = TextMap::new();
    for (k, v) in pairs {
        m.insert(k.to_string(), v.to_string());
    }
    m
}

fn device(files: &[(&str, &str)], hwmon: Vec<HwmonEntry>) -> DeviceFiles {
    DeviceFiles {
        files: texts(files),
        hwmon,
        iommu_group: Some("7".to_string()),
        driver: None,
        drm: Vec::new(),
        xgmi_link_count: false,
    }
}

fn value(a: &Accelerator, fs: &Sysfs, name: &str) -> Option<Ratio> {
    let s = snapshot(fs, a)?;
    s.measurements.iter().find(|m| m.name == name).map(|m| m.value)
}

#[test]
fn parses_meminfo_kb_unit() {
    let s = "MemTotal:       263870124 kB\nMemAvailable:   214901168 kB\nHugepagesize:       2048 kB\n";
    let m = parse_meminfo_str(s);
    assert_eq!(*m.get("MemTotal").unwrap(), 263_870_124u64 * 1024);
    assert_eq!(*m.get("MemAvailable").unwrap(), 214_901_168u64 * 1024);
}

#[test]
fn skips_malformed_meminfo_lines() {
    let m = parse_meminfo_str("MemTotal:\nbogus line\n");
    assert!(!m.contains_key("MemTotal"));
}

#[test]
fn parses_mountinfo_keeps_only_real_fs() {
    let s = "\
26 1 254:0 / / rw - btrfs /dev/nvme1n1p2 rw
27 26 0:5 / /dev rw - devtmpfs devtmpfs rw
28 26 254:0 /nix /nix rw - btrfs /dev/nvme1n1p2 rw
29 26 0:6 / /sys rw - sysfs sysfs rw
30 26 0:7 /var /var rw - tmpfs tmpfs rw
";
    let mounts = parse_mountinfo(s);
    assert_eq!(mounts, vec!["/", "/nix"]);
}

#[test]
fn a_mount_point_is_listed_once() {
    let s = "1 0 1:1 / /data rw - ext4 a rw\n2 0 1:2 / /data rw - xfs b rw\n";
    assert_eq!(parse_mountinfo(s), vec!["/data"]);
}

#[test]
fn memory_of_the_host() {
    let m = parse_meminfo_str("MemTotal: 10 kB\nMemAvailable: 4 kB\nSwapTotal: 8 kB\nSwapFree: 9 kB\n");
    let out = memory_metrics(&m);
    let brief: Vec<(&str, u64, u64)> = out.iter().map(|m| (m.name, m.value.raw, m.value.divisor)).collect();
    assert_eq!(
        brief,
        vec![
            ("host.memory.total_bytes", 10240, 1),
            ("host.memory.available_bytes", 4096, 1),
            ("host.memory.swap.total_bytes", 8192, 1),
            ("host.memory.swap.used_bytes", 0, 1),
        ]
    );
    assert!(memory_metrics(&TextMap::new()).is_empty());
}

#[test]
fn disks_of_the_host() {
    let d = DiskBlocks { block_size: 4096, blocks: 100, available: 25 };
    assert_eq!(disk_bytes(&d), (409_600, 102_400));
    let mounts = vec![("/".to_string(), Some(d)), ("/gone".to_string(), None)];
    let out = disk_metrics(&mounts);
    assert_eq!(out.len(), 2);
    assert_eq!((out[0].name, out[0].value.raw), ("host.disk.total_bytes", 409_600));
    assert_eq!((out[1].name, out[1].value.raw), ("host.disk.free_bytes", 102_400));
    assert_eq!(out[0].attrs, vec![("mount", "/".to_string())]);
    assert_eq!(host_snapshot(Some("MemTotal: 1 kB\n"), &mounts).len(), 3);
    assert_eq!(host_snapshot(None, &Vec::new()).len(), 0);
}

#[test]
fn numbers_in_files() {
    assert_eq!(read_hex_u16(Some("0x1002\n")), Some(0x1002));
    assert_eq!(read_hex_u16(Some("0x10002\n")), None);
    assert_eq!(read_u64(Some(" 42 \n")), Some(42));
    assert_eq!(read_u64(Some("-1")), None);
    assert_eq!(read_i32(Some("-1\n")), Some(-1));
    assert_eq!(read_i32(None), None);
}

#[test]
fn lists_of_processors() {
    assert_eq!(parse_cpulist("0-2, 8,x,5-4,10-11"), vec![0, 1, 2, 8, 10, 11]);
    assert!(parse_cpulist("").is_empty());
    assert_eq!(parse_cpulist("0-1,x,8-9,4"), [parse_cpulist("0-1,x"), parse_cpulist("8-9,4")].concat());
}

#[test]
fn cards_by_their_minor() {
    assert_eq!(card_index("card12"), Some(12));
    assert_eq!(card_index("card0-HDMI-A-1"), None);
    assert_eq!(card_index("renderD128"), None);
    let entries = vec![
        ("card1".to_string(), Some("/b".to_string())),
        ("card0".to_string(), Some("/a".to_string())),
        ("card2".to_string(), None),
        ("version".to_string(), Some("/c".to_string())),
    ];
    assert_eq!(drm_cards(&entries), vec![(0, "/a".to_string()), (1, "/b".to_string())]);
}

fn cluster() -> (Sysfs, Vec<(u32, String)>) {
    let mut fs = Sysfs { devices: TextMap::new(), nvidia_gpus: vec![("0000:0A:00.0".to_string(), Some("Model: \t NVIDIA H100\nIRQ: 1\n".to_string()))] };
    let hot = HwmonEntry {
        name: "hwmon3".to_string(),
        files: texts(&[("temp1_input", "45500\n"), ("power1_average", "120000000\n"), ("temp1_label", "edge\n")]),
    };
    fs.devices.insert(
        "/sys/p/0000:03:00.0".to_string(),
        device(
            &[
                ("vendor", "0x1002\n"),
                ("device", "0x740f\n"),
                ("mem_info_vram_total", "68719476736\n"),
                ("mem_info_vram_used", "1024\n"),
                ("mem_info_gtt_total", "1024\n"),
                ("gpu_busy_percent", "37\n"),
                ("numa_node", "1\n"),
                ("local_cpulist", "0-1\n"),
            ],
            vec![hot],
        ),
    );
    fs.devices.insert(
        "/sys/q/0000:0a:00.0".to_string(),
        device(
            &[
                ("vendor", "0x10de\n"),
                ("device", "0x2330\n"),
                ("resource", "0x0 0x0 0x0\n0x1000000000 0x17ffffffff 0x1\n"),
            ],
            Vec::new(),
        ),
    );
    fs.devices.insert(
        "/sys/r/0000:0b:00.0".to_string(),
        device(&[("vendor", "0x8086\n"), ("device", "0x56a0\n")], Vec::new()),
    );
    let cards = vec![
        (0, "/sys/p/0000:03:00.0".to_string()),
        (1, "/sys/q/0000:0a:00.0".to_string()),
        (2, "/sys/r/0000:0b:00.0".to_string()),
    ];
    (fs, cards)
}

#[test]
fn accelerators_of_every_vendor() {
    let (fs, cards) = cluster();
    let accels = enumerate_all(&fs, &cards);
    assert_eq!(accels.len(), 3);
    let amd = accels.iter().find(|a| a.id.vendor == Vendor::Amd).unwrap();
    assert_eq!(amd.model, "AMD device 0x740f");
    assert_eq!(amd.memory_kind, MemoryKind::Dedicated);
    assert_eq!(amd.memory_total_bytes, Some(68_719_476_736));
    assert_eq!(amd.numa_node, Some(1));
    assert_eq!(amd.local_cpus, vec![0, 1]);
    assert_eq!(amd.iommu_group, Some(7));
    assert_eq!(amd.id.render(), "card0 [0000:03:00.0] amd");
    let nvidia = accels.iter().find(|a| a.id.vendor == Vendor::Nvidia).unwrap();
    assert_eq!(nvidia.model, "NVIDIA H100");
    assert_eq!(nvidia.memory_total_bytes, Some(0x8_0000_0000));
    assert_eq!(nvidia.coverage, Coverage::IdentificationOnly);
    let intel = accels.iter().find(|a| a.id.vendor == Vendor::Intel).unwrap();
    assert_eq!(intel.model, "Intel device 0x56a0");
    assert_eq!(intel.memory_kind, MemoryKind::Unified);
}

#[test]
fn measurements_of_a_card() {
    let (fs, cards) = cluster();
    let accels = enumerate_all(&fs, &cards);
    let amd = accels.iter().find(|a| a.id.vendor == Vendor::Amd).unwrap();
    assert_eq!(value(amd, &fs, "accel.memory.vram.used"), Some(Ratio { raw: 1024, divisor: 1 }));
    assert_eq!(value(amd, &fs, "accel.utilization"), Some(Ratio { raw: 37, divisor: 100 }));
    assert_eq!(value(amd, &fs, "accel.temperature"), Some(Ratio { raw: 45500, divisor: 1000 }));
    assert_eq!(value(amd, &fs, "accel.power.usage"), Some(Ratio { raw: 120_000_000, divisor: 1_000_000 }));
    assert_eq!(value(amd, &fs, "accel.sensor.health"), Some(Ratio { raw: 1, divisor: 1 }));
    assert_eq!(value(amd, &fs, "accel.memory.visible_vram.total"), None);
    let s = snapshot(&fs, amd).unwrap();
    let t = s.measurements.iter().find(|m| m.name == "accel.temperature").unwrap();
    assert_eq!(t.attrs, vec![("sensor", "edge".to_string())]);
}

#[test]
fn points_carry_the_card() {
    let (fs, cards) = cluster();
    let accels = enumerate_all(&fs, &cards);
    let points = tick(&fs, &accels);
    let p = points.iter().find(|p| p.name == "accel.utilization").unwrap();
    let keys: Vec<&str> = p.attrs.iter().map(|a| a.key.as_str()).collect();
    assert_eq!(
        keys,
        vec!["vendor", "model", "accel.index", "pci_addr", "memory_kind", "coverage", "fabric_domain", "numa_node"]
    );
    assert!(matches!(&p.attrs[0].value, AttrValue::Text(s) if s == "amd"));
    assert!(matches!(p.attrs[7].value, AttrValue::Number(1)));
}

#[test]
fn pci_bars() {
    let mut fs = Sysfs { devices: TextMap::new(), nvidia_gpus: Vec::new() };
    fs.devices.insert(
        "/d".to_string(),
        device(&[("resource", "0xf000 0xffff 0x0\n0x0 0x10 0x0\n0x10 zz 0x0\n\n")], Vec::new()),
    );
    assert_eq!(read_pci_bars(&fs, "/d"), vec![0x1000, 0, 0u64.wrapping_sub(0x10).wrapping_add(1), 0]);
    assert!(read_pci_bars(&fs, "/elsewhere").is_empty());
}

#[test]
fn shared_parents_are_partitions() {
    let mut fs = Sysfs { devices: TextMap::new(), nvidia_gpus: Vec::new() };
    fs.devices.insert("/x/c".to_string(), device(&[("sriov_numvfs", "2\n"), ("sriov_totalvfs", "8\n")], Vec::new()));
    let (sys, cards) = cluster();
    let mut accels = enumerate_all(&sys, &cards);
    accels[0].device_dir = "/p/a".to_string();
    accels[1].device_dir = "/p/b".to_string();
    accels[2].device_dir = "/x/c".to_string();
    mark_partitions(&mut accels, &fs);
    assert!(accels.iter().all(|a| a.partitioned));
    accels[0].partitioned = false;
    accels[1].partitioned = false;
    accels[1].device_dir = "/q/b".to_string();
    mark_partitions(&mut accels, &fs);
    assert!(!accels[0].partitioned && !accels[1].partitioned);
    assert_eq!(sriov_capacity(&fs, "/x/c"), Some((8, 2)));
    assert_eq!(sriov_capacity(&fs, "/p/a"), None);
}

#[test]
fn fields_of_the_driver() {
    assert_eq!(parse_nvidia_info_field("Model: \t A100 \nModel: B\n", "Model").as_deref(), Some("A100"));
    assert_eq!(parse_nvidia_info_field("Modelx: A\n", "Model"), None);
}

#[test]
fn vendors_by_their_identifier() {
    assert_eq!(Vendor::from_pci_id(0x1002), Vendor::Amd);
    assert_eq!(Vendor::from_pci_id(0x10de), Vendor::Nvidia);
    assert_eq!(Vendor::from_pci_id(0x8086), Vendor::Intel);
    assert_eq!(Vendor::from_pci_id(1), Vendor::Other);
}
