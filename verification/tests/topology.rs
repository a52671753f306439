use accelrd::config::{Args, Resolved};
use accelrd::k8s::node::{ConditionObject, NodeObject};
use accelrd::prober::pair::eligible;
use accelrd::sensors::common::{DeviceFiles, Sysfs};
use accelrd::sensors::{Accelerator, AcceleratorId, Coverage, MemoryKind, Vendor};
use accelrd::textmap::TextMap;
use accelrd::topology::discover::{build_amd_xgmi_groups, discover, read_xgmi_peers, stable_domain_id};
use accelrd::topology::labels::{add_rdma, build, inventory, slugify as label_slug, InventoryEntry};
use accelrd::topology::lldp::{
    discover_step, discovered, parse_lldpdu, slugify, subscribable, wants_discovery, ChassisIdKind, DiscoverEvent,
};
use accelrd::topology::rdma::{parse_enum, parse_rate, DeviceEntry, PortEntry, RdmaDevice, RdmaInventory, RdmaPort};
use accelrd::topology::{FabricKind, NodeTopology};
use std::collections::hash_map::DefaultHasher;
use std::hash::{Hash, Hasher};

fn texts(pairs: &[(&str, &str)]) -> TextMap<String> {
    let mut m = TextMap::new();
    for (k, v) in pairs {
        m.insert(k.to_string(), v.to_string());
    }
    m
}

fn accel(vendor: Vendor, index: u32, addr: &str) -> Accelerator {
    Accelerator {
        id: AcceleratorId { vendor, drm_index: index, pci_addr: addr.to_string() },
        model: "Model X".to_string(),
        memory_kind: MemoryKind::Dedicated,
        memory_total_bytes: Some(1024),
        numa_node: Some(0),
        local_cpus: Vec::new(),
        iommu_group: None,
        coverage: Coverage::Full,
        fabric_domain: None,
        partitioned: false,
        device_dir: format!("/sys/devices/pci0000:00/{}", addr),
    }
}

fn with_peers(fs: &mut Sysfs, addr: &str, file: &str, peers: &str) {
    fs.devices.insert(
        format!("/sys/devices/pci0000:00/{}", addr),
        DeviceFiles {
            files: texts(&[(file, peers)]),
            hwmon: Vec::new(),
            iommu_group: None,
            driver: None,
            drm: Vec::new(),
            xgmi_link_count: true,
        },
    );
}

fn empty_fs() -> Sysfs {
    Sysfs { devices: TextMap::new(), nvidia_gpus: Vec::new() }
}

fn settings() -> Resolved {
    Args {
        otlp_endpoint: None,
        live_interval_secs: None,
        preflight_interval_secs: None,
        block: Some("b1".to_string()),
        rack: Some("r1".to_string()),
        service_name: None,
        node_name: None,
        once: false,
        no_k8s: false,
        no_lldp: false,
        lldp_timeout_secs: None,
    }
    .resolve(&TextMap::new())
}

#[test]
fn parse_lab_switch_frame() {
    let mut buf = Vec::new();
    buf.extend_from_slice(&[0x02, 0x07, 0x04, 0x1c, 0x2a, 0xa3, 0x1e, 0xc7, 0xb4]);
    buf.extend_from_slice(&[0x04, 0x04, 0x07, b'T', b'E', b'4']);
    buf.extend_from_slice(&[0x06, 0x02, 0x00, 0x78]);
    buf.extend_from_slice(&[0x00, 0x00]);

    let n = parse_lldpdu(&buf, "eno1np0".into()).expect("parse");
    assert_eq!(n.chassis_id, "1c:2a:a3:1e:c7:b4");
    assert_eq!(n.chassis_id_kind, ChassisIdKind::Mac);
    assert_eq!(n.port_id, "TE4");
    assert_eq!(n.system_name, None);
    assert_eq!(n.rack_slug(), "1c2aa31ec7b4");
}

#[test]
fn parse_with_system_name() {
    let mut buf = Vec::new();
    buf.extend_from_slice(&[0x02, 0x07, 0x04, 0x00, 0x11, 0x22, 0x33, 0x44, 0x55]);
    buf.extend_from_slice(&[0x04, 0x05, 0x07, b'p', b'o', b'r', b't']);
    buf.extend_from_slice(&[0x06, 0x02, 0x00, 0x78]);
    buf.extend_from_slice(&[0x0a, 0x07, b's', b'w', b'i', b't', b'c', b'h', b'1']);
    buf.extend_from_slice(&[0x00, 0x00]);

    let n = parse_lldpdu(&buf, "eth0".into()).expect("parse");
    assert_eq!(n.chassis_id, "00:11:22:33:44:55");
    assert_eq!(n.port_id, "port");
    assert_eq!(n.system_name.as_deref(), Some("switch1"));
}

#[test]
fn rejects_truncated() {
    let buf = [0x0c, 0x64, 0x01, 0x02, 0x03, 0x04];
    assert!(parse_lldpdu(&buf, "x".into()).is_none());
}

#[test]
fn parses_state_mnemonic() {
    assert_eq!(parse_enum(Some("4: ACTIVE".into())).as_deref(), Some("ACTIVE"));
    assert_eq!(parse_enum(Some("5: LinkUp".into())).as_deref(), Some("LinkUp"));
    assert_eq!(parse_enum(Some("DOWN".into())).as_deref(), Some("DOWN"));
    assert!(parse_enum(None).is_none());
}

#[test]
fn parses_rate_gbps() {
    assert_eq!(parse_rate(Some("200 Gb/sec (4X NDR)".into())), Some(200));
    assert_eq!(parse_rate(Some("100 Gb/sec".into())), Some(100));
    assert_eq!(parse_rate(Some("garbage".into())), None);
    assert_eq!(parse_rate(None), None);
}

#[test]
fn any_active_roce_predicate() {
    let inv = RdmaInventory {
        devices: vec![RdmaDevice {
            name: "mlx5_0".into(),
            ports: vec![RdmaPort {
                index: 1,
                state: "ACTIVE".into(),
                phys_state: "LinkUp".into(),
                link_layer: "Ethernet".into(),
                rate_gbps: Some(200),
            }],
        }],
    };
    assert!(inv.any_active_roce());

    let inv_ib = RdmaInventory {
        devices: vec![RdmaDevice {
            name: "mlx5_0".into(),
            ports: vec![RdmaPort {
                index: 1,
                state: "ACTIVE".into(),
                phys_state: "LinkUp".into(),
                link_layer: "InfiniBand".into(),
                rate_gbps: Some(200),
            }],
        }],
    };
    assert!(!inv_ib.any_active_roce(), "native IB shouldn't count as RoCE");

    let inv_down = RdmaInventory {
        devices: vec![RdmaDevice {
            name: "mlx5_0".into(),
            ports: vec![RdmaPort {
                index: 1,
                state: "DOWN".into(),
                phys_state: "Disabled".into(),
                link_layer: "Ethernet".into(),
                rate_gbps: None,
            }],
        }],
    };
    assert!(!inv_down.any_active_roce(), "DOWN ports shouldn't count");

    assert!(!RdmaInventory::default().any_active_roce());
}

#[test]
fn rdma_devices_from_their_files() {
    let port = |name: &str, rate: &str| PortEntry {
        name: name.to_string(),
        files: texts(&[
            ("state", "4: ACTIVE\n"),
            ("phys_state", "5: LinkUp\n"),
            ("link_layer", "Ethernet\n"),
            ("rate", rate),
        ]),
    };
    let inv = RdmaInventory::scan(&vec![
        DeviceEntry { name: "mlx5_1".to_string(), ports: vec![port("1", "100 Gb/sec (4X EDR)\n")] },
        DeviceEntry { name: "mlx5_0".to_string(), ports: vec![port("1", "x"), port("status", "1")] },
    ]);
    assert!(!inv.is_empty());
    assert!(inv.any_active_roce());
    let names: Vec<&str> = inv.devices.iter().map(|d| d.name.as_str()).collect();
    assert!(names.contains(&"mlx5_0") && names.contains(&"mlx5_1"));
    let d = inv.devices.iter().find(|d| d.name == "mlx5_1").unwrap();
    assert_eq!(d.ports[0].state, "ACTIVE");
    assert_eq!(d.ports[0].rate_gbps, Some(100));
}

#[test]
fn rdma_is_published() {
    let topology = NodeTopology {
        region: None,
        zone: None,
        block: None,
        rack: Some("r1".to_string()),
        fabric_domains: Vec::new(),
        lldp_neighbors: Vec::new(),
    };
    let inventory = |state: &str| RdmaInventory {
        devices: vec![RdmaDevice {
            name: "mlx5_0".into(),
            ports: vec![RdmaPort {
                index: 1,
                state: state.into(),
                phys_state: "LinkUp".into(),
                link_layer: "Ethernet".into(),
                rate_gbps: Some(200),
            }],
        }],
    };
    let mut up = build(&topology, &Vec::new(), None, None);
    let plain = up.labels.len();
    add_rdma(&mut up, &inventory("ACTIVE"), Some("{}".to_string()));
    assert_eq!(up.labels.len(), plain + 1);
    assert_eq!(up.labels.get("accel-net.lunnova.dev/rdma").map(String::as_str), Some("present"));
    assert_eq!(up.annotations.get("accel-net.lunnova.dev/rdma-inventory").map(String::as_str), Some("{}"));

    let seen = |labels: TextMap<String>| {
        eligible(&vec![NodeObject {
            name: Some("n".to_string()),
            labels: Some(labels),
            annotations: None,
            conditions: Some(vec![ConditionObject {
                kind: "Ready".to_string(),
                status: "True".to_string(),
                reason: None,
            }]),
            unschedulable: false,
            kubelet_version: None,
        }])
    };
    let nodes = seen(up.labels);
    assert_eq!((nodes.len(), nodes[0].rack.as_str()), (1, "r1"));

    let mut down = build(&topology, &Vec::new(), None, None);
    add_rdma(&mut down, &inventory("DOWN"), None);
    assert_eq!(down.labels.len(), plain);
    assert!(!down.annotations.contains_key("accel-net.lunnova.dev/rdma-inventory"));
    assert!(seen(down.labels).is_empty());
}

#[test]
fn slugs_are_safe() {
    assert_eq!(slugify("  Leaf Switch #1!! "), "leaf-switch-1");
    assert_eq!(slugify(&slugify("A__B")), slugify("A__B"));
    assert_eq!(label_slug("!!!"), "unknown");
    assert_eq!(label_slug("NVIDIA GeForce RTX 4090"), "nvidia-geforce-rtx-4090");
}

fn frame_with_chassis(subtype: u8, body: &[u8]) -> Vec<u8> {
    let mut buf = vec![0x02, body.len() as u8 + 1, subtype];
    buf.extend_from_slice(body);
    buf.extend_from_slice(&[0x04, 0x02, 0x07, b'p']);
    buf.extend_from_slice(&[0x06, 0x02, 0x00, 0x78]);
    buf.extend_from_slice(&[0x00, 0x00]);
    buf
}

#[test]
fn kinds_of_chassis() {
    let name = parse_lldpdu(&frame_with_chassis(7, b"Leaf 1"), "e".into()).unwrap();
    assert_eq!(name.chassis_id, "Leaf 1");
    assert_eq!(name.chassis_id_kind, ChassisIdKind::Name);
    assert_eq!(name.rack_slug(), "leaf-1");
    let dotted = parse_lldpdu(&frame_with_chassis(7, b"_S_1.Lab--x."), "e".into()).unwrap();
    assert_eq!(dotted.rack_slug(), "s-1-lab-x");
    assert_eq!(slugify("_S_1.Lab--x."), "_s_1.lab-x.");
    let other = parse_lldpdu(&frame_with_chassis(5, &[0xff, 0x0e]), "e".into()).unwrap();
    assert_eq!(other.chassis_id, "ff0e");
    assert_eq!(other.chassis_id_kind, ChassisIdKind::Other);
    assert!(parse_lldpdu(&frame_with_chassis(7, &[0xff, 0xfe]), "e".into()).is_none());
    assert!(parse_lldpdu(&frame_with_chassis(7, &[]), "e".into()).is_none());
}

#[test]
fn only_three_triples_count() {
    let plain = parse_lldpdu(&frame_with_chassis(7, b"leaf"), "e".into()).unwrap();
    let mut longer = frame_with_chassis(7, b"leaf");
    longer.extend_from_slice(&[0x02, 0x05, 0x07, b's', b'p', b'i', b'n']);
    let other: Vec<u8> = [&[0x0c, 0x02, b'h', b'i'][..], &frame_with_chassis(7, b"leaf")[..]].concat();
    for frame in [longer, other] {
        let n = parse_lldpdu(&frame, "e".into()).unwrap();
        assert_eq!((n.chassis_id, n.port_id), (plain.chassis_id.clone(), plain.port_id.clone()));
        assert_eq!(n.system_name, None);
    }
}

#[test]
fn interfaces_to_listen_on() {
    assert_eq!(subscribable("eno1", Some("3\n"), Some("up\n")), Some(3));
    assert_eq!(subscribable("lo", Some("1\n"), Some("unknown\n")), None);
    assert_eq!(subscribable("eno1", None, Some("up\n")), None);
}

#[test]
fn frames_are_kept_by_interface() {
    assert!(!wants_discovery(0));
    assert!(wants_discovery(1));
    let frame = |port: u8| {
        let mut buf = vec![0x02, 0x07, 0x04, 0, 0x11, 0x22, 0x33, 0x44, 0x55];
        buf.extend_from_slice(&[0x04, 0x02, 0x07, port]);
        buf.extend_from_slice(&[0x06, 0x02, 0x00, 0x78, 0x00, 0x00]);
        buf
    };
    let mut seen = TextMap::new();
    assert!(discover_step(&mut seen, DiscoverEvent::Frame { bytes: frame(b'a'), ifindex: 2, name: Some("e2".to_string()) }));
    assert!(discover_step(&mut seen, DiscoverEvent::Frame { bytes: frame(b'b'), ifindex: 2, name: Some("e2".to_string()) }));
    assert!(discover_step(&mut seen, DiscoverEvent::Frame { bytes: frame(b'c'), ifindex: 7, name: None }));
    assert!(discover_step(&mut seen, DiscoverEvent::Frame { bytes: vec![1, 2], ifindex: 9, name: None }));
    assert!(discover_step(&mut seen, DiscoverEvent::Nothing));
    assert!(!discover_step(&mut seen, DiscoverEvent::Over));
    let found = discovered(&seen);
    let brief: Vec<(&str, &str)> = found.iter().map(|n| (n.interface.as_str(), n.port_id.as_str())).collect();
    assert_eq!(brief, vec![("e2", "b"), ("if7", "c")]);
}

#[test]
fn domain_ids_hash_like_the_standard_library() {
    let a = accel(Vendor::Amd, 0, "0000:03:00.0").id;
    let b = accel(Vendor::Amd, 1, "0000:83:00.0").id;
    let mut h = DefaultHasher::new();
    "0000:03:00.0".hash(&mut h);
    "0000:83:00.0".hash(&mut h);
    let want = format!("fab-{:x}", h.finish() & 0xffff_ffff);
    assert_eq!(stable_domain_id(&[a.clone(), b.clone()]), want);
    assert_eq!(stable_domain_id(&[b, a]), want);
}

#[test]
fn peers_come_from_the_first_file_that_has_any() {
    let mut fs = empty_fs();
    with_peers(&mut fs, "0000:03:00.0", "xgmi_phy_id", "7 0000:83:00.0 x\n0000:84:00.0\n");
    assert_eq!(read_xgmi_peers(&fs, "/sys/devices/pci0000:00/0000:03:00.0"), vec!["0000:83:00.0", "0000:84:00.0"]);
    assert!(read_xgmi_peers(&fs, "/elsewhere").is_empty());
}

#[test]
fn linked_cards_share_a_domain() {
    let mut fs = empty_fs();
    with_peers(&mut fs, "0000:83:00.0", "xgmi_peer_links", "0000:03:00.0\n");
    let mut accels = vec![
        accel(Vendor::Amd, 0, "0000:03:00.0"),
        accel(Vendor::Amd, 1, "0000:83:00.0"),
        accel(Vendor::Amd, 2, "0000:84:00.0"),
        accel(Vendor::Nvidia, 3, "0000:85:00.0"),
    ];
    let groups = build_amd_xgmi_groups(&fs, &accels);
    assert_eq!(groups.len(), 1);
    assert_eq!(groups[0].1, FabricKind::XGmi);
    let t = discover(&settings(), &TextMap::new(), &fs, Vec::new(), &mut accels);
    assert_eq!(t.fabric_domains.len(), 3);
    assert_eq!(t.rack.as_deref(), Some("r1"));
    assert_eq!(t.region, None);
    assert_eq!(accels[0].fabric_domain, accels[1].fabric_domain);
    assert_ne!(accels[0].fabric_domain, accels[2].fabric_domain);
    assert!(accels.iter().all(|a| a.fabric_domain.is_some()));
    let members: usize = t.fabric_domains.iter().map(|d| d.member_accelerators.len()).sum();
    assert_eq!(members, 4);
}

#[test]
fn labels_count_what_is_there() {
    let mut accels = vec![accel(Vendor::Amd, 0, "0000:03:00.0"), accel(Vendor::Nvidia, 1, "0000:85:00.0")];
    let t = discover(&settings(), &TextMap::new(), &empty_fs(), Vec::new(), &mut accels);
    let l = build(&t, &accels, Some("[]".to_string()), None);
    let get = |k: &str| l.labels.get(k).map(|s| s.as_str());
    assert_eq!(get("accel-topo.lunnova.dev/rack"), Some("r1"));
    assert_eq!(get("accel-topo.lunnova.dev/block"), Some("b1"));
    assert_eq!(get("accel-topo.lunnova.dev/fabric-domains-count"), Some("2"));
    assert_eq!(get("accel.lunnova.dev/vendor.amd.count"), Some("1"));
    assert_eq!(get("accel.lunnova.dev/vendor.amd.physical-count"), Some("1"));
    assert_eq!(get("accel.lunnova.dev/model.model-x.count"), Some("2"));
    assert_eq!(get("accel.lunnova.dev/memory-kind.dedicated.count"), Some("2"));
    assert_eq!(get("accel.lunnova.dev/total-count"), Some("2"));
    assert_eq!(l.annotations.get("accel.lunnova.dev/inventory").map(|s| s.as_str()), Some("[]"));
    assert_eq!(l.annotations.get("accel.lunnova.dev/fabric-graph"), None);
    assert!(l.listable());
    assert!(l.pretty().starts_with("labels:\n  accel-topo.lunnova.dev/block = b1\n"));
}

#[test]
fn long_annotations_are_cut() {
    let accels = Vec::new();
    let mut none = Vec::new();
    let t = discover(&settings(), &TextMap::new(), &empty_fs(), Vec::new(), &mut none);
    let long = "x".repeat(100);
    let l = build(&t, &accels, Some(long), None);
    assert!(l.listable());
    assert!(l.pretty().ends_with(&format!("inventory = {}…\n", "x".repeat(80))));
    let across = format!("{}ä{}", "x".repeat(79), "x".repeat(10));
    assert!(!build(&t, &accels, Some(across), None).listable());
}

#[test]
fn inventory_entries() {
    let e = InventoryEntry::of(&accel(Vendor::Nvidia, 3, "0000:85:00.0"));
    assert_eq!(e.vendor, "nvidia");
    assert_eq!(e.model, "Model X");
    assert_eq!(e.accel_index, 3);
    assert_eq!(e.pci_addr, "0000:85:00.0");
    assert_eq!(e.memory_total_bytes, Some(1024));
    let all = inventory(&vec![accel(Vendor::Amd, 1, "0000:03:00.0"), accel(Vendor::Nvidia, 0, "0000:85:00.0")]);
    let indices: Vec<u32> = all.iter().map(|e| e.accel_index).collect();
    assert_eq!(indices, vec![1, 0]);
    assert_eq!((all[0].vendor.as_str(), all[1].vendor.as_str()), ("amd", "nvidia"));
    assert!(inventory(&Vec::new()).is_empty());
}
