use accelrd::preflight::health::{
    accepts_driver, expected_driver, DriverLoaded, DrmRenderNodePresent, MemoryFloor, SensorReadable,
    TemperatureBelowThrottle,
};
use accelrd::preflight::{aggregate, default_registry, CheckContext, NodeReadiness, PreflightCheck, Status};
use accelrd::sensors::common::{DeviceFiles, HwmonEntry, Sysfs};
use accelrd::sensors::{Accelerator, AcceleratorId, Coverage, MemoryKind, Vendor};
use accelrd::telemetry::preflight::{matrix, record, run_cycle, CheckRun};
use accelrd::textmap::TextMap;
use accelrd::topology::labels::LabelSet;

fn texts(pairs: &[(&str, &str)]) -> TextMap<String> {
    let mut m = TextMap::new();
    for (k, v) in pairs {
        m.insert(k.to_string(), v.to_string());
    }
    m
}

fn accel() -> Accelerator {
    Accelerator {
        id: AcceleratorId { vendor: Vendor::Amd, drm_index: 4, pci_addr: "0000:03:00.0".to_string() },
        model: "M".to_string(),
        memory_kind: MemoryKind::Dedicated,
        memory_total_bytes: None,
        numa_node: None,
        local_cpus: Vec::new(),
        iommu_group: None,
        coverage: Coverage::Full,
        fabric_domain: None,
        partitioned: false,
        device_dir: "/d".to_string(),
    }
}

fn sysfs(files: &[(&str, &str)], millis: Option<&str>, driver: Option<&str>, drm: &[&str]) -> Sysfs {
    let mut fs = Sysfs { devices: TextMap::new(), nvidia_gpus: Vec::new() };
    let hwmon = match millis {
        Some(t) => vec![HwmonEntry { name: "hwmon0".to_string(), files: texts(&[("temp1_input", t)]) }],
        None => Vec::new(),
    };
    fs.devices.insert(
        "/d".to_string(),
        DeviceFiles {
            files: texts(files),
            hwmon,
            iommu_group: None,
            driver: driver.map(str::to_string),
            drm: drm.iter().map(|s| s.to_string()).collect(),
            xgmi_link_count: false,
        },
    );
    fs
}

fn run<C: PreflightCheck>(check: &C, a: Option<&Accelerator>, fs: &Sysfs, shown: &str) -> (Status, Option<String>, usize) {
    let o = check.run(&CheckContext { accelerator: a, sysfs: fs, temperature_shown: shown });
    (o.status, o.message, o.measurements.len())
}

#[test]
fn readiness_of_outcomes() {
    assert_eq!(aggregate(&[]), NodeReadiness::Unknown);
    assert_eq!(aggregate(&[Status::Skipped]), NodeReadiness::Unknown);
    assert_eq!(aggregate(&[Status::Skipped, Status::Pass]), NodeReadiness::Ready);
    assert_eq!(aggregate(&[Status::Pass, Status::Warn]), NodeReadiness::Degraded);
    assert_eq!(aggregate(&[Status::Pass, Status::Fail]), NodeReadiness::Degraded);
    assert_eq!(NodeReadiness::NotReady.label_value(), "false");
}

#[test]
fn the_default_check_passes() {
    let checks = default_registry();
    assert_eq!(checks.len(), 1);
    assert_eq!(checks[0].name(), "placeholder.always_pass");
    let fs = sysfs(&[], None, None, &[]);
    assert_eq!(run(&checks[0], None, &fs, "").0, Status::Pass);
}

#[test]
fn without_a_card_checks_are_skipped() {
    let fs = sysfs(&[], None, None, &[]);
    assert_eq!(run(&SensorReadable, None, &fs, ""), (Status::Skipped, None, 0));
    assert_eq!(run(&DriverLoaded, None, &fs, ""), (Status::Skipped, None, 0));
}

#[test]
fn sensors_that_cannot_be_read() {
    let fs = sysfs(&[], None, None, &[]);
    let mut a = accel();
    assert_eq!(run(&SensorReadable, Some(&a), &fs, "").0, Status::Pass);
    a.coverage = Coverage::Failed;
    let (s, m, _) = run(&SensorReadable, Some(&a), &fs, "");
    assert_eq!(s, Status::Fail);
    assert_eq!(m.as_deref(), Some("sensor backend reports Failed coverage for card4 [0000:03:00.0] amd"));
}

#[test]
fn render_nodes() {
    let a = accel();
    assert_eq!(run(&DrmRenderNodePresent, Some(&a), &sysfs(&[], None, None, &["card0", "renderD128"]), "").0, Status::Pass);
    let (s, m, _) = run(&DrmRenderNodePresent, Some(&a), &sysfs(&[], None, None, &["card0"]), "");
    assert_eq!(s, Status::Fail);
    assert_eq!(m.as_deref(), Some("no renderD node under /d/drm"));
}

#[test]
fn temperatures() {
    let a = accel();
    let check = TemperatureBelowThrottle::default();
    let at = |millis: &str, shown: &str| run(&check, Some(&a), &sysfs(&[], Some(millis), None, &[]), shown);
    assert_eq!(at("84999", "85.0"), (Status::Pass, None, 1));
    assert_eq!(
        at("85000", "85.0"),
        (Status::Warn, Some("temperature 85.0 °C is within 10 °C of threshold".to_string()), 1)
    );
    assert_eq!(
        at("95000", "95.0"),
        (Status::Fail, Some("temperature 95.0 °C ≥ 95 °C threshold".to_string()), 1)
    );
    assert_eq!(
        run(&check, Some(&a), &sysfs(&[], None, None, &[]), ""),
        (Status::Skipped, Some("no hwmon temp1_input on this accelerator".to_string()), 0)
    );
}

#[test]
fn free_memory() {
    let check = MemoryFloor::default();
    let mut a = accel();
    let fs = sysfs(&[("mem_info_vram_total", "2147483648"), ("mem_info_vram_used", "1073741824")], None, None, &[]);
    assert_eq!(run(&check, Some(&a), &fs, ""), (Status::Pass, None, 1));
    let fs = sysfs(&[("mem_info_vram_total", "2147483648"), ("mem_info_vram_used", "1073741825")], None, None, &[]);
    assert_eq!(
        run(&check, Some(&a), &fs, ""),
        (Status::Fail, Some("free 1073741823 < required 1073741824 bytes".to_string()), 1)
    );
    let none = sysfs(&[], None, None, &[]);
    assert_eq!(run(&check, Some(&a), &none, "").1.as_deref(), Some("missing mem_info_vram_total"));
    a.memory_kind = MemoryKind::Unified;
    assert_eq!(run(&check, Some(&a), &none, "").1.as_deref(), Some("missing mem_info_gtt_total"));
    a.memory_kind = MemoryKind::Unknown;
    assert_eq!(run(&check, Some(&a), &none, "").1.as_deref(), Some("memory kind doesn't expose sysfs accounting"));
    a.coverage = Coverage::IdentificationOnly;
    assert_eq!(
        run(&check, Some(&a), &none, "").1.as_deref(),
        Some("identification-only sensor cannot report free memory")
    );
}

#[test]
fn drivers() {
    let a = accel();
    let with = |d: Option<&str>| run(&DriverLoaded, Some(&a), &sysfs(&[], None, d, &[]), "");
    assert_eq!(with(Some("amdgpu")).0, Status::Pass);
    assert_eq!(
        with(Some("vfio-pci")),
        (Status::Warn, Some("driver=vfio-pci, expected amdgpu".to_string()), 0)
    );
    let (s, m, _) = with(None);
    assert_eq!(s, Status::Fail);
    assert_eq!(m.as_deref(), Some("device/driver symlink missing — kernel module not bound?"));
    assert!(accepts_driver(Vendor::Intel, "xe") && accepts_driver(Vendor::Intel, "i915"));
    assert!(!accepts_driver(Vendor::Other, "?"));
    assert_eq!(expected_driver(Vendor::Intel), "i915 or xe");
}

#[test]
fn every_check_meets_every_card() {
    let checks = default_registry();
    assert_eq!(matrix(&checks, &vec![accel(), accel()]), vec![(0, 0), (0, 1)]);
    assert!(matrix(&checks, &Vec::new()).is_empty());
}

#[test]
fn what_is_recorded_of_a_run() {
    let a = accel();
    let fs = sysfs(&[], Some("90000"), None, &[]);
    let ctx = CheckContext { accelerator: Some(&a), sysfs: &fs, temperature_shown: "90.0" };
    let o = TemperatureBelowThrottle::default().run(&ctx);
    let r = record("temperature.below_throttle", &a, &o);
    assert_eq!(r.pass, Some(0));
    assert_eq!(r.observations.len(), 1);
    assert_eq!(r.observations[0].name, "accel.preflight.temperature");
    assert_eq!(r.observations[0].value.raw, 90000);
    assert_eq!(r.attrs.last().unwrap().key, "status");
    let skipped = record("x", &a, &accelrd::preflight::CheckOutcome::skipped());
    assert_eq!(skipped.pass, None);
}

#[test]
fn a_cycle_labels_the_node() {
    let base = LabelSet { labels: texts(&[("accel.lunnova.dev/total-count", "2")]), annotations: TextMap::new() };
    let run = |check: &str, index: u32, status: Status| CheckRun { check: check.to_string(), drm_index: index, status };
    let runs = vec![run("a", 0, Status::Pass), run("b", 1, Status::Warn), run("c", 0, Status::Fail)];
    let (result, set) = run_cycle(&runs, &base, "2026-05-07T12:34:56Z".to_string());
    assert_eq!(result.inference, NodeReadiness::Degraded);
    assert_eq!((result.ran, result.failed), (3, 2));
    assert_eq!(set.labels.get("accel-ready.lunnova.dev/inference").unwrap(), "degraded");
    assert_eq!(set.labels.get("accel.lunnova.dev/total-count").unwrap(), "2");
    assert_eq!(set.annotations.get("accel-ready.lunnova.dev/failed").unwrap(), "b@1,c@0");
    assert_eq!(set.annotations.get("accel-ready.lunnova.dev/last-check").unwrap(), "2026-05-07T12:34:56Z");
    let (result, set) = run_cycle(&vec![run("a", 0, Status::Pass)], &base, "t".to_string());
    assert_eq!(result.training, NodeReadiness::Ready);
    assert_eq!(set.labels.get("accel-ready.lunnova.dev/training").unwrap(), "true");
    assert!(set.annotations.get("accel-ready.lunnova.dev/failed").is_none());
}
