use system_estv::collector::{Collector, RawSample};
use system_estv::disk::{is_root_mount, root_disk_usage, DiskSpace, RootDiskUsage};
use system_estv::network::{total_traffic, InterfaceTraffic, Traffic, TrafficMeter};
use system_estv::sensors::{choose_cpu_sensor, choose_lowered_sensor, text_contains};

fn disk(mount: &str, available: u64, total: u64) -> DiskSpace {
    DiskSpace { mount_point: mount.to_string(), available, total }
}

fn iface(name: &str, rx_bytes: u64, tx_bytes: u64) -> InterfaceTraffic {
    InterfaceTraffic { name: name.to_string(), rx_bytes, tx_bytes }
}

fn labels(names: &[&str]) -> Vec<String> {
    names.iter().map(|s| s.to_string()).collect()
}

#[test]
fn root_disk_is_the_first_mounted_at_slash() {
    let disks = vec![disk("/boot", 5, 10), disk("/", 100, 300), disk("/", 1, 1)];
    assert_eq!(root_disk_usage(&disks), RootDiskUsage { free: 100, total: 300, used: 200 });
}

#[test]
fn no_root_disk_reports_nothing() {
    let disks = vec![disk("/home", 5, 10), disk("/..", 1, 2), disk("", 3, 3), disk("/.a", 4, 4)];
    assert_eq!(root_disk_usage(&disks), RootDiskUsage { free: 0, total: 0, used: 0 });
    assert_eq!(root_disk_usage(&vec![]), RootDiskUsage { free: 0, total: 0, used: 0 });
}

#[test]
fn root_disk_is_matched_as_a_path() {
    for root in ["/", "//", "/.", "/./", "///./.", "/.//."] {
        assert!(is_root_mount(root), "{root}");
        let disks = vec![disk("/boot", 5, 10), disk(root, 7, 9)];
        assert_eq!(root_disk_usage(&disks), RootDiskUsage { free: 7, total: 9, used: 2 });
    }
    for other in ["", ".", "/..", "/.a", "/a", "a/", "/boot/.."] {
        assert!(!is_root_mount(other), "{other}");
    }
}

#[test]
fn used_space_never_goes_below_zero() {
    let disks = vec![disk("/", 400, 300)];
    assert_eq!(root_disk_usage(&disks), RootDiskUsage { free: 400, total: 300, used: 0 });
}

#[test]
fn traffic_is_summed_over_interfaces() {
    let ifaces = vec![iface("eth0", 1000, 20), iface("lo", 5, 5), iface("wg0", 1, 0)];
    assert_eq!(total_traffic(&ifaces), Some(Traffic { rx: 1006, tx: 25 }));
    assert_eq!(total_traffic(&vec![]), Some(Traffic { rx: 0, tx: 0 }));
}

#[test]
fn traffic_that_overflows_is_refused() {
    let ifaces = vec![iface("a", u64::MAX, 0), iface("b", 1, 0)];
    assert_eq!(total_traffic(&ifaces), None);
    let ifaces = vec![iface("a", 0, u64::MAX), iface("b", 0, 1)];
    assert_eq!(total_traffic(&ifaces), None);
    let ifaces = vec![iface("a", u64::MAX, u64::MAX)];
    assert_eq!(total_traffic(&ifaces), Some(Traffic { rx: u64::MAX, tx: u64::MAX }));
}

#[test]
fn meter_reports_traffic_since_the_previous_sample() {
    let mut meter = TrafficMeter::new(Traffic { rx: 100, tx: 50 });
    assert_eq!(meter.advance(Traffic { rx: 1100, tx: 80 }), Traffic { rx: 1000, tx: 30 });
    assert_eq!(meter.previous(), Traffic { rx: 1100, tx: 80 });
    assert_eq!(meter.advance(Traffic { rx: 1100, tx: 80 }), Traffic { rx: 0, tx: 0 });
}

#[test]
fn meter_reports_zero_after_a_counter_reset() {
    let mut meter = TrafficMeter::new(Traffic { rx: 5000, tx: 5000 });
    assert_eq!(meter.advance(Traffic { rx: 10, tx: 6000 }), Traffic { rx: 0, tx: 1000 });
    assert_eq!(meter.advance(Traffic { rx: 30, tx: 6000 }), Traffic { rx: 20, tx: 0 });
}

#[test]
fn metered_traffic_adds_up_to_the_counter_growth() {
    let readings: Vec<u64> = vec![7, 7, 100, 250, 251, 4000];
    let mut meter = TrafficMeter::new(Traffic { rx: readings[0], tx: 0 });
    let mut sum = 0u64;
    for r in &readings[1..] {
        sum += meter.advance(Traffic { rx: *r, tx: 0 }).rx;
    }
    assert_eq!(sum, 4000 - 7);
}

#[test]
fn text_contains_finds_substrings() {
    assert!(text_contains("package id 0", "package"));
    assert!(text_contains("x86_pkg_temp cpu", "cpu"));
    assert!(text_contains("core", "core"));
    assert!(text_contains("anything", ""));
    assert!(!text_contains("co", "core"));
    assert!(!text_contains("acpitz", "cpu"));
    assert!(text_contains("tëmp cœur cpu", "cpu"));
}

#[test]
fn cpu_sensor_is_the_first_naming_the_cpu() {
    assert_eq!(choose_cpu_sensor(&labels(&["acpitz", "Package id 0", "Core 0"])), Some(1));
    assert_eq!(choose_cpu_sensor(&labels(&["nvme", "coretemp Core 1"])), Some(1));
}

#[test]
fn cpu_sensor_labels_are_compared_lowercased() {
    assert_eq!(choose_cpu_sensor(&labels(&["ACPITZ", "CPU THERMAL"])), Some(1));
    assert_eq!(choose_lowered_sensor(&labels(&["ACPITZ", "CPU THERMAL"])), Some(0));
    assert_eq!(choose_cpu_sensor(&labels(&["PACKAGE"])), Some(0));
}

#[test]
fn cpu_sensor_falls_back_to_the_first_sensor() {
    assert_eq!(choose_cpu_sensor(&labels(&["acpitz", "nvme Composite"])), Some(0));
}

#[test]
fn no_sensor_gives_no_temperature() {
    assert_eq!(choose_cpu_sensor(&vec![]), None);
}

#[test]
fn collector_cycle_combines_the_decisions() {
    let mut collector = Collector::start(&vec![iface("eth0", 1000, 100)]).unwrap();
    assert_eq!(collector.previous_traffic(), Traffic { rx: 1000, tx: 100 });
    let sample = RawSample {
        disks: vec![disk("/", 40, 100)],
        interfaces: vec![iface("eth0", 3000, 150), iface("lo", 10, 10)],
        sensor_labels: labels(&["acpitz", "Core 0"]),
        process_cpu: [0.5f32, 1.0, 7.25, 2.0, 30.0, 12.5].iter().map(|c| c.to_bits()).collect(),
    };
    let seen = collector.observe(&sample).unwrap();
    assert_eq!(seen.disk, RootDiskUsage { free: 40, total: 100, used: 60 });
    assert_eq!(seen.traffic, Traffic { rx: 2010, tx: 60 });
    assert_eq!(seen.cpu_sensor, Some(1));
    assert_eq!(seen.top_processes, vec![4, 5, 2, 3, 1]);
    assert_eq!(collector.previous_traffic(), Traffic { rx: 3010, tx: 160 });
}

#[test]
fn collector_refuses_overflowing_counters_and_keeps_its_state() {
    assert!(Collector::start(&vec![iface("a", u64::MAX, 0), iface("b", 1, 0)]).is_none());
    let mut collector = Collector::start(&vec![iface("eth0", 5, 5)]).unwrap();
    let sample = RawSample {
        disks: vec![],
        interfaces: vec![iface("a", u64::MAX, 0), iface("b", 1, 0)],
        sensor_labels: vec![],
        process_cpu: vec![],
    };
    assert!(collector.observe(&sample).is_none());
    assert_eq!(collector.previous_traffic(), Traffic { rx: 5, tx: 5 });
}
