use sysmon::network::{is_counted_interface, rate_milli_kbps, traffic_totals, InterfaceSample, NetworkCounters};
use sysmon::sensors::{
    core_temperatures, cpu_package_temperature, hwmon_core_temperatures, map_to_logical,
    reads_sensors, zone_core_temperatures, HwmonNode, SensorScan, SensorSlot, ThermalZone,
};

fn iface(name: &str, rx: u64, tx: u64) -> InterfaceSample {
    InterfaceSample { name: name.to_string(), received: rx, transmitted: tx }
}

fn slot(index: u32, input: &str, label: Option<&str>) -> SensorSlot {
    SensorSlot { index, input: Some(input.to_string()), label: label.map(|l| l.to_string()) }
}

fn node(name: &str, slots: Vec<SensorSlot>) -> HwmonNode {
    HwmonNode { name: Some(name.to_string()), slots }
}

fn zone(index: u32, temp: &str, kind: Option<&str>) -> ThermalZone {
    ThermalZone { index, temp: Some(temp.to_string()), kind: kind.map(|k| k.to_string()) }
}

#[test]
fn interface_filter_skips_loopback_and_virtual() {
    assert!(!is_counted_interface(&"lo".to_string()));
    assert!(!is_counted_interface(&"virbr0".to_string()));
    assert!(!is_counted_interface(&"docker0".to_string()));
    assert!(!is_counted_interface(&"veth12ab".to_string()));
    assert!(is_counted_interface(&"eth0".to_string()));
    assert!(is_counted_interface(&"lo0".to_string()));
    assert!(is_counted_interface(&"wlp2s0".to_string()));
}

#[test]
fn totals_sum_counted_interfaces() {
    let ifs = vec![iface("eth0", 100, 10), iface("lo", 1000, 1000), iface("wlan0", 50, 5), iface("docker0", 7, 7)];
    assert_eq!(traffic_totals(&ifs), (150, 15));
    let huge = vec![iface("a", u64::MAX, 1), iface("b", 5, 1)];
    assert_eq!(traffic_totals(&huge), (u64::MAX, 2));
}

#[test]
fn rate_is_zero_on_first_observation_or_no_time() {
    assert_eq!(rate_milli_kbps(0, 5000, 1_000_000), 0);
    assert_eq!(rate_milli_kbps(1000, 5000, 0), 0);
}

#[test]
fn rate_formula_in_thousandths_of_kbps() {
    // 1000 bytes in one second: 8 kbit/s.
    assert_eq!(rate_milli_kbps(1000, 2000, 1_000_000), 8_000);
    // 1000 bytes in half a second: 16 kbit/s.
    assert_eq!(rate_milli_kbps(1000, 2000, 500_000), 16_000);
    // A counter that went down (interface replug) gives no traffic.
    assert_eq!(rate_milli_kbps(5000, 2000, 1_000_000), 0);
    assert_eq!(rate_milli_kbps(1, u64::MAX, 1), u64::MAX);
}

#[test]
fn counters_track_session_totals() {
    let mut c = NetworkCounters::new(&vec![iface("eth0", 1000, 100)]);
    assert_eq!(c.session_totals(), (0, 0));
    let r = c.observe(&vec![iface("eth0", 3000, 150)], 2_000_000);
    assert_eq!(r, (8_000, 200));
    assert_eq!(c.session_totals(), (2000, 50));
}

#[test]
fn package_prefers_package_label() {
    let scan = SensorScan {
        hwmon: vec![node(
            "coretemp\n",
            vec![
                slot(1, "52000\n", Some("Package id 0")),
                slot(2, "61000\n", Some("Core 0")),
                slot(3, "58000\n", Some("PKG 1")),
            ],
        )],
        zones: vec![],
    };
    assert_eq!(cpu_package_temperature(&scan), Some(58_000));
}

#[test]
fn package_falls_back_to_first_slot_then_zone() {
    let scan = SensorScan {
        hwmon: vec![
            node("k10temp", vec![slot(1, "47500", None), slot(2, "90000", Some("Tccd1"))]),
            node("CPU sensor", vec![slot(1, "49000", Some("Tctl"))]),
            node("nvme", vec![slot(1, "70000", Some("Package"))]),
        ],
        zones: vec![],
    };
    assert_eq!(cpu_package_temperature(&scan), Some(49_000));
    let zones_only = SensorScan {
        hwmon: vec![node("acpitz", vec![slot(1, "40000", None)])],
        zones: vec![zone(0, "5000", None), zone(1, "44000", None), zone(2, "46000", None)],
    };
    assert_eq!(cpu_package_temperature(&zones_only), Some(44_000));
    let nothing = SensorScan { hwmon: vec![], zones: vec![zone(3, "44000", None)] };
    assert_eq!(cpu_package_temperature(&nothing), None);
}

#[test]
fn package_discards_implausible_readings() {
    let scan = SensorScan {
        hwmon: vec![node("coretemp", vec![slot(1, "150000", Some("Package id 0")), slot(2, "10000", Some("Package id 1"))])],
        zones: vec![],
    };
    assert_eq!(cpu_package_temperature(&scan), None);
}

#[test]
fn sensor_nodes_are_chosen_by_name() {
    assert!(reads_sensors(&Some("coretemp".to_string())));
    assert!(reads_sensors(&Some("K10TEMP".to_string())));
    assert!(reads_sensors(&Some("cpu_thermal".to_string())));
    assert!(!reads_sensors(&Some("nvme".to_string())));
    assert!(!reads_sensors(&None));
}

#[test]
fn core_temperatures_sorted_by_core_number() {
    let nodes = vec![node(
        "coretemp",
        vec![
            slot(4, "43000", Some("Core 2")),
            slot(2, "41000", Some("Core 0")),
            slot(5, "44000", Some("Core 3")),
            slot(3, "42000", Some("Core 1")),
            slot(1, "50000", Some("Package id 0")),
        ],
    )];
    assert_eq!(hwmon_core_temperatures(&nodes), vec![41_000, 42_000, 43_000, 44_000]);
}

#[test]
fn sparse_core_numbers_collapse() {
    let nodes = vec![
        node("acpitz", vec![slot(1, "30000", Some("Core 0"))]),
        node(
            "coretemp",
            vec![slot(10, "45000", Some("Core 8")), slot(2, "40000", Some("Core 0")), slot(3, "99999999999", Some("Core 1"))],
        ),
    ];
    assert_eq!(hwmon_core_temperatures(&nodes), vec![40_000, 45_000]);
}

#[test]
fn logical_core_maps_cyclically() {
    let phys = vec![40_000, 41_000, 42_000, 43_000];
    let mapped = map_to_logical(&phys, 8);
    assert_eq!(mapped.len(), 8);
    assert_eq!(mapped[5], phys[1]);
    assert_eq!(mapped, vec![40_000, 41_000, 42_000, 43_000, 40_000, 41_000, 42_000, 43_000]);
    assert_eq!(map_to_logical(&phys, 2), vec![40_000, 41_000]);
}

#[test]
fn zone_fallback_pads_with_mean() {
    let zones = vec![
        zone(0, "40000", Some("x86_pkg_temp")),
        zone(1, "45000", Some("acpitz")),
        zone(2, "50000", None),
        zone(3, "101000", None),
        zone(20, "60000", Some("cpu")),
    ];
    assert_eq!(zone_core_temperatures(&zones, 4), vec![40_000, 50_000, 45_000, 45_000]);
    assert_eq!(zone_core_temperatures(&zones, 1), vec![40_000, 50_000]);
    assert_eq!(zone_core_temperatures(&vec![], 4), Vec::<u64>::new());
}

#[test]
fn core_temperatures_use_hwmon_then_zones() {
    let scan = SensorScan {
        hwmon: vec![node("coretemp", vec![slot(2, "41000", Some("Core 1")), slot(3, "40000", Some("Core 0"))])],
        zones: vec![zone(0, "70000", Some("cpu"))],
    };
    assert_eq!(core_temperatures(&scan, 3), vec![40_000, 41_000, 40_000]);
    let zones_only = SensorScan { hwmon: vec![], zones: vec![zone(0, "70000", Some("cpu"))] };
    assert_eq!(core_temperatures(&zones_only, 2), vec![70_000, 70_000]);
}

#[test]
fn core_order_does_not_depend_on_file_order() {
    let labels = [("Core 0", "40000"), ("Core 1", "41000"), ("Core 2", "42000"), ("Core 3", "43000")];
    let forward: Vec<SensorSlot> =
        labels.iter().enumerate().map(|(i, (l, t))| slot(i as u32 + 2, t, Some(l))).collect();
    let backward: Vec<SensorSlot> =
        labels.iter().rev().enumerate().map(|(i, (l, t))| slot(i as u32 + 2, t, Some(l))).collect();
    let a = hwmon_core_temperatures(&vec![node("coretemp", forward)]);
    let b = hwmon_core_temperatures(&vec![node("coretemp", backward)]);
    assert_eq!(a, vec![40_000, 41_000, 42_000, 43_000]);
    assert_eq!(a, b);
}

#[test]
fn any_traffic_gives_a_positive_rate() {
    // 1 byte in 10 seconds is 0.0008 kbit/s, reported as the smallest unit.
    assert_eq!(rate_milli_kbps(1000, 1001, 10_000_000), 1);
    assert_eq!(rate_milli_kbps(1000, 1000, 10_000_000), 0);
}

#[test]
fn equal_core_numbers_keep_slot_order() {
    let nodes = vec![node(
        "coretemp",
        vec![slot(2, "45000", Some("Core 1")), slot(3, "41000", Some("Core 0")), slot(4, "43000", Some("Core 1"))],
    )];
    assert_eq!(hwmon_core_temperatures(&nodes), vec![41_000, 45_000, 43_000]);
}
