use sysmon::gpu::GpuSnapshot;
use sysmon::history::MetricHistory;
use sysmon::metrics::{disk_usage_percent, DiskSample, HostSnapshot, Metric, SystemMetrics};
use sysmon::network::InterfaceSample;
use sysmon::sensors::SensorScan;

fn iface(name: &str, rx: u64, tx: u64) -> InterfaceSample {
    InterfaceSample { name: name.to_string(), received: rx, transmitted: tx }
}

fn host(cpu: u64, ifs: Vec<InterfaceSample>, elapsed_us: u64) -> HostSnapshot {
    HostSnapshot {
        cpu_usage: cpu,
        per_core_usage: vec![cpu, cpu],
        used_memory: 2048,
        total_memory: 8192,
        disks: vec![DiskSample { mount_point: "/".to_string(), total_space: 1000, available_space: 250 }],
        interfaces: ifs,
        elapsed_us,
        sensors: SensorScan { hwmon: vec![], zones: vec![] },
        gpu: GpuSnapshot::absent(),
    }
}

#[test]
fn history_keeps_most_recent_in_order() {
    let mut h = MetricHistory::new(3);
    for v in 1..=5u64 {
        h.push(v);
    }
    assert_eq!(h.len(), 3);
    assert_eq!(h.samples().iter().copied().collect::<Vec<u64>>(), vec![3, 4, 5]);
    assert_eq!(h.latest(), 5);
}

#[test]
fn history_empty_latest_is_zero() {
    let h = MetricHistory::new(4);
    assert_eq!(h.latest(), 0);
    assert_eq!(h.len(), 0);
}

#[test]
fn history_with_zero_capacity_keeps_nothing() {
    let mut h = MetricHistory::new(0);
    h.push(7);
    assert_eq!(h.len(), 0);
    assert_eq!(h.latest(), 0);
}

#[test]
fn engine_series_after_four_pushes() {
    let mut m = SystemMetrics::new(3, &vec![]);
    for v in [10u64, 20, 30, 40] {
        m.push(Metric::Cpu, v);
    }
    assert_eq!(m.series(Metric::Cpu).iter().copied().collect::<Vec<u64>>(), vec![20, 30, 40]);
    assert_eq!(m.latest(Metric::Cpu), 40);
    assert_eq!(m.cpu_usage(), 40);
    assert!(m.series(Metric::Memory).is_empty());
}

#[test]
fn engine_ticks_push_every_metric() {
    let mut m = SystemMetrics::new(3, &vec![iface("eth0", 1000, 500)]);
    for cpu in [10u64, 20, 30, 40] {
        m.update(host(cpu, vec![iface("eth0", 1000, 500)], 1_000_000));
    }
    assert_eq!(m.cpu_history().iter().copied().collect::<Vec<u64>>(), vec![20, 30, 40]);
    assert_eq!(m.cpu_usage(), 40);
    assert_eq!(m.memory_usage(), 25_000);
    assert_eq!(m.disk_usage(), 75_000);
    assert_eq!(m.gpu_usage_history().len(), 3);
    assert_eq!(m.gpu_usage_history().back().copied(), Some(0));
    assert_eq!(m.gpu_memory_percent_history().back().copied(), Some(0));
    assert_eq!(m.per_core_usage(), &[40, 40]);
    assert!(m.per_core_temperatures().is_empty());
    assert_eq!(m.cpu_temperature(), None);
}

#[test]
fn engine_session_totals_start_at_zero() {
    let m = SystemMetrics::new(5, &vec![iface("eth0", 123_456, 7_890)]);
    assert_eq!(m.total_network_bytes(), (0, 0));
}

#[test]
fn engine_session_totals_follow_counters() {
    let mut m = SystemMetrics::new(5, &vec![iface("eth0", 10_000, 4_000), iface("lo", 999, 999)]);
    m.update(host(0, vec![iface("eth0", 13_000, 4_500), iface("lo", 5_000, 5_000)], 1_000_000));
    assert_eq!(m.total_network_bytes(), (3_000, 500));
    // 3000 bytes in one second is 24 kbit/s.
    assert_eq!(m.network_download_rate(), 24_000);
    assert_eq!(m.network_upload_rate(), 4_000);
    // A counter that went down counts as nothing.
    m.update(host(0, vec![iface("eth0", 9_000, 4_500)], 1_000_000));
    assert_eq!(m.total_network_bytes(), (0, 500));
    assert_eq!(m.network_download_rate(), 0);
    assert_eq!(m.network_rx_history().len(), 2);
    assert_eq!(m.network_tx_history().len(), 2);
}

#[test]
fn engine_gpu_state_and_history() {
    let mut m = SystemMetrics::new(2, &vec![]);
    let mut h = host(0, vec![], 1);
    h.gpu = GpuSnapshot {
        usage: Some(45_000),
        temperature: Some(60_000),
        fan_speed: None,
        power_draw: Some(120_500),
        memory_used: Some(1_024_000),
        memory_total: Some(4_096_000),
        name: Some("Card".to_string()),
    };
    m.update(h);
    assert_eq!(m.gpu_usage(), Some(45_000));
    assert_eq!(m.gpu_temperature(), Some(60_000));
    assert_eq!(m.gpu_fan_speed(), None);
    assert_eq!(m.gpu_power_draw(), Some(120_500));
    assert_eq!(m.gpu_memory_used(), Some(1_024_000));
    assert_eq!(m.gpu_memory_total(), Some(4_096_000));
    assert_eq!(m.gpu_memory_usage_percent(), Some(25_000));
    assert_eq!(m.gpu_name().map(|s| s.as_str()), Some("Card"));
    assert_eq!(m.gpu_usage_history().back().copied(), Some(45_000));
    assert_eq!(m.gpu_memory_percent_history().back().copied(), Some(25_000));
}

#[test]
fn disk_usage_uses_root_mount_only() {
    let disks = vec![
        DiskSample { mount_point: "/boot".to_string(), total_space: 100, available_space: 0 },
        DiskSample { mount_point: "/".to_string(), total_space: 400, available_space: 300 },
    ];
    assert_eq!(disk_usage_percent(&disks), 25_000);
    let none = vec![DiskSample { mount_point: "/home".to_string(), total_space: 100, available_space: 0 }];
    assert_eq!(disk_usage_percent(&none), 0);
    let empty_disk = vec![DiskSample { mount_point: "/".to_string(), total_space: 0, available_space: 0 }];
    assert_eq!(disk_usage_percent(&empty_disk), 0);
}

#[test]
fn memory_history_of_empty_total_is_zero() {
    let mut m = SystemMetrics::new(2, &vec![]);
    let mut h = host(0, vec![], 1);
    h.total_memory = 0;
    m.update(h);
    assert_eq!(m.memory_history().back().copied(), Some(0));
    assert_eq!(m.disk_history().len(), 1);
}
