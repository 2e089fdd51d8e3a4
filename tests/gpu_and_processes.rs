use sysmon::gpu::{gpu_step, memory_percent, parse_basic_query, parse_full_query, GpuQuery, GpuStep};
use sysmon::gpu_procs::{gpu_processes, parse_listing};
use sysmon::processes::{clamp_scroll, snapshot_processes, ProcessInfo, ProcessSortMode, ProcessTable};
use sysmon::units::format_bytes;

fn proc_info(pid: u32, name: &str, cpu: u64, mem: u64) -> ProcessInfo {
    ProcessInfo { pid, name: name.to_string(), cpu_usage: cpu, memory_usage: mem, user: "1000".to_string() }
}

#[test]
fn full_query_reads_every_field() {
    let g = parse_full_query("NVIDIA GeForce RTX 3080, 45, 60, 30, 120.50, 1024, 10240\n").unwrap();
    assert_eq!(g.name.as_deref(), Some("NVIDIA GeForce RTX 3080"));
    assert_eq!(g.usage, Some(45_000));
    assert_eq!(g.temperature, Some(60_000));
    assert_eq!(g.fan_speed, Some(30_000));
    assert_eq!(g.power_draw, Some(120_500));
    assert_eq!(g.memory_used, Some(1_024_000));
    assert_eq!(g.memory_total, Some(10_240_000));
}

#[test]
fn full_query_maps_unsupported_fields_to_absent() {
    let g = parse_full_query("[Not Supported], 12, 55, [Not Supported], [Not Supported], 300, 2048\r\nsecond line").unwrap();
    assert_eq!(g.name, None);
    assert_eq!(g.usage, Some(12_000));
    assert_eq!(g.fan_speed, None);
    assert_eq!(g.power_draw, None);
    assert_eq!(g.memory_total, Some(2_048_000));
    let empty_name = parse_full_query(" , 1, 2, 3, 4, 5, 6").unwrap();
    assert_eq!(empty_name.name, None);
}

#[test]
fn full_query_with_too_few_fields_fails() {
    assert!(parse_full_query("45, 60").is_none());
    assert!(parse_full_query("").is_none());
}

#[test]
fn basic_query_reads_usage_and_temperature() {
    let g = parse_basic_query("7, 41.25\n").unwrap();
    assert_eq!(g.usage, Some(7_000));
    assert_eq!(g.temperature, Some(41_250));
    assert_eq!(g.name, None);
    assert!(parse_basic_query("7").is_none());
}

#[test]
fn gpu_step_falls_back_then_gives_up() {
    assert!(matches!(gpu_step(GpuQuery::Full, None), GpuStep::Retry(GpuQuery::Basic)));
    assert!(matches!(gpu_step(GpuQuery::Full, Some("1, 2")), GpuStep::Retry(GpuQuery::Basic)));
    match gpu_step(GpuQuery::Basic, Some("33, 50")) {
        GpuStep::Done(g) => {
            assert_eq!(g.usage, Some(33_000));
            assert_eq!(g.temperature, Some(50_000));
        }
        GpuStep::Retry(_) => panic!("basic query is not retried"),
    }
    match gpu_step(GpuQuery::Basic, None) {
        GpuStep::Done(g) => {
            assert_eq!(g.usage, None);
            assert_eq!(g.temperature, None);
            assert_eq!(g.memory_total, None);
        }
        GpuStep::Retry(_) => panic!("basic query is not retried"),
    }
    match gpu_step(GpuQuery::Full, Some("A, 1, 2, 3, 4, 5, 6")) {
        GpuStep::Done(g) => assert_eq!(g.name.as_deref(), Some("A")),
        GpuStep::Retry(_) => panic!("full query succeeded"),
    }
}

#[test]
fn vram_percent_needs_a_total() {
    assert_eq!(memory_percent(Some(1_024_000), Some(10_240_000)), Some(10_000));
    assert_eq!(memory_percent(Some(1), Some(0)), None);
    assert_eq!(memory_percent(None, Some(10)), None);
    assert_eq!(memory_percent(Some(10), None), None);
}

#[test]
fn gpu_merge_same_pid_across_sources() {
    let compute = "100, python, 500\n";
    let monitor = "# gpu         pid   type     sm    mem    enc    dec    command\n# Idx           #    C/G      %      %      %      %    name\n    0        100     C     40      5      -      -    python\n";
    let graphics = "100, python3, 800\n";
    let merged = gpu_processes(Some(compute), Some(monitor), Some(graphics));
    assert_eq!(merged.len(), 1);
    let p = &merged[0];
    assert_eq!(p.pid, 100);
    assert_eq!(p.name, "python");
    assert_eq!(p.memory_mb, 800);
    assert_eq!(p.gpu_util, Some(40));
    assert_eq!(p.mem_util, Some(5));
}

#[test]
fn gpu_merge_adds_unknown_processes_and_sorts() {
    let compute = "10, a, 300\n11, b, 100\n";
    let monitor = "    0     12     G     7%     -     -     -    Xorg\n    0     10     C     -     3     -     -    a\n";
    let graphics = "13, d, 200\n11, b, 50\n";
    let merged = gpu_processes(Some(compute), Some(monitor), Some(graphics));
    let pids: Vec<u32> = merged.iter().map(|p| p.pid).collect();
    assert_eq!(pids, vec![10, 13, 11, 12]);
    let xorg = merged.iter().find(|p| p.pid == 12).unwrap();
    assert_eq!(xorg.name, "Xorg");
    assert_eq!(xorg.memory_mb, 0);
    assert_eq!(xorg.gpu_util, Some(7));
    assert_eq!(xorg.mem_util, None);
    let a = merged.iter().find(|p| p.pid == 10).unwrap();
    assert_eq!(a.gpu_util, None);
    assert_eq!(a.mem_util, Some(3));
    let b = merged.iter().find(|p| p.pid == 11).unwrap();
    assert_eq!(b.memory_mb, 100);
}

#[test]
fn gpu_merge_survives_failed_sources() {
    let merged = gpu_processes(None, None, Some("5, x, 10\n"));
    assert_eq!(merged.len(), 1);
    assert_eq!(merged[0].pid, 5);
    assert!(gpu_processes(None, None, None).is_empty());
    assert!(parse_listing(Some("garbage line\n\n, ,\n"), false).is_empty());
}

#[test]
fn monitor_present_value_not_cleared_by_later_absent_one() {
    let monitor = "    0     20     C     40     5     -     -    app\n    1     20     C     -     -     -     -    app\n";
    let merged = gpu_processes(None, Some(monitor), None);
    assert_eq!(merged.len(), 1);
    assert_eq!(merged[0].gpu_util, Some(40));
    assert_eq!(merged[0].mem_util, Some(5));
}

#[test]
fn snapshot_filters_small_and_unnamed() {
    let all = vec![
        proc_info(1, "init", 100, 1024),
        proc_info(2, "", 5000, 1 << 20),
        proc_info(3, "bash", 200, 1025),
        proc_info(4, "firefox", 9000, 1 << 30),
    ];
    let snap = snapshot_processes(all, ProcessSortMode::Cpu);
    let pids: Vec<u32> = snap.iter().map(|p| p.pid).collect();
    assert_eq!(pids, vec![4, 3]);
}

#[test]
fn snapshot_orders_by_mode_with_tie_break() {
    let all = vec![
        proc_info(1, "a", 500, 4096),
        proc_info(2, "b", 500, 8192),
        proc_info(3, "c", 900, 2048),
        proc_info(4, "d", 100, 8192),
    ];
    let by_cpu: Vec<u32> = snapshot_processes(all, ProcessSortMode::Cpu).iter().map(|p| p.pid).collect();
    assert_eq!(by_cpu, vec![3, 2, 1, 4]);
    let all = vec![
        proc_info(1, "a", 500, 4096),
        proc_info(2, "b", 500, 8192),
        proc_info(3, "c", 900, 2048),
        proc_info(4, "d", 100, 8192),
    ];
    let by_mem: Vec<u32> = snapshot_processes(all, ProcessSortMode::Memory).iter().map(|p| p.pid).collect();
    assert_eq!(by_mem, vec![2, 4, 1, 3]);
}

#[test]
fn snapshot_keeps_at_most_five_hundred() {
    let all: Vec<ProcessInfo> = (0..600u32).map(|i| proc_info(i, "p", i as u64, 4096)).collect();
    let snap = snapshot_processes(all, ProcessSortMode::Cpu);
    assert_eq!(snap.len(), 500);
    assert_eq!(snap[0].pid, 599);
    assert_eq!(snap[499].pid, 100);
}

#[test]
fn switching_sort_mode_reorders_held_rows() {
    let mut t = ProcessTable::new();
    t.refresh(vec![proc_info(1, "a", 900, 2048), proc_info(2, "b", 100, 9000), proc_info(3, "c", 500, 5000)]);
    let by_cpu: Vec<u32> = t.processes.iter().map(|p| p.pid).collect();
    assert_eq!(by_cpu, vec![1, 3, 2]);
    t.scroll = 2;
    t.set_sort_mode(ProcessSortMode::Memory);
    let by_mem: Vec<u32> = t.processes.iter().map(|p| p.pid).collect();
    assert_eq!(by_mem, vec![2, 3, 1]);
    assert_eq!(t.mode, ProcessSortMode::Memory);
    assert_eq!(t.scroll, 2);
    t.refresh(vec![proc_info(9, "z", 1, 5000)]);
    assert_eq!(t.scroll, 0);
    assert_eq!(t.processes.len(), 1);
}

#[test]
fn scroll_is_clamped_into_table() {
    assert_eq!(clamp_scroll(10, 3), 2);
    assert_eq!(clamp_scroll(1, 3), 1);
    assert_eq!(clamp_scroll(4, 0), 0);
}

#[test]
fn bytes_are_formatted_with_one_decimal() {
    assert_eq!(format_bytes(0), "0.0 B");
    assert_eq!(format_bytes(1023), "1023.0 B");
    assert_eq!(format_bytes(1024), "1.0 KB");
    assert_eq!(format_bytes(1536), "1.5 KB");
    assert_eq!(format_bytes(1331), "1.3 KB");
    assert_eq!(format_bytes(1280), "1.2 KB");
    assert_eq!(format_bytes(1_048_576), "1.0 MB");
    assert_eq!(format_bytes(5 * (1 << 30)), "5.0 GB");
    assert_eq!(format_bytes(1u64 << 50), "1024.0 TB");
}

#[test]
fn gpu_merge_keeps_one_record_per_pid() {
    let compute = "100, worker, 300\n100, worker, 700\n200, other, 50\n100, worker, 10\n";
    let merged = gpu_processes(Some(compute), None, None);
    assert_eq!(merged.len(), 2);
    assert_eq!(merged[0].pid, 100);
    assert_eq!(merged[0].memory_mb, 700);
    assert_eq!(merged[1].pid, 200);
}

#[test]
fn gpu_sort_keeps_merged_order_on_equal_memory() {
    let compute = "3, c, 64\n1, a, 64\n2, b, 128\n";
    let pids: Vec<u32> = gpu_processes(Some(compute), None, None).iter().map(|p| p.pid).collect();
    assert_eq!(pids, vec![2, 3, 1]);
}

#[test]
fn snapshot_keeps_input_order_of_equal_processes() {
    let all = vec![
        proc_info(7, "x", 100, 4096),
        proc_info(3, "y", 100, 4096),
        proc_info(5, "z", 200, 4096),
        proc_info(1, "w", 100, 4096),
    ];
    let pids: Vec<u32> = snapshot_processes(all, ProcessSortMode::Cpu).iter().map(|p| p.pid).collect();
    assert_eq!(pids, vec![5, 7, 3, 1]);
}
