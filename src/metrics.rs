//! The metrics aggregator: one tick takes a snapshot of the host and pushes
//! each metric into its bounded history.
use crate::gpu::{memory_percent, vram_percent, GpuSnapshot};
use crate::history::{keep_last, latest_of, MetricHistory};
use crate::network::{capped, rate_of, sat_sub, traffic, InterfaceSample, NetworkCounters};
use crate::sensors::{
    core_sorted, core_temperatures, cpu_package_temperature, node_core_entries, package_temperature,
    pad_with_mean, spread, temps_of, zone_core_temps, SensorScan,
};
use crate::text::chars_of;
use std::collections::VecDeque;
use vstd::prelude::*;

verus! {

/// The metrics that keep a history.
#[derive(Clone, Copy, PartialEq, Eq, Structural, Debug)]
pub enum Metric {
    Cpu,
    Memory,
    Disk,
    NetworkRx,
    NetworkTx,
    GpuUsage,
    GpuMemory,
}

/// A mounted file system: where it is mounted and its sizes in bytes.
pub struct DiskSample {
    pub mount_point: String,
    pub total_space: u64,
    pub available_space: u64,
}

/// What the host reports at one tick. Usage figures are in thousandths of a
/// percent; `elapsed_us` is the time since the previous tick.
pub struct HostSnapshot {
    pub cpu_usage: u64,
    pub per_core_usage: Vec<u64>,
    pub used_memory: u64,
    pub total_memory: u64,
    pub disks: Vec<DiskSample>,
    pub interfaces: Vec<InterfaceSample>,
    pub elapsed_us: u64,
    pub sensors: SensorScan,
    pub gpu: GpuSnapshot,
}

/// `part` as a share of `whole`, in thousandths of a percent; 0 when `whole` is 0.
pub open spec fn percent_of(part: u64, whole: u64) -> u64 {
    if whole == 0 {
        0
    } else {
        capped(part * 100_000 / whole as int)
    }
}

fn percent(part: u64, whole: u64) -> (r: u64)
    ensures
        r == percent_of(part, whole),
{
    if whole == 0 {
        return 0;
    }
    let v = part as u128 * 100_000 / whole as u128;
    if v > u64::MAX as u128 {
        u64::MAX
    } else {
        v as u64
    }
}

/// Usage of the root file system: that of the first disk mounted at `/`, or 0.
pub open spec fn root_usage(disks: Seq<DiskSample>) -> u64
    decreases disks.len(),
{
    if disks.len() == 0 {
        0
    } else if disks[0].mount_point@ == "/"@ {
        percent_of(sat_sub(disks[0].total_space, disks[0].available_space), disks[0].total_space)
    } else {
        root_usage(disks.drop_first())
    }
}

fn is_root(mount: &String) -> (r: bool)
    ensures
        r == (mount@ == "/"@),
{
    let cs = chars_of(mount.as_str());
    proof {
        reveal_strlit("/");
    }
    let r = cs.len() == 1 && cs[0] == '/';
    assert(r ==> cs@ =~= "/"@);
    r
}

/// See `root_usage`.
pub fn disk_usage_percent(disks: &Vec<DiskSample>) -> (r: u64)
    ensures
        r == root_usage(disks@),
{
    let mut i: usize = 0;
    assert(disks@.skip(0) =~= disks@);
    while i < disks.len()
        invariant
            i <= disks@.len(),
            root_usage(disks@) == root_usage(disks@.skip(i as int)),
        decreases disks@.len() - i,
    {
        let d = &disks[i];
        assert(disks@.skip(i as int)[0] == *d);
        assert(disks@.skip(i as int).drop_first() =~= disks@.skip(i + 1));
        if is_root(&d.mount_point) {
            return percent(d.total_space.saturating_sub(d.available_space), d.total_space);
        }
        i += 1;
    }
    assert(disks@.skip(i as int) =~= Seq::<DiskSample>::empty());
    0
}

/// Per-core temperatures as `core_temperatures` states them, for `logical` cores.
pub open spec fn core_temps_from(scan: SensorScan, logical: nat, r: Seq<u64>) -> bool {
    &&& node_core_entries(scan.hwmon@).len() > 0 ==> r == spread(
        temps_of(core_sorted(node_core_entries(scan.hwmon@))),
        logical,
    )
    &&& node_core_entries(scan.hwmon@).len() == 0 ==> r == pad_with_mean(
        zone_core_temps(scan.zones@),
        logical,
    )
}

/// The engine's state: a bounded history per metric, the latest per-core and
/// GPU readings, and the network counters.
pub struct SystemMetrics {
    cpu_history: MetricHistory,
    memory_history: MetricHistory,
    disk_history: MetricHistory,
    network_rx_history: MetricHistory,
    network_tx_history: MetricHistory,
    gpu_usage_history: MetricHistory,
    gpu_memory_percent_history: MetricHistory,
    network: NetworkCounters,
    per_core_usage: Vec<u64>,
    per_core_temperatures: Vec<u64>,
    gpu: GpuSnapshot,
    cpu_temperature: Option<u64>,
    max_history: usize,
}

impl SystemMetrics {
    /// The history of `m`, oldest first.
    pub closed spec fn history(&self, m: Metric) -> Seq<u64> {
        match m {
            Metric::Cpu => self.cpu_history.view(),
            Metric::Memory => self.memory_history.view(),
            Metric::Disk => self.disk_history.view(),
            Metric::NetworkRx => self.network_rx_history.view(),
            Metric::NetworkTx => self.network_tx_history.view(),
            Metric::GpuUsage => self.gpu_usage_history.view(),
            Metric::GpuMemory => self.gpu_memory_percent_history.view(),
        }
    }

    /// The number of samples each history keeps.
    pub closed spec fn cap(&self) -> nat {
        self.max_history as nat
    }

    pub closed spec fn counters(&self) -> NetworkCounters {
        self.network
    }

    pub closed spec fn core_usage(&self) -> Seq<u64> {
        self.per_core_usage@
    }

    pub closed spec fn core_temps(&self) -> Seq<u64> {
        self.per_core_temperatures@
    }

    pub closed spec fn gpu_state(&self) -> GpuSnapshot {
        self.gpu
    }

    pub closed spec fn package_temp(&self) -> Option<u64> {
        self.cpu_temperature
    }

    pub closed spec fn wf(&self) -> bool {
        &&& self.cpu_history.wf() && self.cpu_history.cap() == self.max_history
        &&& self.memory_history.wf() && self.memory_history.cap() == self.max_history
        &&& self.disk_history.wf() && self.disk_history.cap() == self.max_history
        &&& self.network_rx_history.wf() && self.network_rx_history.cap() == self.max_history
        &&& self.network_tx_history.wf() && self.network_tx_history.cap() == self.max_history
        &&& self.gpu_usage_history.wf() && self.gpu_usage_history.cap() == self.max_history
        &&& self.gpu_memory_percent_history.wf() && self.gpu_memory_percent_history.cap()
            == self.max_history
    }

    /// An engine keeping `max_history` samples per metric, with the network
    /// baseline taken from `interfaces`.
    pub fn new(max_history: usize, interfaces: &Vec<InterfaceSample>) -> (r: Self)
        ensures
            r.wf(),
            r.cap() == max_history,
            forall|m: Metric| r.history(m) == Seq::<u64>::empty(),
            r.counters().initial_rx == capped(traffic(interfaces@, true) as int),
            r.counters().initial_tx == capped(traffic(interfaces@, false) as int),
            r.counters().prev_rx == r.counters().initial_rx,
            r.counters().prev_tx == r.counters().initial_tx,
            r.core_usage().len() == 0,
            r.core_temps().len() == 0,
            r.package_temp() is None,
            crate::gpu::no_gpu(r.gpu_state()),
    {
        SystemMetrics {
            cpu_history: MetricHistory::new(max_history),
            memory_history: MetricHistory::new(max_history),
            disk_history: MetricHistory::new(max_history),
            network_rx_history: MetricHistory::new(max_history),
            network_tx_history: MetricHistory::new(max_history),
            gpu_usage_history: MetricHistory::new(max_history),
            gpu_memory_percent_history: MetricHistory::new(max_history),
            network: NetworkCounters::new(interfaces),
            per_core_usage: Vec::new(),
            per_core_temperatures: Vec::new(),
            gpu: GpuSnapshot::absent(),
            cpu_temperature: None,
            max_history,
        }
    }

    /// Appends `value` to the history of `m`, evicting the oldest sample
    /// beyond the capacity; nothing else changes.
    pub fn push(&mut self, m: Metric, value: u64)
        requires
            old(self).wf(),
        ensures
            final(self).wf(),
            final(self).cap() == old(self).cap(),
            final(self).history(m) == keep_last(old(self).history(m).push(value), old(self).cap()),
            forall|n: Metric| n != m ==> final(self).history(n) == old(self).history(n),
            final(self).counters() == old(self).counters(),
            final(self).core_usage() == old(self).core_usage(),
            final(self).core_temps() == old(self).core_temps(),
            final(self).gpu_state() == old(self).gpu_state(),
            final(self).package_temp() == old(self).package_temp(),
    {
        match m {
            Metric::Cpu => self.cpu_history.push(value),
            Metric::Memory => self.memory_history.push(value),
            Metric::Disk => self.disk_history.push(value),
            Metric::NetworkRx => self.network_rx_history.push(value),
            Metric::NetworkTx => self.network_tx_history.push(value),
            Metric::GpuUsage => self.gpu_usage_history.push(value),
            Metric::GpuMemory => self.gpu_memory_percent_history.push(value),
        }
    }

    /// The history of `m`, oldest first.
    pub fn series(&self, m: Metric) -> (r: &VecDeque<u64>)
        ensures
            r@ == self.history(m),
    {
        match m {
            Metric::Cpu => self.cpu_history.samples(),
            Metric::Memory => self.memory_history.samples(),
            Metric::Disk => self.disk_history.samples(),
            Metric::NetworkRx => self.network_rx_history.samples(),
            Metric::NetworkTx => self.network_tx_history.samples(),
            Metric::GpuUsage => self.gpu_usage_history.samples(),
            Metric::GpuMemory => self.gpu_memory_percent_history.samples(),
        }
    }

    /// The most recent sample of `m`, or 0 when there is none.
    pub fn latest(&self, m: Metric) -> (r: u64)
        ensures
            r == latest_of(self.history(m)),
    {
        match m {
            Metric::Cpu => self.cpu_history.latest(),
            Metric::Memory => self.memory_history.latest(),
            Metric::Disk => self.disk_history.latest(),
            Metric::NetworkRx => self.network_rx_history.latest(),
            Metric::NetworkTx => self.network_tx_history.latest(),
            Metric::GpuUsage => self.gpu_usage_history.latest(),
            Metric::GpuMemory => self.gpu_memory_percent_history.latest(),
        }
    }

    /// One tick: pushes CPU, memory, disk, network and GPU samples, and takes
    /// the per-core readings, package temperature and GPU state of `host`.
    /// Each metric is handled on its own; an absent reading becomes 0.
    pub fn update(&mut self, host: HostSnapshot)
        requires
            old(self).wf(),
        ensures
            final(self).wf(),
            final(self).cap() == old(self).cap(),
            final(self).history(Metric::Cpu) == keep_last(
                old(self).history(Metric::Cpu).push(host.cpu_usage),
                old(self).cap(),
            ),
            final(self).core_usage() == host.per_core_usage@,
            core_temps_from(host.sensors, host.per_core_usage@.len(), final(self).core_temps()),
            match final(self).package_temp() {
                Some(v) => package_temperature(host.sensors) == Some(v as int),
                None => package_temperature(host.sensors) is None,
            },
            final(self).history(Metric::Memory) == keep_last(
                old(self).history(Metric::Memory).push(
                    percent_of(host.used_memory, host.total_memory),
                ),
                old(self).cap(),
            ),
            final(self).history(Metric::Disk) == keep_last(
                old(self).history(Metric::Disk).push(root_usage(host.disks@)),
                old(self).cap(),
            ),
            final(self).counters().prev_rx == capped(traffic(host.interfaces@, true) as int),
            final(self).counters().prev_tx == capped(traffic(host.interfaces@, false) as int),
            final(self).counters().initial_rx == old(self).counters().initial_rx,
            final(self).counters().initial_tx == old(self).counters().initial_tx,
            final(self).history(Metric::NetworkRx) == keep_last(
                old(self).history(Metric::NetworkRx).push(
                    rate_of(old(self).counters().prev_rx, final(self).counters().prev_rx, host.elapsed_us),
                ),
                old(self).cap(),
            ),
            final(self).history(Metric::NetworkTx) == keep_last(
                old(self).history(Metric::NetworkTx).push(
                    rate_of(old(self).counters().prev_tx, final(self).counters().prev_tx, host.elapsed_us),
                ),
                old(self).cap(),
            ),
            final(self).gpu_state() == host.gpu,
            final(self).history(Metric::GpuUsage) == keep_last(
                old(self).history(Metric::GpuUsage).push(or_zero(host.gpu.usage)),
                old(self).cap(),
            ),
            final(self).history(Metric::GpuMemory) == keep_last(
                old(self).history(Metric::GpuMemory).push(
                    or_zero(vram_percent(host.gpu.memory_used, host.gpu.memory_total)),
                ),
                old(self).cap(),
            ),
    {
        self.cpu_history.push(host.cpu_usage);
        let logical = host.per_core_usage.len();
        self.per_core_usage = host.per_core_usage;
        self.per_core_temperatures = core_temperatures(&host.sensors, logical);
        self.cpu_temperature = cpu_package_temperature(&host.sensors);
        self.memory_history.push(percent(host.used_memory, host.total_memory));
        self.disk_history.push(disk_usage_percent(&host.disks));
        let (down, up) = self.network.observe(&host.interfaces, host.elapsed_us);
        self.network_rx_history.push(down);
        self.network_tx_history.push(up);
        self.gpu = host.gpu;
        let usage = match self.gpu.usage {
            Some(v) => v,
            None => 0,
        };
        let vram = match memory_percent(self.gpu.memory_used, self.gpu.memory_total) {
            Some(v) => v,
            None => 0,
        };
        self.gpu_usage_history.push(usage);
        self.gpu_memory_percent_history.push(vram);
    }

    /// Latest CPU usage, or 0.
    pub fn cpu_usage(&self) -> (r: u64)
        ensures
            r == latest_of(self.history(Metric::Cpu)),
    {
        self.cpu_history.latest()
    }

    /// Latest memory usage, or 0.
    pub fn memory_usage(&self) -> (r: u64)
        ensures
            r == latest_of(self.history(Metric::Memory)),
    {
        self.memory_history.latest()
    }

    /// Latest root file-system usage, or 0.
    pub fn disk_usage(&self) -> (r: u64)
        ensures
            r == latest_of(self.history(Metric::Disk)),
    {
        self.disk_history.latest()
    }

    pub fn cpu_history(&self) -> (r: &VecDeque<u64>)
        ensures
            r@ == self.history(Metric::Cpu),
    {
        self.cpu_history.samples()
    }

    pub fn memory_history(&self) -> (r: &VecDeque<u64>)
        ensures
            r@ == self.history(Metric::Memory),
    {
        self.memory_history.samples()
    }

    pub fn disk_history(&self) -> (r: &VecDeque<u64>)
        ensures
            r@ == self.history(Metric::Disk),
    {
        self.disk_history.samples()
    }

    /// Latest download rate, or 0.
    pub fn network_download_rate(&self) -> (r: u64)
        ensures
            r == latest_of(self.history(Metric::NetworkRx)),
    {
        self.network_rx_history.latest()
    }

    /// Latest upload rate, or 0.
    pub fn network_upload_rate(&self) -> (r: u64)
        ensures
            r == latest_of(self.history(Metric::NetworkTx)),
    {
        self.network_tx_history.latest()
    }

    pub fn network_rx_history(&self) -> (r: &VecDeque<u64>)
        ensures
            r@ == self.history(Metric::NetworkRx),
    {
        self.network_rx_history.samples()
    }

    pub fn network_tx_history(&self) -> (r: &VecDeque<u64>)
        ensures
            r@ == self.history(Metric::NetworkTx),
    {
        self.network_tx_history.samples()
    }

    pub fn per_core_usage(&self) -> (r: &[u64])
        ensures
            r@ == self.core_usage(),
    {
        self.per_core_usage.as_slice()
    }

    pub fn per_core_temperatures(&self) -> (r: &[u64])
        ensures
            r@ == self.core_temps(),
    {
        self.per_core_temperatures.as_slice()
    }

    pub fn gpu_usage(&self) -> (r: Option<u64>)
        ensures
            r == self.gpu_state().usage,
    {
        self.gpu.usage
    }

    pub fn gpu_temperature(&self) -> (r: Option<u64>)
        ensures
            r == self.gpu_state().temperature,
    {
        self.gpu.temperature
    }

    pub fn gpu_fan_speed(&self) -> (r: Option<u64>)
        ensures
            r == self.gpu_state().fan_speed,
    {
        self.gpu.fan_speed
    }

    pub fn gpu_power_draw(&self) -> (r: Option<u64>)
        ensures
            r == self.gpu_state().power_draw,
    {
        self.gpu.power_draw
    }

    pub fn gpu_memory_used(&self) -> (r: Option<u64>)
        ensures
            r == self.gpu_state().memory_used,
    {
        self.gpu.memory_used
    }

    pub fn gpu_memory_total(&self) -> (r: Option<u64>)
        ensures
            r == self.gpu_state().memory_total,
    {
        self.gpu.memory_total
    }

    /// GPU memory used as a share of the total (see `vram_percent`).
    pub fn gpu_memory_usage_percent(&self) -> (r: Option<u64>)
        ensures
            r == vram_percent(self.gpu_state().memory_used, self.gpu_state().memory_total),
    {
        memory_percent(self.gpu.memory_used, self.gpu.memory_total)
    }

    pub fn gpu_name(&self) -> (r: Option<&String>)
        ensures
            match r {
                Some(s) => self.gpu_state().name == Some(*s),
                None => self.gpu_state().name is None,
            },
    {
        match &self.gpu.name {
            Some(s) => Some(s),
            None => None,
        }
    }

    pub fn gpu_usage_history(&self) -> (r: &VecDeque<u64>)
        ensures
            r@ == self.history(Metric::GpuUsage),
    {
        self.gpu_usage_history.samples()
    }

    pub fn gpu_memory_percent_history(&self) -> (r: &VecDeque<u64>)
        ensures
            r@ == self.history(Metric::GpuMemory),
    {
        self.gpu_memory_percent_history.samples()
    }

    /// Bytes received and sent since the engine was made.
    pub fn total_network_bytes(&self) -> (r: (u64, u64))
        ensures
            r == session_totals(self.counters()),
    {
        self.network.session_totals()
    }

    /// CPU package temperature found at the last tick, if any.
    pub fn cpu_temperature(&self) -> (r: Option<u64>)
        ensures
            r == self.package_temp(),
    {
        self.cpu_temperature
    }
}

/// `o`'s value, or 0.
pub open spec fn or_zero(o: Option<u64>) -> u64 {
    match o {
        Some(v) => v,
        None => 0,
    }
}

/// Bytes received and sent since the baseline of `c`.
pub open spec fn session_totals(c: NetworkCounters) -> (u64, u64) {
    (sat_sub(c.prev_rx, c.initial_rx), sat_sub(c.prev_tx, c.initial_tx))
}

/// Session totals: right after construction they are `(0, 0)`, and after any
/// tick they are the interfaces' counters at that tick less those at
/// construction (0 where a counter went down).
pub proof fn lemma_session_totals(
    fresh: SystemMetrics,
    before: SystemMetrics,
    after: SystemMetrics,
    ifs: Seq<InterfaceSample>,
)
    requires
        fresh.counters().prev_rx == fresh.counters().initial_rx,
        fresh.counters().prev_tx == fresh.counters().initial_tx,
        after.counters().prev_rx == capped(traffic(ifs, true) as int),
        after.counters().prev_tx == capped(traffic(ifs, false) as int),
        after.counters().initial_rx == before.counters().initial_rx,
        after.counters().initial_tx == before.counters().initial_tx,
    ensures
        session_totals(fresh.counters()) == (0u64, 0u64),
        session_totals(after.counters()) == (
            sat_sub(capped(traffic(ifs, true) as int), before.counters().initial_rx),
            sat_sub(capped(traffic(ifs, false) as int), before.counters().initial_tx),
        ),
{
}

} // verus!
