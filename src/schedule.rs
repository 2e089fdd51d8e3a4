//! When each kind of refresh is due. Metrics refresh on their own interval;
//! the process table and the log refresh on longer ones, and only while their
//! view is shown.
use vstd::prelude::*;

verus! {

/// Number of views: system, processes, log.
pub const VIEWS: usize = 3;

/// The view of the process table.
pub const PROCESS_VIEW: usize = 1;

/// The view of the system log.
pub const LOG_VIEW: usize = 2;

/// Milliseconds between refreshes of the process table.
pub const PROCESS_REFRESH_MS: u64 = 2000;

/// Milliseconds between refreshes of the log.
pub const LOG_REFRESH_MS: u64 = 5000;

/// The refreshes to run now.
pub struct DueWork {
    pub metrics: bool,
    pub processes: bool,
    pub log: bool,
}

/// The refreshes due while `view` is shown, given the milliseconds since each
/// last ran and the metrics interval.
pub fn work_due(view: usize, since_metrics: u64, metrics_every: u64, since_processes: u64, since_log: u64) -> (r: DueWork)
    ensures
        r.metrics == (since_metrics >= metrics_every),
        r.processes == (view == PROCESS_VIEW && since_processes >= PROCESS_REFRESH_MS),
        r.log == (view == LOG_VIEW && since_log >= LOG_REFRESH_MS),
{
    DueWork {
        metrics: since_metrics >= metrics_every,
        processes: view == PROCESS_VIEW && since_processes >= PROCESS_REFRESH_MS,
        log: view == LOG_VIEW && since_log >= LOG_REFRESH_MS,
    }
}

/// The view after `view`, cycling.
pub fn next_view(view: usize) -> (r: usize)
    ensures
        r == (view as int + 1) % (VIEWS as int),
{
    (view % VIEWS + 1) % VIEWS
}

/// The refreshes to run on switching to `view`: a view's data is fetched at
/// once when it is empty or stale.
pub fn work_on_switch(
    view: usize,
    processes_empty: bool,
    since_processes: u64,
    log_empty: bool,
    since_log: u64,
) -> (r: DueWork)
    ensures
        !r.metrics,
        r.processes == (view == PROCESS_VIEW && (processes_empty || since_processes >= PROCESS_REFRESH_MS)),
        r.log == (view == LOG_VIEW && (log_empty || since_log >= LOG_REFRESH_MS)),
{
    DueWork {
        metrics: false,
        processes: view == PROCESS_VIEW && (processes_empty || since_processes >= PROCESS_REFRESH_MS),
        log: view == LOG_VIEW && (log_empty || since_log >= LOG_REFRESH_MS),
    }
}

} // verus!
