//! The process table: filtered, sorted and bounded snapshots of the host's
//! processes, with a scroll cursor that is kept inside the table.
use crate::sorting::{insertion_order, lemma_insertion_order, lemma_slot, total_preorder};
use vstd::prelude::*;

verus! {

/// Most processes a snapshot keeps.
pub const MAX_PROCESSES: usize = 500;

/// Processes using at most this many bytes are left out.
pub const MIN_MEMORY: u64 = 1024;

/// The key that orders the table, largest first; the other key breaks ties.
#[derive(Clone, Copy, PartialEq, Eq, Structural, Debug)]
pub enum ProcessSortMode {
    Cpu,
    Memory,
}

/// One process. `cpu_usage` is in thousandths of a percent, `memory_usage`
/// in bytes.
pub struct ProcessInfo {
    pub pid: u32,
    pub name: String,
    pub cpu_usage: u64,
    pub memory_usage: u64,
    pub user: String,
}

/// A process worth listing: it has a name and uses more than `MIN_MEMORY` bytes.
pub open spec fn listed(p: ProcessInfo) -> bool {
    p.name@.len() > 0 && p.memory_usage > MIN_MEMORY
}

/// The listed processes of `s`, in order.
pub open spec fn listed_of(s: Seq<ProcessInfo>) -> Seq<ProcessInfo>
    decreases s.len(),
{
    if s.len() == 0 {
        s
    } else {
        let r = listed_of(s.drop_last());
        if listed(s.last()) {
            r.push(s.last())
        } else {
            r
        }
    }
}

/// `a` may stand before `b` under `mode`.
pub open spec fn ranks_before(a: ProcessInfo, b: ProcessInfo, mode: ProcessSortMode) -> bool {
    match mode {
        ProcessSortMode::Cpu => a.cpu_usage > b.cpu_usage || (a.cpu_usage == b.cpu_usage
            && a.memory_usage >= b.memory_usage),
        ProcessSortMode::Memory => a.memory_usage > b.memory_usage || (a.memory_usage
            == b.memory_usage && a.cpu_usage >= b.cpu_usage),
    }
}

/// `s` is in the order of `mode`.
pub open spec fn sorted_for(s: Seq<ProcessInfo>, mode: ProcessSortMode) -> bool {
    forall|i: int, j: int| 0 <= i < j < s.len() ==> ranks_before(#[trigger] s[i], #[trigger] s[j], mode)
}

/// Processes may stand in this order under `mode`.
pub open spec fn rank_order(mode: ProcessSortMode) -> spec_fn(ProcessInfo, ProcessInfo) -> bool {
    |a: ProcessInfo, b: ProcessInfo| ranks_before(a, b, mode)
}

/// `s` ordered by `mode`; processes that rank alike keep their order.
pub open spec fn sorted_by_mode(s: Seq<ProcessInfo>, mode: ProcessSortMode) -> Seq<ProcessInfo> {
    insertion_order(s, rank_order(mode))
}

/// The first `MAX_PROCESSES` of `s` ordered by `mode`.
pub open spec fn top_of(s: Seq<ProcessInfo>, mode: ProcessSortMode) -> Seq<ProcessInfo> {
    let o = sorted_by_mode(s, mode);
    o.take(
        if o.len() > MAX_PROCESSES {
            MAX_PROCESSES as int
        } else {
            o.len() as int
        },
    )
}

/// `sorted_by_mode(s, mode)` is a reordering of `s` in the order of `mode`.
pub proof fn lemma_sorted_by_mode(s: Seq<ProcessInfo>, mode: ProcessSortMode)
    ensures
        sorted_by_mode(s, mode).to_multiset() == s.to_multiset(),
        sorted_for(sorted_by_mode(s, mode), mode),
{
    let f = rank_order(mode);
    assert(total_preorder(f));
    lemma_insertion_order(s, f);
    let o = sorted_by_mode(s, mode);
    assert forall|i: int, j: int| 0 <= i < j < o.len() implies ranks_before(
        #[trigger] o[i],
        #[trigger] o[j],
        mode,
    ) by {
        assert(f(o[i], o[j]));
    }
}

fn ranks_before_exec(a: &ProcessInfo, b: &ProcessInfo, mode: ProcessSortMode) -> (r: bool)
    ensures
        r == ranks_before(*a, *b, mode),
{
    match mode {
        ProcessSortMode::Cpu => a.cpu_usage > b.cpu_usage || (a.cpu_usage == b.cpu_usage
            && a.memory_usage >= b.memory_usage),
        ProcessSortMode::Memory => a.memory_usage > b.memory_usage || (a.memory_usage
            == b.memory_usage && a.cpu_usage >= b.cpu_usage),
    }
}

/// Sorts `v` by `mode`, keeping the order of processes that rank alike.
pub fn sort_processes(v: Vec<ProcessInfo>, mode: ProcessSortMode) -> (r: Vec<ProcessInfo>)
    ensures
        r@ == sorted_by_mode(v@, mode),
        r@.to_multiset() == v@.to_multiset(),
        sorted_for(r@, mode),
{
    let mut v = v;
    let ghost orig = v@;
    let mut r: Vec<ProcessInfo> = Vec::new();
    let mut done: usize = 0;
    assert(orig.len() == v.len());
    assert(orig.take(0) =~= Seq::<ProcessInfo>::empty());
    while v.len() > 0
        invariant
            r@ == sorted_by_mode(orig.take(done as int), mode),
            v@ == orig.skip(done as int),
            done <= orig.len() <= usize::MAX,
        decreases v@.len(),
    {
        assert(done < orig.len());
        let x = v.remove(0);
        assert(orig.skip(done + 1) =~= orig.skip(done as int).drop_first());
        let mut pos: usize = 0;
        while pos < r.len() && ranks_before_exec(&r[pos], &x, mode)
            invariant
                pos <= r@.len(),
                forall|k: int| 0 <= k < pos ==> rank_order(mode)(#[trigger] r@[k], x),
            decreases r@.len() - pos,
        {
            pos += 1;
        }
        proof {
            lemma_slot(r@, x, rank_order(mode), pos as int);
            assert(orig.take(done + 1).drop_last() =~= orig.take(done as int));
            assert(orig.take(done + 1).last() == x);
        }
        r.insert(pos, x);
        done += 1;
    }
    assert(orig.take(done as int) =~= orig);
    proof {
        lemma_sorted_by_mode(orig, mode);
    }
    r
}

/// The listed processes of `all`, in order.
pub fn listed_processes(all: Vec<ProcessInfo>) -> (r: Vec<ProcessInfo>)
    ensures
        r@ == listed_of(all@),
{
    let mut all = all;
    let ghost orig = all@;
    let mut r: Vec<ProcessInfo> = Vec::new();
    let mut done: usize = 0;
    assert(orig.len() == all.len());
    while all.len() > 0
        invariant
            r@ == listed_of(orig.take(done as int)),
            all@ == orig.skip(done as int),
            done <= orig.len() <= usize::MAX,
        decreases all@.len(),
    {
        assert(done < orig.len());
        let p = all.remove(0);
        assert(orig.take(done + 1).drop_last() =~= orig.take(done as int));
        assert(orig.skip(done + 1) =~= orig.skip(done as int).drop_first());
        if !p.name.as_str().is_empty() && p.memory_usage > MIN_MEMORY {
            r.push(p);
        }
        done += 1;
    }
    assert(orig.take(done as int) =~= orig);
    r
}

/// The snapshot of `all` under `mode`: the listed processes, ordered by `mode`,
/// at most `MAX_PROCESSES` of them.
pub fn snapshot_processes(all: Vec<ProcessInfo>, mode: ProcessSortMode) -> (r: Vec<ProcessInfo>)
    ensures
        r@ == top_of(listed_of(all@), mode),
{
    let listed = listed_processes(all);
    let mut sorted = sort_processes(listed, mode);
    let ghost o = sorted@;
    if sorted.len() > MAX_PROCESSES {
        sorted.truncate(MAX_PROCESSES);
    }
    assert(sorted@ =~= o.take(if o.len() > MAX_PROCESSES { MAX_PROCESSES as int } else { o.len() as int }));
    sorted
}

/// A cursor position kept inside a list of `len` entries (0 when it is empty).
pub open spec fn clamped(pos: usize, len: usize) -> usize {
    if pos >= len {
        if len == 0 {
            0
        } else {
            (len - 1) as usize
        }
    } else {
        pos
    }
}

/// Moves `pos` into a list of `len` entries.
pub fn clamp_scroll(pos: usize, len: usize) -> (r: usize)
    ensures
        r == clamped(pos, len),
{
    if pos >= len {
        len.saturating_sub(1)
    } else {
        pos
    }
}

/// The current process table with its scroll cursor and sort order.
pub struct ProcessTable {
    pub processes: Vec<ProcessInfo>,
    pub scroll: usize,
    pub mode: ProcessSortMode,
}

impl ProcessTable {
    /// An empty table ordered by CPU usage.
    pub fn new() -> (r: Self)
        ensures
            r.processes@.len() == 0,
            r.scroll == 0,
            r.mode == ProcessSortMode::Cpu,
    {
        ProcessTable { processes: Vec::new(), scroll: 0, mode: ProcessSortMode::Cpu }
    }

    /// Replaces the table with a snapshot of `all`; the previous table is
    /// dropped and the cursor is moved back inside the new one.
    pub fn refresh(&mut self, all: Vec<ProcessInfo>)
        ensures
            final(self).processes@ == top_of(listed_of(all@), old(self).mode),
            final(self).mode == old(self).mode,
            final(self).scroll == clamped(old(self).scroll, final(self).processes@.len() as usize),
    {
        self.processes = snapshot_processes(all, self.mode);
        self.scroll = clamp_scroll(self.scroll, self.processes.len());
    }

    /// Switches the order; the rows already held are re-ordered at once, so
    /// the table stays valid until the next refresh.
    pub fn set_sort_mode(&mut self, mode: ProcessSortMode)
        ensures
            final(self).mode == mode,
            final(self).processes@ == sorted_by_mode(old(self).processes@, mode),
            final(self).processes@.to_multiset() == old(self).processes@.to_multiset(),
            sorted_for(final(self).processes@, mode),
            final(self).scroll == clamped(old(self).scroll, final(self).processes@.len() as usize),
    {
        let mut rows: Vec<ProcessInfo> = Vec::new();
        std::mem::swap(&mut rows, &mut self.processes);
        self.processes = sort_processes(rows, mode);
        self.mode = mode;
        self.scroll = clamp_scroll(self.scroll, self.processes.len());
    }
}

/// A snapshot never lists a process without a name or using at most
/// `MIN_MEMORY` bytes.
pub proof fn lemma_snapshot_filters(all: Seq<ProcessInfo>, mode: ProcessSortMode)
    ensures
        forall|i: int|
            0 <= i < top_of(listed_of(all), mode).len() ==> listed(
                #[trigger] top_of(listed_of(all), mode)[i],
            ),
{
    let o = sorted_by_mode(listed_of(all), mode);
    let r = top_of(listed_of(all), mode);
    lemma_sorted_by_mode(listed_of(all), mode);
    lemma_listed_all(all);
    assert forall|i: int| 0 <= i < r.len() implies listed(#[trigger] r[i]) by {
        let p = r[i];
        assert(p == o[i]);
        assert(o.contains(p));
        vstd::seq_lib::to_multiset_contains(o, p);
        assert(o.to_multiset().count(p) > 0);
        assert(listed_of(all).to_multiset().count(p) > 0);
        vstd::seq_lib::to_multiset_contains(listed_of(all), p);
        assert(listed_of(all).contains(p));
    }
}

proof fn lemma_listed_all(s: Seq<ProcessInfo>)
    ensures
        forall|p: ProcessInfo| listed_of(s).contains(p) ==> listed(p),
    decreases s.len(),
{
    if s.len() > 0 {
        lemma_listed_all(s.drop_last());
        assert forall|p: ProcessInfo| listed_of(s).contains(p) implies listed(p) by {
            if listed(s.last()) {
                let k = choose|k: int| 0 <= k < listed_of(s).len() && listed_of(s)[k] == p;
                if k < listed_of(s).len() - 1 {
                    assert(listed_of(s.drop_last()).contains(p)) by {
                        assert(listed_of(s.drop_last())[k] == p);
                    }
                }
            }
        }
    }
}

} // verus!
