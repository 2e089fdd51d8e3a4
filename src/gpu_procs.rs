//! GPU processes gathered from three listings of the GPU query tool and
//! merged by process id.
//!
//! The sources are: (a) compute applications, `pid, name, used_memory`;
//! (b) the per-process monitor, `gpu pid type sm mem ... command`; (c)
//! graphics applications, `pid, name, used_memory`.
use crate::text::{
    chars_of, contains, field_ranges, find_word, ranges_of, split_on, split_ranges, string_of,
    trimmed_fields, uint_value, word_ranges, words, parse_uint,
};
use crate::sorting::{insertion_order, lemma_insertion_order, lemma_slot};
use vstd::prelude::*;

verus! {

/// A process using the GPU.
pub struct GpuProcess {
    pub pid: u32,
    pub name: String,
    pub memory_mb: u32,
    pub gpu_util: Option<u32>,
    pub mem_util: Option<u32>,
}

/// A `GpuProcess` with its name as characters.
pub struct GpuProcessView {
    pub pid: u32,
    pub name: Seq<char>,
    pub memory_mb: u32,
    pub gpu_util: Option<u32>,
    pub mem_util: Option<u32>,
}

impl View for GpuProcess {
    type V = GpuProcessView;

    open spec fn view(&self) -> GpuProcessView {
        GpuProcessView {
            pid: self.pid,
            name: self.name@,
            memory_mb: self.memory_mb,
            gpu_util: self.gpu_util,
            mem_util: self.mem_util,
        }
    }
}

/// The views of `s`, in order.
pub open spec fn views(s: Seq<GpuProcess>) -> Seq<GpuProcessView> {
    s.map_values(|p: GpuProcess| p@)
}

/// `f` read as a `u32`.
pub open spec fn u32_of(f: Seq<char>) -> Option<u32> {
    let v = uint_value(f);
    if v is Some && v->0 <= u32::MAX {
        Some(v->0 as u32)
    } else {
        None
    }
}

/// A line of an application listing (sources (a) and (c)).
pub open spec fn app_row(line: Seq<char>) -> Option<GpuProcessView> {
    let f = trimmed_fields(line, ',');
    if f.len() >= 3 && u32_of(f[0]) is Some && u32_of(f[2]) is Some {
        Some(
            GpuProcessView {
                pid: u32_of(f[0])->0,
                name: f[1],
                memory_mb: u32_of(f[2])->0,
                gpu_util: None,
                mem_util: None,
            },
        )
    } else {
        None
    }
}

/// `s` without its `%` signs.
pub open spec fn no_percent(s: Seq<char>) -> Seq<char>
    decreases s.len(),
{
    if s.len() == 0 {
        s
    } else if s.last() == '%' {
        no_percent(s.drop_last())
    } else {
        no_percent(s.drop_last()).push(s.last())
    }
}

/// A utilisation column of the monitor: absent when `-` or not a number.
pub open spec fn util_field(f: Seq<char>) -> Option<u32> {
    if f == "-"@ {
        None
    } else {
        u32_of(no_percent(f))
    }
}

/// A line of the monitor (source (b)): header and comment lines give nothing;
/// the name is the last column.
pub open spec fn monitor_row(line: Seq<char>) -> Option<GpuProcessView> {
    let w = words(line);
    if (line.len() > 0 && line[0] == '#') || contains(line, "gpu"@) {
        None
    } else if w.len() >= 7 && u32_of(w[1]) is Some {
        Some(
            GpuProcessView {
                pid: u32_of(w[1])->0,
                name: w.last(),
                memory_mb: 0,
                gpu_util: util_field(w[3]),
                mem_util: util_field(w[4]),
            },
        )
    } else {
        None
    }
}

/// The rows that `row` reads from `lines`, in order.
pub open spec fn rows(lines: Seq<Seq<char>>, monitor: bool) -> Seq<GpuProcessView>
    decreases lines.len(),
{
    if lines.len() == 0 {
        Seq::empty()
    } else {
        let r = rows(lines.drop_last(), monitor);
        let x = if monitor {
            monitor_row(lines.last())
        } else {
            app_row(lines.last())
        };
        match x {
            Some(p) => r.push(p),
            None => r,
        }
    }
}

/// The rows of a listing's output; none when the listing failed.
pub open spec fn listing(out: Option<Seq<char>>, monitor: bool) -> Seq<GpuProcessView> {
    match out {
        Some(o) => rows(split_on(o, '\n'), monitor),
        None => Seq::empty(),
    }
}

fn u32_in(cs: &Vec<char>, rg: (usize, usize)) -> (r: Option<u32>)
    requires
        rg.0 <= rg.1 <= cs@.len(),
    ensures
        r == u32_of(cs@.subrange(rg.0 as int, rg.1 as int)),
{
    match parse_uint(cs, rg.0, rg.1, u32::MAX as u64) {
        Some(v) => Some(v as u32),
        None => None,
    }
}

fn app_row_in(cs: &Vec<char>, lo: usize, hi: usize) -> (r: Option<GpuProcess>)
    requires
        lo <= hi <= cs@.len(),
    ensures
        match r {
            Some(p) => app_row(cs@.subrange(lo as int, hi as int)) == Some(p@),
            None => app_row(cs@.subrange(lo as int, hi as int)) is None,
        },
{
    let f = field_ranges(cs, lo, hi, ',');
    if f.len() < 3 {
        return None;
    }
    let pid = match u32_in(cs, f[0]) {
        Some(v) => v,
        None => return None,
    };
    let mem = match u32_in(cs, f[2]) {
        Some(v) => v,
        None => return None,
    };
    let (a, b) = f[1];
    Some(GpuProcess { pid, name: string_of(cs, a, b), memory_mb: mem, gpu_util: None, mem_util: None })
}

fn util_in(cs: &Vec<char>, rg: (usize, usize)) -> (r: Option<u32>)
    requires
        rg.0 <= rg.1 <= cs@.len(),
    ensures
        r == util_field(cs@.subrange(rg.0 as int, rg.1 as int)),
{
    let (a, b) = rg;
    let ghost f = cs@.subrange(a as int, b as int);
    proof {
        reveal_strlit("-");
    }
    if b - a == 1 && cs[a] == '-' {
        assert(f =~= "-"@);
        return None;
    }
    assert(f != "-"@) by {
        if f == "-"@ {
            assert(f[0] == '-');
        }
    }
    let mut kept: Vec<char> = Vec::new();
    let mut i = a;
    while i < b
        invariant
            a <= i <= b <= cs@.len(),
            f == cs@.subrange(a as int, b as int),
            kept@ == no_percent(cs@.subrange(a as int, i as int)),
        decreases b - i,
    {
        assert(cs@.subrange(a as int, i + 1).drop_last() =~= cs@.subrange(a as int, i as int));
        if cs[i] != '%' {
            kept.push(cs[i]);
        }
        i += 1;
    }
    assert(kept@.subrange(0, kept@.len() as int) =~= kept@);
    match parse_uint(&kept, 0, kept.len(), u32::MAX as u64) {
        Some(v) => Some(v as u32),
        None => None,
    }
}

fn monitor_row_in(cs: &Vec<char>, lo: usize, hi: usize) -> (r: Option<GpuProcess>)
    requires
        lo <= hi <= cs@.len(),
    ensures
        match r {
            Some(p) => monitor_row(cs@.subrange(lo as int, hi as int)) == Some(p@),
            None => monitor_row(cs@.subrange(lo as int, hi as int)) is None,
        },
{
    let ghost line = cs@.subrange(lo as int, hi as int);
    if lo < hi && cs[lo] == '#' {
        return None;
    }
    if find_word(cs, lo, hi, "gpu", false) {
        return None;
    }
    let w = word_ranges(cs, lo, hi);
    if w.len() < 7 {
        return None;
    }
    let pid = match u32_in(cs, w[1]) {
        Some(v) => v,
        None => return None,
    };
    let (a, b) = w[w.len() - 1];
    Some(
        GpuProcess {
            pid,
            name: string_of(cs, a, b),
            memory_mb: 0,
            gpu_util: util_in(cs, w[3]),
            mem_util: util_in(cs, w[4]),
        },
    )
}

/// Reads the rows of one listing's output (`None` when the listing failed).
pub fn parse_listing(out: Option<&str>, monitor: bool) -> (r: Vec<GpuProcess>)
    ensures
        views(r@) == listing(opt_chars(out), monitor),
{
    let o = match out {
        Some(o) => o,
        None => {
            assert(views(Seq::<GpuProcess>::empty()) =~= Seq::<GpuProcessView>::empty());
            return Vec::new();
        },
    };
    let cs = chars_of(o);
    let lines = split_ranges(&cs, 0, cs.len(), '\n');
    assert(cs@.subrange(0, cs@.len() as int) =~= o@);
    let ghost ls = split_on(o@, '\n');
    let mut r: Vec<GpuProcess> = Vec::new();
    let mut k: usize = 0;
    while k < lines.len()
        invariant
            k <= lines@.len(),
            ranges_of(cs@, lines@, ls),
            ls == split_on(o@, '\n'),
            views(r@) == rows(ls.take(k as int), monitor),
        decreases lines@.len() - k,
    {
        let (a, b) = lines[k];
        assert(ls.take(k + 1).drop_last() =~= ls.take(k as int));
        let row = if monitor {
            monitor_row_in(&cs, a, b)
        } else {
            app_row_in(&cs, a, b)
        };
        if let Some(p) = row {
            let ghost prev = r@;
            r.push(p);
            assert(views(r@) =~= views(prev).push(p@));
        }
        k += 1;
    }
    assert(ls.take(k as int) =~= ls);
    r
}

/// Index of the first record of `s` with process id `pid`, or -1.
pub open spec fn find_pid(s: Seq<GpuProcessView>, pid: u32) -> int
    decreases s.len(),
{
    if s.len() == 0 {
        -1
    } else {
        let k = find_pid(s.drop_last(), pid);
        if k >= 0 {
            k
        } else if s.last().pid == pid {
            s.len() - 1
        } else {
            -1
        }
    }
}

/// `a` if present, else `b`.
pub open spec fn or_else(a: Option<u32>, b: Option<u32>) -> Option<u32> {
    if a is Some {
        a
    } else {
        b
    }
}

/// Folds a monitor row into `acc`: a known process takes the row's
/// utilisation figures that are present; an unknown one is added.
pub open spec fn with_usage(acc: Seq<GpuProcessView>, m: GpuProcessView) -> Seq<GpuProcessView> {
    let k = find_pid(acc, m.pid);
    if k >= 0 {
        acc.update(
            k,
            GpuProcessView {
                gpu_util: or_else(m.gpu_util, acc[k].gpu_util),
                mem_util: or_else(m.mem_util, acc[k].mem_util),
                ..acc[k]
            },
        )
    } else {
        acc.push(m)
    }
}

/// Folds a graphics-application row into `acc`: a known process takes the
/// row's memory if it is larger; an unknown one is added.
pub open spec fn with_graphics(acc: Seq<GpuProcessView>, g: GpuProcessView) -> Seq<GpuProcessView> {
    let k = find_pid(acc, g.pid);
    if k >= 0 {
        if g.memory_mb > acc[k].memory_mb {
            acc.update(k, GpuProcessView { memory_mb: g.memory_mb, ..acc[k] })
        } else {
            acc
        }
    } else {
        acc.push(g)
    }
}

/// `acc` with each of `rows` folded in, in order.
pub open spec fn fold_rows(acc: Seq<GpuProcessView>, rows: Seq<GpuProcessView>, monitor: bool) -> Seq<
    GpuProcessView,
>
    decreases rows.len(),
{
    if rows.len() == 0 {
        acc
    } else {
        let a = fold_rows(acc, rows.drop_last(), monitor);
        if monitor {
            with_usage(a, rows.last())
        } else {
            with_graphics(a, rows.last())
        }
    }
}

/// The merge of the three sources, keyed by process id: (a) folded into an
/// empty list (a repeated process keeps its first record with the larger
/// memory), then (b), then (c).
pub open spec fn merged(
    a: Seq<GpuProcessView>,
    b: Seq<GpuProcessView>,
    c: Seq<GpuProcessView>,
) -> Seq<GpuProcessView> {
    fold_rows(fold_rows(fold_rows(Seq::empty(), a, false), b, true), c, false)
}

/// No two records share a process id.
pub open spec fn distinct_pids(s: Seq<GpuProcessView>) -> bool {
    forall|i: int, j: int| 0 <= i < j < s.len() ==> (#[trigger] s[i]).pid != (#[trigger] s[j]).pid
}

/// Records may stand in this order: larger memory first.
pub open spec fn memory_order() -> spec_fn(GpuProcess, GpuProcess) -> bool {
    |a: GpuProcess, b: GpuProcess| a.memory_mb >= b.memory_mb
}

proof fn lemma_find_pid(s: Seq<GpuProcessView>, pid: u32)
    ensures
        find_pid(s, pid) == -1 ==> forall|i: int| 0 <= i < s.len() ==> (#[trigger] s[i]).pid != pid,
        find_pid(s, pid) >= 0 ==> find_pid(s, pid) < s.len() && s[find_pid(s, pid)].pid == pid,
    decreases s.len(),
{
    if s.len() > 0 {
        let t = s.drop_last();
        lemma_find_pid(t, pid);
        let k = find_pid(t, pid);
        if k >= 0 {
            assert(s[k] == t[k]);
        } else if s.last().pid != pid {
            assert forall|i: int| 0 <= i < s.len() implies (#[trigger] s[i]).pid != pid by {
                if i < s.len() - 1 {
                    assert(s[i] == t[i]);
                }
            }
        }
    }
}

proof fn lemma_fold_distinct(acc: Seq<GpuProcessView>, rows: Seq<GpuProcessView>, monitor: bool)
    requires
        distinct_pids(acc),
    ensures
        distinct_pids(fold_rows(acc, rows, monitor)),
    decreases rows.len(),
{
    if rows.len() > 0 {
        lemma_fold_distinct(acc, rows.drop_last(), monitor);
        let a = fold_rows(acc, rows.drop_last(), monitor);
        let x = rows.last();
        lemma_find_pid(a, x.pid);
        let next = fold_rows(acc, rows, monitor);
        if find_pid(a, x.pid) == -1 {
            assert forall|i: int, j: int| 0 <= i < j < next.len() implies (#[trigger] next[i]).pid
                != (#[trigger] next[j]).pid by {
                if j == a.len() {
                    assert(next[i] == a[i]);
                } else {
                    assert(next[i] == a[i] && next[j] == a[j]);
                }
            }
        } else {
            let k = find_pid(a, x.pid);
            assert forall|i: int, j: int| 0 <= i < j < next.len() implies (#[trigger] next[i]).pid
                != (#[trigger] next[j]).pid by {
                assert(next[i].pid == a[i].pid && next[j].pid == a[j].pid);
            }
        }
    }
}

proof fn lemma_reorder_distinct(m: Seq<GpuProcess>, r: Seq<GpuProcess>)
    requires
        r.to_multiset() == m.to_multiset(),
        distinct_pids(views(m)),
    ensures
        distinct_pids(views(r)),
{
    broadcast use vstd::seq_lib::group_to_multiset_ensures;

    assert(m.no_duplicates()) by {
        assert forall|i: int, j: int| 0 <= i < m.len() && 0 <= j < m.len() && i != j implies m[i]
            != m[j] by {
            if i < j {
                assert(views(m)[i].pid != views(m)[j].pid);
            } else {
                assert(views(m)[j].pid != views(m)[i].pid);
            }
        }
    }
    m.lemma_multiset_has_no_duplicates();
    r.lemma_multiset_has_no_duplicates_conv();
    assert forall|i: int, j: int| 0 <= i < j < views(r).len() implies (#[trigger] views(r)[i]).pid
        != (#[trigger] views(r)[j]).pid by {
        let x = r[i];
        let y = r[j];
        assert(x != y);
        assert(r.contains(x) && r.contains(y));
        vstd::seq_lib::to_multiset_contains(r, x);
        vstd::seq_lib::to_multiset_contains(r, y);
        vstd::seq_lib::to_multiset_contains(m, x);
        vstd::seq_lib::to_multiset_contains(m, y);
        let a = choose|a: int| 0 <= a < m.len() && m[a] == x;
        let b = choose|b: int| 0 <= b < m.len() && m[b] == y;
        if a < b {
            assert(views(m)[a].pid != views(m)[b].pid);
        } else {
            assert(views(m)[b].pid != views(m)[a].pid);
        }
    }
}

/// Records in descending order of memory.
pub open spec fn by_memory(s: Seq<GpuProcess>) -> bool {
    forall|i: int, j: int|
        0 <= i < j < s.len() ==> (#[trigger] s[i]).memory_mb >= (#[trigger] s[j]).memory_mb
}

fn position_of(acc: &Vec<GpuProcess>, pid: u32) -> (r: Option<usize>)
    ensures
        match r {
            Some(k) => find_pid(views(acc@), pid) == k as int && k < acc@.len(),
            None => find_pid(views(acc@), pid) == -1,
        },
{
    let mut i: usize = 0;
    while i < acc.len()
        invariant
            i <= acc@.len(),
            find_pid(views(acc@.take(i as int)), pid) == -1,
        decreases acc@.len() - i,
    {
        assert(views(acc@.take(i + 1)).drop_last() =~= views(acc@.take(i as int)));
        if acc[i].pid == pid {
            proof {
                lemma_find_pid_prefix(views(acc@), pid, i + 1);
                assert(views(acc@).take(i + 1) =~= views(acc@.take(i + 1)));
            }
            return Some(i);
        }
        i += 1;
    }
    assert(acc@.take(i as int) =~= acc@);
    None
}

proof fn lemma_find_pid_prefix(s: Seq<GpuProcessView>, pid: u32, n: int)
    requires
        0 <= n <= s.len(),
        find_pid(s.take(n), pid) >= 0,
    ensures
        find_pid(s, pid) == find_pid(s.take(n), pid),
    decreases s.len() - n,
{
    if n < s.len() {
        assert(s.take(n + 1).drop_last() =~= s.take(n));
        lemma_find_pid_prefix(s, pid, n + 1);
    } else {
        assert(s.take(n) =~= s);
    }
}

fn fold_in(acc: &mut Vec<GpuProcess>, row: GpuProcess, monitor: bool)
    ensures
        views(final(acc)@) == if monitor {
            with_usage(views(old(acc)@), row@)
        } else {
            with_graphics(views(old(acc)@), row@)
        },
{
    match position_of(acc, row.pid) {
        Some(k) => {
            let cur = &acc[k];
            let next = if monitor {
                GpuProcess {
                    pid: cur.pid,
                    name: cur.name.clone(),
                    memory_mb: cur.memory_mb,
                    gpu_util: if row.gpu_util.is_some() { row.gpu_util } else { cur.gpu_util },
                    mem_util: if row.mem_util.is_some() { row.mem_util } else { cur.mem_util },
                }
            } else if row.memory_mb > cur.memory_mb {
                GpuProcess {
                    pid: cur.pid,
                    name: cur.name.clone(),
                    memory_mb: row.memory_mb,
                    gpu_util: cur.gpu_util,
                    mem_util: cur.mem_util,
                }
            } else {
                assert(views(acc@) == with_graphics(views(old(acc)@), row@));
                return;
            };
            let ghost prev = acc@;
            acc.set(k, next);
            assert(views(acc@) =~= views(prev).update(k as int, next@));
        },
        None => {
            let ghost prev = acc@;
            acc.push(row);
            assert(views(acc@) =~= views(prev).push(row@));
        },
    }
}

fn sort_by_memory(v: Vec<GpuProcess>) -> (r: Vec<GpuProcess>)
    ensures
        r@ == insertion_order(v@, memory_order()),
        r@.to_multiset() == v@.to_multiset(),
        by_memory(r@),
{
    let mut v = v;
    let ghost orig = v@;
    let mut r: Vec<GpuProcess> = Vec::new();
    let mut done: usize = 0;
    assert(orig.len() == v.len());
    assert(orig.take(0) =~= Seq::<GpuProcess>::empty());
    while v.len() > 0
        invariant
            r@ == insertion_order(orig.take(done as int), memory_order()),
            v@ == orig.skip(done as int),
            done <= orig.len() <= usize::MAX,
        decreases v@.len(),
    {
        assert(done < orig.len());
        let x = v.remove(0);
        assert(orig.skip(done + 1) =~= orig.skip(done as int).drop_first());
        let mut pos: usize = 0;
        while pos < r.len() && r[pos].memory_mb >= x.memory_mb
            invariant
                pos <= r@.len(),
                forall|k: int| 0 <= k < pos ==> memory_order()(#[trigger] r@[k], x),
            decreases r@.len() - pos,
        {
            pos += 1;
        }
        proof {
            lemma_slot(r@, x, memory_order(), pos as int);
            assert(orig.take(done + 1).drop_last() =~= orig.take(done as int));
            assert(orig.take(done + 1).last() == x);
        }
        r.insert(pos, x);
        done += 1;
    }
    assert(orig.take(done as int) =~= orig);
    proof {
        lemma_insertion_order(orig, memory_order());
        assert forall|i: int, j: int| 0 <= i < j < r@.len() implies (#[trigger] r@[i]).memory_mb
            >= (#[trigger] r@[j]).memory_mb by {
            assert(memory_order()(r@[i], r@[j]));
        }
    }
    r
}

/// Folds each of `rows` into `acc`, in order.
fn fold_all(acc: &mut Vec<GpuProcess>, rows: Vec<GpuProcess>, monitor: bool)
    ensures
        views(final(acc)@) == fold_rows(views(old(acc)@), views(rows@), monitor),
{
    let ghost start = views(acc@);
    let ghost all = rows@;
    let ghost b = views(all);
    let mut rows = rows;
    let mut done: usize = 0;
    assert(all.len() == rows.len());
    assert(b.take(0) =~= Seq::<GpuProcessView>::empty());
    while rows.len() > 0
        invariant
            views(acc@) == fold_rows(start, b.take(done as int), monitor),
            rows@ == all.skip(done as int),
            b == views(all),
            done <= all.len() <= usize::MAX,
        decreases rows@.len(),
    {
        assert(done < all.len());
        let row = rows.remove(0);
        assert(b.take(done + 1).drop_last() =~= b.take(done as int));
        assert(all.skip(done + 1) =~= all.skip(done as int).drop_first());
        fold_in(acc, row, monitor);
        done += 1;
    }
    assert(b.take(done as int) =~= b);
}

/// The GPU processes of the three listings' outputs (`None` for a listing
/// that failed), merged by process id and sorted by memory, largest first;
/// records with equal memory keep their merged order.
pub fn gpu_processes(compute: Option<&str>, monitor: Option<&str>, graphics: Option<&str>) -> (r: Vec<
    GpuProcess,
>)
    ensures
        exists|m: Seq<GpuProcess>|
            views(m) == merged(
                listing(opt_chars(compute), false),
                listing(opt_chars(monitor), true),
                listing(opt_chars(graphics), false),
            ) && r@ == insertion_order(m, memory_order()),
        distinct_pids(views(r@)),
        by_memory(r@),
{
    let mut acc: Vec<GpuProcess> = Vec::new();
    assert(views(acc@) =~= Seq::<GpuProcessView>::empty());
    fold_all(&mut acc, parse_listing(compute, false), false);
    fold_all(&mut acc, parse_listing(monitor, true), true);
    fold_all(&mut acc, parse_listing(graphics, false), false);
    let ghost m = acc@;
    proof {
        let e = Seq::<GpuProcessView>::empty();
        let a = listing(opt_chars(compute), false);
        let b = listing(opt_chars(monitor), true);
        lemma_fold_distinct(e, a, false);
        lemma_fold_distinct(fold_rows(e, a, false), b, true);
        lemma_fold_distinct(fold_rows(fold_rows(e, a, false), b, true), listing(opt_chars(graphics), false), false);
    }
    let r = sort_by_memory(acc);
    proof {
        lemma_reorder_distinct(m, r@);
    }
    r
}

/// The characters of an optional text.
pub open spec fn opt_chars(o: Option<&str>) -> Option<Seq<char>> {
    match o {
        Some(s) => Some(s@),
        None => None,
    }
}

/// Merging one compute-application record, one monitor record and one
/// graphics-application record of the same process gives a single record with
/// the compute application's name, the monitor's utilisation figures and the
/// larger of the two memory figures.
pub proof fn lemma_merge_same_pid(pa: GpuProcessView, pb: GpuProcessView, pc: GpuProcessView)
    requires
        pa.pid == pb.pid,
        pb.pid == pc.pid,
        pa.gpu_util is None,
        pa.mem_util is None,
    ensures
        merged(seq![pa], seq![pb], seq![pc]) == seq![
            GpuProcessView {
                pid: pa.pid,
                name: pa.name,
                memory_mb: if pc.memory_mb > pa.memory_mb {
                    pc.memory_mb
                } else {
                    pa.memory_mb
                },
                gpu_util: pb.gpu_util,
                mem_util: pb.mem_util,
            },
        ],
{
    let a = seq![pa];
    let e = Seq::<GpuProcessView>::empty();
    assert(find_pid(e, pa.pid) == -1);
    assert(fold_rows(e, e, false) == e);
    assert(a.drop_last() =~= e);
    assert(fold_rows(e, a, false) == with_graphics(e, pa));
    assert(with_graphics(e, pa) =~= a);
    assert(fold_rows(a, e, true) == a);
    assert(a.drop_last() =~= e);
    assert(find_pid(a, pb.pid) == 0);
    assert(seq![pb].drop_last() =~= Seq::<GpuProcessView>::empty());
    let ab = fold_rows(a, seq![pb], true);
    assert(ab == with_usage(fold_rows(a, e, true), pb));
    assert(ab == with_usage(a, pb));
    assert(ab.drop_last() =~= e);
    assert(fold_rows(ab, e, false) == ab);
    assert(find_pid(ab, pc.pid) == 0);
    assert(seq![pc].drop_last() =~= Seq::<GpuProcessView>::empty());
    assert(fold_rows(ab, seq![pc], false) == with_graphics(ab, pc));
    assert(merged(seq![pa], seq![pb], seq![pc]) =~= seq![
        GpuProcessView {
            pid: pa.pid,
            name: pa.name,
            memory_mb: if pc.memory_mb > pa.memory_mb {
                pc.memory_mb
            } else {
                pa.memory_mb
            },
            gpu_util: pb.gpu_util,
            mem_util: pb.mem_util,
        },
    ]);
}

} // verus!
