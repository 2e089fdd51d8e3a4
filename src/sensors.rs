//! CPU temperature discovery from the text of host sensor files.
//!
//! The caller reads the files; this module decides which readings count.
//! Temperatures are in thousandths of a degree Celsius, as the files hold them.
use crate::text::{
    chars_of, contains_ci, find_word, int_value, parse_int, parse_uint, trim, trim_bounds,
    uint_value, word_ranges, words, PARSE_CAP,
};
use crate::sorting::{insertion_order, lemma_insertion_order, lemma_slot};
use vstd::prelude::*;

verus! {

/// Highest `temp<N>` slot looked at for the package temperature.
pub const PACKAGE_SLOTS: u32 = 10;

/// Highest `temp<N>` slot looked at for per-core temperatures.
pub const CORE_SLOTS: u32 = 64;

/// Number of thermal zones looked at for per-core temperatures.
pub const CORE_ZONES: u32 = 16;

/// Number of thermal zones looked at for the package temperature.
pub const PACKAGE_ZONES: u32 = 3;

/// One `temp<N>` slot of a hardware-monitor node: the text of its `input` and
/// `label` files, where they could be read.
pub struct SensorSlot {
    pub index: u32,
    pub input: Option<String>,
    pub label: Option<String>,
}

/// A hardware-monitor node: the text of its `name` file and its slots.
pub struct HwmonNode {
    pub name: Option<String>,
    pub slots: Vec<SensorSlot>,
}

/// A thermal zone: the text of its `temp` and `type` files.
pub struct ThermalZone {
    pub index: u32,
    pub temp: Option<String>,
    pub kind: Option<String>,
}

/// Everything read from the host's sensor trees in one pass.
pub struct SensorScan {
    pub hwmon: Vec<HwmonNode>,
    pub zones: Vec<ThermalZone>,
}

/// The file text `t`, trimmed and read as an `i32`.
pub open spec fn reading_of(t: Option<String>) -> Option<int> {
    match t {
        Some(s) => {
            let v = int_value(trim(s@));
            if v is Some && i32::MIN <= v->0 <= i32::MAX {
                v
            } else {
                None
            }
        },
        None => None,
    }
}

/// A temperature, in thousandths of a degree, inside the plausible range.
pub open spec fn plausible(v: int) -> bool {
    10_000 < v < 150_000
}

/// `t` is present and contains `needle`, ignoring ASCII case.
pub open spec fn text_has(t: Option<String>, needle: Seq<char>) -> bool {
    t is Some && contains_ci(t->0@, needle)
}

fn reading(t: &Option<String>) -> (r: Option<i64>)
    ensures
        r matches Some(v) ==> reading_of(*t) == Some(v as int),
        r is None ==> reading_of(*t) is None,
{
    match t {
        Some(s) => {
            let cs = chars_of(s.as_str());
            let (a, b) = trim_bounds(&cs, 0, cs.len());
            assert(cs@.subrange(0, cs@.len() as int) =~= s@);
            parse_int(&cs, a, b, i32::MIN as i64, i32::MAX as i64)
        },
        None => None,
    }
}

fn mentions(t: &Option<String>, needle: &str) -> (r: bool)
    ensures
        r == text_has(*t, needle@),
{
    match t {
        Some(s) => {
            let cs = chars_of(s.as_str());
            let r = find_word(&cs, 0, cs.len(), needle, true);
            assert(cs@.subrange(0, cs@.len() as int) =~= s@);
            r
        },
        None => false,
    }
}

fn is_plausible(v: i64) -> (r: bool)
    ensures
        r == plausible(v as int),
{
    10_000 < v && v < 150_000
}

/// A node whose name marks it as a CPU package sensor.
pub open spec fn package_node(name: Option<String>) -> bool {
    text_has(name, "coretemp"@) || text_has(name, "cpu"@) || text_has(name, "k10temp"@)
}

/// A node whose name marks it as a per-core CPU sensor.
pub open spec fn core_node(name: Option<String>) -> bool {
    text_has(name, "coretemp"@) || text_has(name, "k10temp"@)
}

/// Whether the node named by `name` has slots that are worth reading (every
/// per-core node is also a package node).
pub fn reads_sensors(name: &Option<String>) -> (r: bool)
    ensures
        r == package_node(*name),
        core_node(*name) ==> r,
{
    mentions(name, "coretemp") || mentions(name, "cpu") || mentions(name, "k10temp")
}

/// A slot whose label names the package.
pub open spec fn package_label(label: Option<String>) -> bool {
    text_has(label, "package"@) || text_has(label, "pkg"@)
}

/// The reading of slot `s` if it is a package candidate (`package`) or a
/// fallback candidate (`!package`).
pub open spec fn candidate(s: SensorSlot, package: bool) -> Option<int> {
    let v = reading_of(s.input);
    if 1 <= s.index <= PACKAGE_SLOTS && v is Some && plausible(v->0) && (if package {
        package_label(s.label)
    } else {
        s.index == 1 && !package_label(s.label)
    }) {
        v
    } else {
        None
    }
}

/// `o` with its value widened to `int`.
pub open spec fn wide(o: Option<i64>) -> Option<int> {
    match o {
        Some(x) => Some(x as int),
        None => None,
    }
}

/// The larger of two optional values.
pub open spec fn max_opt(a: Option<int>, b: Option<int>) -> Option<int> {
    match (a, b) {
        (Some(x), Some(y)) => Some(if x >= y { x } else { y }),
        (Some(x), None) => Some(x),
        (None, _) => b,
    }
}

/// Highest candidate among `slots`.
pub open spec fn best_slot(slots: Seq<SensorSlot>, package: bool) -> Option<int>
    decreases slots.len(),
{
    if slots.len() == 0 {
        None
    } else {
        max_opt(best_slot(slots.drop_last(), package), candidate(slots.last(), package))
    }
}

/// Highest candidate among the slots of the package-sensor nodes of `nodes`.
pub open spec fn best_node(nodes: Seq<HwmonNode>, package: bool) -> Option<int>
    decreases nodes.len(),
{
    if nodes.len() == 0 {
        None
    } else {
        let n = nodes.last();
        let rest = best_node(nodes.drop_last(), package);
        if package_node(n.name) {
            max_opt(rest, best_slot(n.slots@, package))
        } else {
            rest
        }
    }
}

/// The first plausible reading among the thermal zones that the package
/// fallback looks at.
pub open spec fn zone_package(zones: Seq<ThermalZone>) -> Option<int>
    decreases zones.len(),
{
    if zones.len() == 0 {
        None
    } else {
        let z = zones[0];
        let v = reading_of(z.temp);
        if z.index < PACKAGE_ZONES && v is Some && plausible(v->0) {
            v
        } else {
            zone_package(zones.drop_first())
        }
    }
}

/// CPU package temperature: the highest package-labelled reading, else the
/// highest unlabelled first-slot reading, else the first plausible thermal zone.
pub open spec fn package_temperature(scan: SensorScan) -> Option<int> {
    let p = best_node(scan.hwmon@, true);
    let f = best_node(scan.hwmon@, false);
    if p is Some {
        p
    } else if f is Some {
        f
    } else {
        zone_package(scan.zones@)
    }
}

fn candidate_of(s: &SensorSlot, package: bool) -> (r: Option<i64>)
    ensures
        r matches Some(v) ==> candidate(*s, package) == Some(v as int) && plausible(v as int),
        r is None ==> candidate(*s, package) is None,
{
    if s.index < 1 || s.index > PACKAGE_SLOTS {
        return None;
    }
    let v = match reading(&s.input) {
        Some(v) => v,
        None => return None,
    };
    if !is_plausible(v) {
        return None;
    }
    let pkg = mentions(&s.label, "package") || mentions(&s.label, "pkg");
    let wanted = if package { pkg } else { s.index == 1 && !pkg };
    if wanted {
        Some(v)
    } else {
        None
    }
}

fn max_of(a: Option<i64>, b: Option<i64>) -> (r: Option<i64>)
    ensures
        r matches Some(v) ==> max_opt(
            wide(a),
            wide(b),
        ) == Some(v as int),
        r is None ==> max_opt(wide(a), wide(b)) is None,
        r matches Some(v) ==> (a == Some(v) || b == Some(v)),
{
    match (a, b) {
        (Some(x), Some(y)) => Some(if x >= y { x } else { y }),
        (Some(x), None) => Some(x),
        (None, _) => b,
    }
}

fn best_in_nodes(nodes: &Vec<HwmonNode>, package: bool) -> (r: Option<i64>)
    ensures
        wide(r) == best_node(nodes@, package),
        r matches Some(v) ==> plausible(v as int),
{
    let mut best: Option<i64> = None;
    let mut i: usize = 0;
    while i < nodes.len()
        invariant
            i <= nodes@.len(),
            wide(best) == best_node(nodes@.take(i as int), package),
            best matches Some(v) ==> plausible(v as int),
        decreases nodes@.len() - i,
    {
        let n = &nodes[i];
        assert(nodes@.take(i + 1).drop_last() =~= nodes@.take(i as int));
        if reads_sensors(&n.name) {
            let mut j: usize = 0;
            let ghost before = best;
            let mut local: Option<i64> = None;
            while j < n.slots.len()
                invariant
                    j <= n.slots@.len(),
                    wide(local) == best_slot(n.slots@.take(j as int), package),
                    local matches Some(v) ==> plausible(v as int),
                decreases n.slots@.len() - j,
            {
                assert(n.slots@.take(j + 1).drop_last() =~= n.slots@.take(j as int));
                local = max_of(local, candidate_of(&n.slots[j], package));
                j += 1;
            }
            assert(n.slots@.take(j as int) =~= n.slots@);
            best = max_of(best, local);
        }
        i += 1;
    }
    assert(nodes@.take(i as int) =~= nodes@);
    best
}

/// The CPU package temperature found in `scan`, if any.
pub fn cpu_package_temperature(scan: &SensorScan) -> (r: Option<u64>)
    ensures
        match r {
            Some(v) => package_temperature(*scan) == Some(v as int),
            None => package_temperature(*scan) is None,
        },
{
    let p = best_in_nodes(&scan.hwmon, true);
    if let Some(v) = p {
        return Some(v as u64);
    }
    let f = best_in_nodes(&scan.hwmon, false);
    if let Some(v) = f {
        return Some(v as u64);
    }
    let mut i: usize = 0;
    assert(scan.zones@.skip(0) =~= scan.zones@);
    while i < scan.zones.len()
        invariant
            i <= scan.zones@.len(),
            zone_package(scan.zones@) == zone_package(scan.zones@.skip(i as int)),
            best_node(scan.hwmon@, true) is None,
            best_node(scan.hwmon@, false) is None,
        decreases scan.zones@.len() - i,
    {
        let z = &scan.zones[i];
        assert(scan.zones@.skip(i as int)[0] == *z);
        assert(scan.zones@.skip(i as int).drop_first() =~= scan.zones@.skip(i + 1));
        if z.index < PACKAGE_ZONES {
            if let Some(v) = reading(&z.temp) {
                if is_plausible(v) {
                    return Some(v as u64);
                }
            }
        }
        i += 1;
    }
    None
}

/// The core number in a label such as `Core 3`: its second word, read as an
/// unsigned integer.
pub open spec fn core_number(label: Seq<char>) -> Option<int> {
    let w = words(label);
    if w.len() >= 2 {
        let v = uint_value(w[1]);
        if v is Some && v->0 <= PARSE_CAP {
            v
        } else {
            None
        }
    } else {
        None
    }
}

/// The `(core number, temperature)` that slot `s` gives, if it is a per-core slot.
pub open spec fn core_entry(s: SensorSlot) -> Option<(u64, u64)> {
    let v = reading_of(s.input);
    if 1 <= s.index <= CORE_SLOTS && v is Some && plausible(v->0) && text_has(s.label, "core"@)
        && core_number(s.label->0@) is Some {
        Some((core_number(s.label->0@)->0 as u64, v->0 as u64))
    } else {
        None
    }
}

/// The per-core entries of `slots`, in slot order.
pub open spec fn core_entries(slots: Seq<SensorSlot>) -> Seq<(u64, u64)>
    decreases slots.len(),
{
    if slots.len() == 0 {
        Seq::empty()
    } else {
        let r = core_entries(slots.drop_last());
        match core_entry(slots.last()) {
            Some(e) => r.push(e),
            None => r,
        }
    }
}

/// The entries of the first per-core node of `nodes` that has any.
pub open spec fn node_core_entries(nodes: Seq<HwmonNode>) -> Seq<(u64, u64)>
    decreases nodes.len(),
{
    if nodes.len() == 0 {
        Seq::empty()
    } else {
        let e = core_entries(nodes[0].slots@);
        if core_node(nodes[0].name) && e.len() > 0 {
            e
        } else {
            node_core_entries(nodes.drop_first())
        }
    }
}

/// Entries in ascending order of core number.
pub open spec fn sorted_by_core(s: Seq<(u64, u64)>) -> bool {
    forall|i: int, j: int| 0 <= i < j < s.len() ==> (#[trigger] s[i]).0 <= (#[trigger] s[j]).0
}

/// `sorted` holds the entries of `entries`, in ascending order of core number.
pub open spec fn core_order(entries: Seq<(u64, u64)>, sorted: Seq<(u64, u64)>) -> bool {
    sorted.to_multiset() == entries.to_multiset() && sorted_by_core(sorted)
}

/// The temperatures of `s`, in order.
pub open spec fn temps_of(s: Seq<(u64, u64)>) -> Seq<u64> {
    s.map_values(|e: (u64, u64)| e.1)
}

fn core_entry_of(s: &SensorSlot) -> (r: Option<(u64, u64)>)
    ensures
        r == core_entry(*s),
{
    if s.index < 1 || s.index > CORE_SLOTS {
        return None;
    }
    let v = match reading(&s.input) {
        Some(v) => v,
        None => return None,
    };
    if !is_plausible(v) || !mentions(&s.label, "core") {
        return None;
    }
    let label = match &s.label {
        Some(l) => l,
        None => return None,
    };
    let cs = chars_of(label.as_str());
    let w = word_ranges(&cs, 0, cs.len());
    assert(cs@.subrange(0, cs@.len() as int) =~= label@);
    if w.len() < 2 {
        return None;
    }
    let (a, b) = w[1];
    match parse_uint(&cs, a, b, PARSE_CAP) {
        Some(k) => Some((k, v as u64)),
        None => None,
    }
}

/// Core entries may stand in this order: ascending core number.
pub open spec fn by_core() -> spec_fn((u64, u64), (u64, u64)) -> bool {
    |a: (u64, u64), b: (u64, u64)| a.0 <= b.0
}

/// `e` in ascending order of core number; entries with equal core numbers
/// keep their order.
pub open spec fn core_sorted(e: Seq<(u64, u64)>) -> Seq<(u64, u64)> {
    insertion_order(e, by_core())
}

/// `core_sorted(e)` holds the entries of `e`, in ascending core order.
pub proof fn lemma_core_sorted(e: Seq<(u64, u64)>)
    ensures
        core_order(e, core_sorted(e)),
        core_sorted(e).len() == e.len(),
{
    lemma_insertion_order(e, by_core());
    let s = core_sorted(e);
    assert forall|i: int, j: int| 0 <= i < j < s.len() implies (#[trigger] s[i]).0 <= (
    #[trigger] s[j]).0 by {
        assert(by_core()(s[i], s[j]));
    }
}

/// Sorts entries by core number, keeping the order of equal ones.
fn sort_by_core(v: &Vec<(u64, u64)>) -> (r: Vec<(u64, u64)>)
    ensures
        r@ == core_sorted(v@),
{
    let mut r: Vec<(u64, u64)> = Vec::new();
    let mut i: usize = 0;
    assert(v@.take(0) =~= Seq::<(u64, u64)>::empty());
    while i < v.len()
        invariant
            i <= v@.len(),
            r@ == core_sorted(v@.take(i as int)),
        decreases v@.len() - i,
    {
        let x = v[i];
        let mut pos: usize = 0;
        while pos < r.len() && r[pos].0 <= x.0
            invariant
                pos <= r@.len(),
                forall|k: int| 0 <= k < pos ==> by_core()(#[trigger] r@[k], x),
            decreases r@.len() - pos,
        {
            pos += 1;
        }
        proof {
            lemma_slot(r@, x, by_core(), pos as int);
            assert(v@.take(i + 1).drop_last() =~= v@.take(i as int));
            assert(v@.take(i + 1).last() == x);
        }
        r.insert(pos, x);
        i += 1;
    }
    assert(v@.take(i as int) =~= v@);
    r
}

fn first_core_entries(nodes: &Vec<HwmonNode>) -> (r: Vec<(u64, u64)>)
    ensures
        r@ == node_core_entries(nodes@),
{
    let mut i: usize = 0;
    assert(nodes@.skip(0) =~= nodes@);
    while i < nodes.len()
        invariant
            i <= nodes@.len(),
            node_core_entries(nodes@) == node_core_entries(nodes@.skip(i as int)),
        decreases nodes@.len() - i,
    {
        let n = &nodes[i];
        assert(nodes@.skip(i as int)[0] == *n);
        assert(nodes@.skip(i as int).drop_first() =~= nodes@.skip(i + 1));
        if mentions(&n.name, "coretemp") || mentions(&n.name, "k10temp") {
            let mut found: Vec<(u64, u64)> = Vec::new();
            let mut j: usize = 0;
            while j < n.slots.len()
                invariant
                    j <= n.slots@.len(),
                    found@ == core_entries(n.slots@.take(j as int)),
                decreases n.slots@.len() - j,
            {
                assert(n.slots@.take(j + 1).drop_last() =~= n.slots@.take(j as int));
                if let Some(e) = core_entry_of(&n.slots[j]) {
                    found.push(e);
                }
                j += 1;
            }
            assert(n.slots@.take(j as int) =~= n.slots@);
            if found.len() > 0 {
                return found;
            }
        }
        i += 1;
    }
    assert(nodes@.skip(i as int) =~= Seq::<HwmonNode>::empty());
    Vec::new()
}

/// Per-core temperatures from the first per-core hardware-monitor node that
/// has any, in ascending order of core number.
pub fn hwmon_core_temperatures(nodes: &Vec<HwmonNode>) -> (r: Vec<u64>)
    ensures
        r@ == temps_of(core_sorted(node_core_entries(nodes@))),
{
    let entries = first_core_entries(nodes);
    let sorted = sort_by_core(&entries);
    let mut r: Vec<u64> = Vec::new();
    let mut k: usize = 0;
    while k < sorted.len()
        invariant
            k <= sorted@.len(),
            r@ == temps_of(sorted@.take(k as int)),
        decreases sorted@.len() - k,
    {
        r.push(sorted[k].1);
        k += 1;
        assert(temps_of(sorted@.take(k as int)) =~= temps_of(sorted@.take(k - 1)).push(sorted@[k - 1].1));
    }
    assert(sorted@.take(k as int) =~= sorted@);
    r
}

/// Physical-core temperatures spread over `logical` cores: logical core `i`
/// takes the temperature of physical core `i % phys.len()`. This is an
/// approximation of the real topology.
pub open spec fn spread(phys: Seq<u64>, logical: nat) -> Seq<u64> {
    Seq::new(logical, |i: int| phys[i % phys.len() as int])
}

/// Spreads physical-core temperatures over `logical` cores.
pub fn map_to_logical(phys: &Vec<u64>, logical: usize) -> (r: Vec<u64>)
    requires
        phys@.len() > 0,
    ensures
        r@ == spread(phys@, logical as nat),
{
    let mut r: Vec<u64> = Vec::new();
    let n = phys.len();
    let mut i: usize = 0;
    while i < logical
        invariant
            i <= logical,
            n == phys@.len() > 0,
            r@ == spread(phys@, i as nat),
        decreases logical - i,
    {
        r.push(phys[i % n]);
        i += 1;
        assert(r@ =~= spread(phys@, i as nat));
    }
    r
}

/// The per-core reading of thermal zone `z`, if it counts as one.
pub open spec fn zone_core_reading(z: ThermalZone) -> Option<u64> {
    let v = reading_of(z.temp);
    if z.index < CORE_ZONES && v is Some && plausible(v->0) && (if z.kind is Some {
        text_has(z.kind, "cpu"@) || text_has(z.kind, "core"@) || text_has(z.kind, "x86_pkg_temp"@)
            || text_has(z.kind, "coretemp"@)
    } else {
        20_000 < v->0 < 100_000
    }) {
        Some(v->0 as u64)
    } else {
        None
    }
}

/// The per-core readings of `zones`, in order.
pub open spec fn zone_core_temps(zones: Seq<ThermalZone>) -> Seq<u64>
    decreases zones.len(),
{
    if zones.len() == 0 {
        Seq::empty()
    } else {
        let r = zone_core_temps(zones.drop_last());
        match zone_core_reading(zones.last()) {
            Some(v) => r.push(v),
            None => r,
        }
    }
}

/// Sum of the values of `s`.
pub open spec fn sum_of(s: Seq<u64>) -> nat
    decreases s.len(),
{
    if s.len() == 0 {
        0
    } else {
        (sum_of(s.drop_last()) + s.last()) as nat
    }
}

/// `t`, padded up to `logical` entries with the (rounded down) mean of `t`
/// when it has some but fewer than that.
pub open spec fn pad_with_mean(t: Seq<u64>, logical: nat) -> Seq<u64> {
    if 0 < t.len() < logical {
        t + Seq::new((logical - t.len()) as nat, |i: int| (sum_of(t) / t.len()) as u64)
    } else {
        t
    }
}

fn zone_reading_of(z: &ThermalZone) -> (r: Option<u64>)
    ensures
        r == zone_core_reading(*z),
{
    if z.index >= CORE_ZONES {
        return None;
    }
    let v = match reading(&z.temp) {
        Some(v) => v,
        None => return None,
    };
    let related = if z.kind.is_some() {
        mentions(&z.kind, "cpu") || mentions(&z.kind, "core") || mentions(&z.kind, "x86_pkg_temp")
            || mentions(&z.kind, "coretemp")
    } else {
        20_000 < v && v < 100_000
    };
    if related && is_plausible(v) {
        Some(v as u64)
    } else {
        None
    }
}

/// Per-core temperatures from the thermal zones, padded with their mean up to
/// `logical` cores.
pub fn zone_core_temperatures(zones: &Vec<ThermalZone>, logical: usize) -> (r: Vec<u64>)
    ensures
        r@ == pad_with_mean(zone_core_temps(zones@), logical as nat),
{
    let mut t: Vec<u64> = Vec::new();
    let mut sum: u128 = 0;
    let mut i: usize = 0;
    while i < zones.len()
        invariant
            i <= zones@.len(),
            t@ == zone_core_temps(zones@.take(i as int)),
            sum == sum_of(t@),
            sum <= 150_000 * t@.len(),
            t@.len() <= i,
            forall|k: int| 0 <= k < t@.len() ==> #[trigger] t@[k] < 150_000,
        decreases zones@.len() - i,
    {
        assert(zones@.take(i + 1).drop_last() =~= zones@.take(i as int));
        if let Some(v) = zone_reading_of(&zones[i]) {
            proof {
                assert(t@.push(v).drop_last() =~= t@);
                assert(sum + v <= 150_000 * (t@.len() + 1)) by (nonlinear_arith)
                    requires
                        sum <= 150_000 * t@.len(),
                        v < 150_000,
                ;
                assert(150_000 * (t@.len() + 1) <= 150_000 * 0x1_0000_0000_0000_0000) by (nonlinear_arith)
                    requires
                        t@.len() <= i,
                        i < 0x1_0000_0000_0000_0000 - 1,
                ;
            }
            t.push(v);
            sum = sum + v as u128;
        }
        i += 1;
    }
    assert(zones@.take(i as int) =~= zones@);
    if t.len() == 0 || t.len() >= logical {
        return t;
    }
    let n = t.len() as u128;
    assert(sum / n <= 150_000) by (nonlinear_arith)
        requires
            sum <= 150_000 * n,
            n > 0,
    ;
    let mean = (sum / n) as u64;
    let ghost base = t@;
    while t.len() < logical
        invariant
            base.len() <= t@.len() <= logical,
            0 < base.len(),
            t@ == base + Seq::new((t@.len() - base.len()) as nat, |j: int| mean),
        decreases logical - t@.len(),
    {
        t.push(mean);
        assert(t@ =~= base + Seq::new((t@.len() - base.len()) as nat, |j: int| mean));
    }
    assert(t@ =~= pad_with_mean(base, logical as nat));
    t
}

/// Per-core temperatures for `logical` logical cores: those of the hardware
/// monitor spread over the logical cores, or if it has none, those of the
/// thermal zones padded with their mean.
pub fn core_temperatures(scan: &SensorScan, logical: usize) -> (r: Vec<u64>)
    ensures
        node_core_entries(scan.hwmon@).len() > 0 ==> r@ == spread(
            temps_of(core_sorted(node_core_entries(scan.hwmon@))),
            logical as nat,
        ),
        node_core_entries(scan.hwmon@).len() == 0 ==> r@ == pad_with_mean(
            zone_core_temps(scan.zones@),
            logical as nat,
        ),
{
    let phys = hwmon_core_temperatures(&scan.hwmon);
    proof {
        lemma_core_sorted(node_core_entries(scan.hwmon@));
    }
    if phys.len() > 0 {
        map_to_logical(&phys, logical)
    } else {
        zone_core_temperatures(&scan.zones, logical)
    }
}

/// No two different entries of `e` have the same core number.
pub open spec fn distinct_cores(e: Seq<(u64, u64)>) -> bool {
    forall|a: (u64, u64), b: (u64, u64)|
        e.contains(a) && e.contains(b) && a.0 == b.0 ==> a == b
}

proof fn lemma_sorted_unique(s1: Seq<(u64, u64)>, s2: Seq<(u64, u64)>)
    requires
        s1.to_multiset() == s2.to_multiset(),
        sorted_by_core(s1),
        sorted_by_core(s2),
        distinct_cores(s1),
    ensures
        s1 == s2,
    decreases s1.len(),
{
    broadcast use vstd::seq_lib::group_to_multiset_ensures;

    vstd::seq_lib::to_multiset_len(s1);
    vstd::seq_lib::to_multiset_len(s2);
    if s1.len() == 0 {
        assert(s1 =~= s2);
    } else {
        let x = s1[0];
        let y = s2[0];
        assert(s1.contains(x));
        vstd::seq_lib::to_multiset_contains(s1, x);
        vstd::seq_lib::to_multiset_contains(s2, x);
        assert(s2.contains(y));
        vstd::seq_lib::to_multiset_contains(s2, y);
        vstd::seq_lib::to_multiset_contains(s1, y);
        let j = choose|j: int| 0 <= j < s2.len() && s2[j] == x;
        let i = choose|i: int| 0 <= i < s1.len() && s1[i] == y;
        if i > 0 {
            assert(s1[0].0 <= s1[i].0);
        }
        if j > 0 {
            assert(s2[0].0 <= s2[j].0);
        }
        assert(x.0 == y.0);
        assert(x == y);
        vstd::seq_lib::to_multiset_remove(s1, 0);
        vstd::seq_lib::to_multiset_remove(s2, 0);
        assert(s1.remove(0) =~= s1.drop_first());
        assert(s2.remove(0) =~= s2.drop_first());
        let t1 = s1.drop_first();
        let t2 = s2.drop_first();
        assert(sorted_by_core(t1)) by {
            assert forall|a: int, b: int| 0 <= a < b < t1.len() implies (#[trigger] t1[a]).0 <= (
            #[trigger] t1[b]).0 by {
                assert(t1[a] == s1[a + 1] && t1[b] == s1[b + 1]);
            }
        }
        assert(sorted_by_core(t2)) by {
            assert forall|a: int, b: int| 0 <= a < b < t2.len() implies (#[trigger] t2[a]).0 <= (
            #[trigger] t2[b]).0 by {
                assert(t2[a] == s2[a + 1] && t2[b] == s2[b + 1]);
            }
        }
        assert(distinct_cores(t1)) by {
            assert forall|a: (u64, u64), b: (u64, u64)|
                t1.contains(a) && t1.contains(b) && a.0 == b.0 implies a == b by {
                let ka = choose|k: int| 0 <= k < t1.len() && t1[k] == a;
                let kb = choose|k: int| 0 <= k < t1.len() && t1[k] == b;
                assert(s1[ka + 1] == a && s1[kb + 1] == b);
                assert(s1.contains(a) && s1.contains(b));
            }
        }
        lemma_sorted_unique(t1, t2);
        assert(s1 =~= seq![x] + t1);
        assert(s2 =~= seq![y] + t2);
    }
}

/// The per-core order does not depend on the order in which the sensor files
/// were read: when no two readings carry the same core number, two readings of
/// the same entries, in any order, give the same per-core temperatures.
pub proof fn lemma_core_order_any_file_order(e1: Seq<(u64, u64)>, e2: Seq<(u64, u64)>)
    requires
        e1.to_multiset() == e2.to_multiset(),
        distinct_cores(e1),
    ensures
        core_sorted(e1) == core_sorted(e2),
        temps_of(core_sorted(e1)) == temps_of(core_sorted(e2)),
{
    broadcast use vstd::seq_lib::group_to_multiset_ensures;

    lemma_core_sorted(e1);
    lemma_core_sorted(e2);
    let s1 = core_sorted(e1);
    assert(distinct_cores(s1)) by {
        assert forall|a: (u64, u64), b: (u64, u64)|
            s1.contains(a) && s1.contains(b) && a.0 == b.0 implies a == b by {
            vstd::seq_lib::to_multiset_contains(s1, a);
            vstd::seq_lib::to_multiset_contains(s1, b);
            vstd::seq_lib::to_multiset_contains(e1, a);
            vstd::seq_lib::to_multiset_contains(e1, b);
        }
    }
    lemma_sorted_unique(s1, core_sorted(e2));
}

/// A list of distinct integers, all in `[lo, hi)`, has at most `hi - lo` of them.
proof fn lemma_distinct_in_range(xs: Seq<int>, lo: int, hi: int)
    requires
        lo <= hi,
        xs.no_duplicates(),
        forall|i: int| 0 <= i < xs.len() ==> lo <= #[trigger] xs[i] < hi,
    ensures
        xs.len() <= hi - lo,
{
    xs.unique_seq_to_set();
    vstd::set_lib::lemma_int_range(lo, hi);
    assert(xs.to_set().subset_of(vstd::set_lib::set_int_range(lo, hi))) by {
        assert forall|x: int| xs.to_set().contains(x) implies vstd::set_lib::set_int_range(lo, hi).contains(x) by {
            let i = choose|i: int| 0 <= i < xs.len() && xs[i] == x;
        }
    }
    vstd::set_lib::lemma_len_subset(xs.to_set(), vstd::set_lib::set_int_range(lo, hi));
}

/// No two slots of `slots` have the same index.
pub open spec fn distinct_slots(slots: Seq<SensorSlot>) -> bool {
    forall|i: int, j: int| 0 <= i < j < slots.len() ==> (#[trigger] slots[i]).index != (#[trigger] slots[j]).index
}

/// No two zones of `zones` have the same index.
pub open spec fn distinct_zones(zones: Seq<ThermalZone>) -> bool {
    forall|i: int, j: int| 0 <= i < j < zones.len() ==> (#[trigger] zones[i]).index != (#[trigger] zones[j]).index
}

/// The indices of the slots that give per-core entries.
spec fn entry_indices(slots: Seq<SensorSlot>) -> Seq<int>
    decreases slots.len(),
{
    if slots.len() == 0 {
        Seq::empty()
    } else {
        let r = entry_indices(slots.drop_last());
        if core_entry(slots.last()) is Some {
            r.push(slots.last().index as int)
        } else {
            r
        }
    }
}

proof fn lemma_entry_indices(slots: Seq<SensorSlot>)
    requires
        distinct_slots(slots),
    ensures
        entry_indices(slots).len() == core_entries(slots).len(),
        entry_indices(slots).no_duplicates(),
        forall|k: int| 0 <= k < entry_indices(slots).len() ==> 1 <= #[trigger] entry_indices(slots)[k] <= CORE_SLOTS,
        forall|k: int| 0 <= k < entry_indices(slots).len() ==> exists|i: int|
            0 <= i < slots.len() && slots[i].index as int == #[trigger] entry_indices(slots)[k],
    decreases slots.len(),
{
    if slots.len() > 0 {
        let t = slots.drop_last();
        assert(distinct_slots(t)) by {
            assert forall|i: int, j: int| 0 <= i < j < t.len() implies (#[trigger] t[i]).index != (#[trigger] t[j]).index by {
                assert(t[i] == slots[i] && t[j] == slots[j]);
            }
        }
        lemma_entry_indices(t);
        let r = entry_indices(t);
        let x = slots.last();
        assert forall|k: int| 0 <= k < r.len() implies exists|i: int|
            0 <= i < slots.len() && slots[i].index as int == #[trigger] r[k] by {
            let i = choose|i: int| 0 <= i < t.len() && t[i].index as int == r[k];
            assert(slots[i] == t[i]);
        }
        if core_entry(x) is Some {
            assert forall|k: int| 0 <= k < r.len() implies #[trigger] r[k] != x.index as int by {
                let i = choose|i: int| 0 <= i < t.len() && t[i].index as int == r[k];
                assert(slots[i] == t[i]);
                assert(slots[i].index != slots[slots.len() - 1].index);
            }
            let n = r.push(x.index as int);
            assert forall|a: int, b: int| 0 <= a < n.len() && 0 <= b < n.len() && a != b implies n[a] != n[b] by {
                if a < r.len() && b < r.len() {
                    assert(n[a] == r[a] && n[b] == r[b]);
                } else if a < r.len() {
                    assert(n[a] == r[a]);
                } else {
                    assert(n[b] == r[b]);
                }
            }
            assert forall|k: int| 0 <= k < n.len() implies exists|i: int|
                0 <= i < slots.len() && slots[i].index as int == #[trigger] n[k] by {
                if k < r.len() {
                    assert(n[k] == r[k]);
                    let i = choose|i: int| 0 <= i < slots.len() && slots[i].index as int == r[k];
                } else {
                    assert(slots[slots.len() - 1].index as int == n[k]);
                }
            }
        }
    }
}

/// A node whose slots have distinct indices gives at most `CORE_SLOTS` entries.
pub proof fn lemma_core_entries_bound(slots: Seq<SensorSlot>)
    requires
        distinct_slots(slots),
    ensures
        core_entries(slots).len() <= CORE_SLOTS,
{
    lemma_entry_indices(slots);
    lemma_distinct_in_range(entry_indices(slots), 1, CORE_SLOTS + 1);
}

/// When the per-core node's slots have distinct indices, the hardware monitor
/// gives at most `CORE_SLOTS` per-core temperatures.
pub proof fn lemma_hwmon_bound(nodes: Seq<HwmonNode>)
    requires
        forall|i: int| 0 <= i < nodes.len() ==> distinct_slots(#[trigger] nodes[i].slots@),
    ensures
        node_core_entries(nodes).len() <= CORE_SLOTS,
        temps_of(core_sorted(node_core_entries(nodes))).len() <= CORE_SLOTS,
    decreases nodes.len(),
{
    if nodes.len() > 0 {
        lemma_core_entries_bound(nodes[0].slots@);
        assert forall|i: int| 0 <= i < nodes.drop_first().len() implies distinct_slots(
            #[trigger] nodes.drop_first()[i].slots@,
        ) by {
            assert(nodes.drop_first()[i] == nodes[i + 1]);
        }
        lemma_hwmon_bound(nodes.drop_first());
    }
    lemma_core_sorted(node_core_entries(nodes));
}

/// The indices of the zones that give per-core readings.
spec fn reading_zones(zones: Seq<ThermalZone>) -> Seq<int>
    decreases zones.len(),
{
    if zones.len() == 0 {
        Seq::empty()
    } else {
        let r = reading_zones(zones.drop_last());
        if zone_core_reading(zones.last()) is Some {
            r.push(zones.last().index as int)
        } else {
            r
        }
    }
}

proof fn lemma_reading_zones(zones: Seq<ThermalZone>)
    requires
        distinct_zones(zones),
    ensures
        reading_zones(zones).len() == zone_core_temps(zones).len(),
        reading_zones(zones).no_duplicates(),
        forall|k: int| 0 <= k < reading_zones(zones).len() ==> 0 <= #[trigger] reading_zones(zones)[k] < CORE_ZONES,
        forall|k: int| 0 <= k < reading_zones(zones).len() ==> exists|i: int|
            0 <= i < zones.len() && zones[i].index as int == #[trigger] reading_zones(zones)[k],
    decreases zones.len(),
{
    if zones.len() > 0 {
        let t = zones.drop_last();
        assert(distinct_zones(t)) by {
            assert forall|i: int, j: int| 0 <= i < j < t.len() implies (#[trigger] t[i]).index != (#[trigger] t[j]).index by {
                assert(t[i] == zones[i] && t[j] == zones[j]);
            }
        }
        lemma_reading_zones(t);
        let r = reading_zones(t);
        let x = zones.last();
        assert forall|k: int| 0 <= k < r.len() implies exists|i: int|
            0 <= i < zones.len() && zones[i].index as int == #[trigger] r[k] by {
            let i = choose|i: int| 0 <= i < t.len() && t[i].index as int == r[k];
            assert(zones[i] == t[i]);
        }
        if zone_core_reading(x) is Some {
            assert forall|k: int| 0 <= k < r.len() implies #[trigger] r[k] != x.index as int by {
                let i = choose|i: int| 0 <= i < t.len() && t[i].index as int == r[k];
                assert(zones[i] == t[i]);
                assert(zones[i].index != zones[zones.len() - 1].index);
            }
            let n = r.push(x.index as int);
            assert forall|a: int, b: int| 0 <= a < n.len() && 0 <= b < n.len() && a != b implies n[a] != n[b] by {
                if a < r.len() && b < r.len() {
                    assert(n[a] == r[a] && n[b] == r[b]);
                } else if a < r.len() {
                    assert(n[a] == r[a]);
                } else {
                    assert(n[b] == r[b]);
                }
            }
            assert forall|k: int| 0 <= k < n.len() implies exists|i: int|
                0 <= i < zones.len() && zones[i].index as int == #[trigger] n[k] by {
                if k < r.len() {
                    assert(n[k] == r[k]);
                    let i = choose|i: int| 0 <= i < zones.len() && zones[i].index as int == r[k];
                } else {
                    assert(zones[zones.len() - 1].index as int == n[k]);
                }
            }
        }
    }
}

/// Zones with distinct indices give at most `CORE_ZONES` per-core readings.
pub proof fn lemma_zone_bound(zones: Seq<ThermalZone>)
    requires
        distinct_zones(zones),
    ensures
        zone_core_temps(zones).len() <= CORE_ZONES,
{
    lemma_reading_zones(zones);
    lemma_distinct_in_range(reading_zones(zones), 0, CORE_ZONES as int);
}

} // verus!
