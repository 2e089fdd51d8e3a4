//! GPU telemetry read from the GPU query tool's comma-separated output.
//!
//! Numbers are kept in thousandths of their unit (percent, degrees, watts,
//! MiB). A field that is missing or does not read as a number is absent.
use crate::network::capped;
use crate::text::{
    chars_of, field_ranges, find_char, index_of, milli_value, parse_milli, ranges_of, string_of,
    trimmed_fields, PARSE_CAP,
};
use vstd::prelude::*;

verus! {

/// One reading of the GPU; each field may be absent on its own.
pub struct GpuSnapshot {
    pub usage: Option<u64>,
    pub temperature: Option<u64>,
    pub fan_speed: Option<u64>,
    pub power_draw: Option<u64>,
    pub memory_used: Option<u64>,
    pub memory_total: Option<u64>,
    pub name: Option<String>,
}

/// The text that the tool writes for a field it cannot report.
pub const NOT_SUPPORTED: &'static str = "[Not Supported]";

/// The first line of `s`.
pub open spec fn first_line(s: Seq<char>) -> Seq<char> {
    s.take(index_of(s, '\n') as int)
}

/// The trimmed comma-separated fields of the first line of `s`.
pub open spec fn line_fields(s: Seq<char>) -> Seq<Seq<char>> {
    trimmed_fields(first_line(s), ',')
}

/// Field `f` read as a number in thousandths.
pub open spec fn number(f: Seq<char>) -> Option<u64> {
    let v = milli_value(f);
    if v is Some && v->0 <= PARSE_CAP {
        Some(v->0 as u64)
    } else {
        None
    }
}

/// The GPU name in field `f`: absent when empty or not supported.
pub open spec fn name_field(f: Seq<char>) -> Option<Seq<char>> {
    if f.len() == 0 || f == NOT_SUPPORTED@ {
        None
    } else {
        Some(f)
    }
}

pub open spec fn text_view(o: Option<String>) -> Option<Seq<char>> {
    match o {
        Some(s) => Some(s@),
        None => None,
    }
}

/// The output of the full query has a first line with all seven fields.
pub open spec fn full_ok(out: Seq<char>) -> bool {
    out.len() > 0 && line_fields(out).len() >= 7
}

/// `g` is what the full query's output `out` reports: name, usage,
/// temperature, fan speed, power draw, memory used and memory total.
pub open spec fn full_snapshot(out: Seq<char>, g: GpuSnapshot) -> bool {
    let f = line_fields(out);
    &&& text_view(g.name) == name_field(f[0])
    &&& g.usage == number(f[1])
    &&& g.temperature == number(f[2])
    &&& g.fan_speed == number(f[3])
    &&& g.power_draw == number(f[4])
    &&& g.memory_used == number(f[5])
    &&& g.memory_total == number(f[6])
}

/// The output of the basic query has a first line with both fields.
pub open spec fn basic_ok(out: Seq<char>) -> bool {
    out.len() > 0 && line_fields(out).len() >= 2
}

/// `g` is what the basic query's output `out` reports: usage and temperature
/// only.
pub open spec fn basic_snapshot(out: Seq<char>, g: GpuSnapshot) -> bool {
    let f = line_fields(out);
    &&& g.usage == number(f[0])
    &&& g.temperature == number(f[1])
    &&& g.fan_speed is None
    &&& g.power_draw is None
    &&& g.memory_used is None
    &&& g.memory_total is None
    &&& g.name is None
}

/// A snapshot with every field absent.
pub open spec fn no_gpu(g: GpuSnapshot) -> bool {
    &&& g.usage is None
    &&& g.temperature is None
    &&& g.fan_speed is None
    &&& g.power_draw is None
    &&& g.memory_used is None
    &&& g.memory_total is None
    &&& g.name is None
}

/// Field ranges of the first line of `cs`, trimmed.
fn first_line_fields(cs: &Vec<char>) -> (r: Vec<(usize, usize)>)
    ensures
        ranges_of(cs@, r@, line_fields(cs@)),
{
    let nl = find_char(cs, 0, cs.len(), '\n');
    assert(cs@.subrange(0, cs@.len() as int) =~= cs@);
    assert(cs@.subrange(0, nl as int) =~= first_line(cs@));
    field_ranges(cs, 0, nl, ',')
}

fn number_in(cs: &Vec<char>, rg: (usize, usize)) -> (r: Option<u64>)
    requires
        rg.0 <= rg.1 <= cs@.len(),
    ensures
        r == number(cs@.subrange(rg.0 as int, rg.1 as int)),
{
    parse_milli(cs, rg.0, rg.1)
}

/// Reads the output of the full query; `None` when it lacks a complete line.
pub fn parse_full_query(out: &str) -> (r: Option<GpuSnapshot>)
    ensures
        r is Some == full_ok(out@),
        r matches Some(g) ==> full_snapshot(out@, g),
{
    let cs = chars_of(out);
    if cs.len() == 0 {
        return None;
    }
    let f = first_line_fields(&cs);
    if f.len() < 7 {
        return None;
    }
    let (a, b) = f[0];
    let ghost nf = cs@.subrange(a as int, b as int);
    let na = chars_of(NOT_SUPPORTED);
    let mut same = b - a == na.len();
    let mut i: usize = 0;
    while same && i < na.len()
        invariant
            a <= b <= cs@.len(),
            na@ == NOT_SUPPORTED@,
            same ==> b - a == na@.len(),
            same ==> forall|j: int| 0 <= j < i ==> cs@[a + j] == na@[j],
            !same ==> nf != NOT_SUPPORTED@,
            nf == cs@.subrange(a as int, b as int),
            i <= na@.len(),
        decreases na@.len() - i,
    {
        if cs[a + i] != na[i] {
            assert(nf[i as int] != NOT_SUPPORTED@[i as int]);
            same = false;
        }
        i += 1;
    }
    if same {
        assert(nf =~= NOT_SUPPORTED@);
    }
    let name = if a == b || same {
        None
    } else {
        Some(string_of(&cs, a, b))
    };
    Some(
        GpuSnapshot {
            usage: number_in(&cs, f[1]),
            temperature: number_in(&cs, f[2]),
            fan_speed: number_in(&cs, f[3]),
            power_draw: number_in(&cs, f[4]),
            memory_used: number_in(&cs, f[5]),
            memory_total: number_in(&cs, f[6]),
            name,
        },
    )
}

/// Reads the output of the basic query; `None` when it lacks a complete line.
pub fn parse_basic_query(out: &str) -> (r: Option<GpuSnapshot>)
    ensures
        r is Some == basic_ok(out@),
        r matches Some(g) ==> basic_snapshot(out@, g),
{
    let cs = chars_of(out);
    if cs.len() == 0 {
        return None;
    }
    let f = first_line_fields(&cs);
    if f.len() < 2 {
        return None;
    }
    Some(
        GpuSnapshot {
            usage: number_in(&cs, f[0]),
            temperature: number_in(&cs, f[1]),
            fan_speed: None,
            power_draw: None,
            memory_used: None,
            memory_total: None,
            name: None,
        },
    )
}

impl GpuSnapshot {
    /// A snapshot with no GPU data.
    pub fn absent() -> (r: Self)
        ensures
            no_gpu(r),
    {
        GpuSnapshot {
            usage: None,
            temperature: None,
            fan_speed: None,
            power_draw: None,
            memory_used: None,
            memory_total: None,
            name: None,
        }
    }
}

/// The two queries of the GPU tool: all fields, or usage and temperature only.
pub enum GpuQuery {
    Full,
    Basic,
}

/// What to do after a query: keep this snapshot, or run another query.
pub enum GpuStep {
    Done(GpuSnapshot),
    Retry(GpuQuery),
}

/// Decides the next step from the output of `query` (`None` when the tool
/// could not be run or failed). A full query that fails is retried as a basic
/// one; a basic query that fails leaves every field absent.
pub fn gpu_step(query: GpuQuery, output: Option<&str>) -> (r: GpuStep)
    ensures
        query is Full ==> match output {
            Some(o) if full_ok(o@) => r matches GpuStep::Done(g) && full_snapshot(o@, g),
            _ => r matches GpuStep::Retry(GpuQuery::Basic),
        },
        query is Basic ==> match output {
            Some(o) if basic_ok(o@) => r matches GpuStep::Done(g) && basic_snapshot(o@, g),
            _ => r matches GpuStep::Done(g) && no_gpu(g),
        },
{
    match query {
        GpuQuery::Full => {
            if let Some(o) = output {
                if let Some(g) = parse_full_query(o) {
                    return GpuStep::Done(g);
                }
            }
            GpuStep::Retry(GpuQuery::Basic)
        },
        GpuQuery::Basic => {
            if let Some(o) = output {
                if let Some(g) = parse_basic_query(o) {
                    return GpuStep::Done(g);
                }
            }
            GpuStep::Done(GpuSnapshot::absent())
        },
    }
}

/// Memory used as a share of the total, in thousandths of a percent; absent
/// when either is absent or the total is 0.
pub open spec fn vram_percent(used: Option<u64>, total: Option<u64>) -> Option<u64> {
    match (used, total) {
        (Some(u), Some(t)) => if t > 0 {
            Some(capped(u * 100_000 / t as int))
        } else {
            None
        },
        _ => None,
    }
}

/// See `vram_percent`.
pub fn memory_percent(used: Option<u64>, total: Option<u64>) -> (r: Option<u64>)
    ensures
        r == vram_percent(used, total),
{
    match (used, total) {
        (Some(u), Some(t)) => {
            if t > 0 {
                let v = u as u128 * 100_000 / t as u128;
                Some(
                    if v > u64::MAX as u128 {
                        u64::MAX
                    } else {
                        v as u64
                    },
                )
            } else {
                None
            }
        },
        _ => None,
    }
}

} // verus!
