//! Network byte counters turned into rates and session totals.
use crate::text::chars_of;
use vstd::prelude::*;

verus! {

/// Counters of one network interface, as the host reports them.
pub struct InterfaceSample {
    pub name: String,
    pub received: u64,
    pub transmitted: u64,
}

/// `s` starts with `p`.
pub open spec fn starts_with(s: Seq<char>, p: Seq<char>) -> bool {
    p.len() <= s.len() && s.take(p.len() as int) == p
}

/// An interface that faces the host's network: not loopback, and not a
/// virtual bridge, container or veth interface.
pub open spec fn counted_interface(name: Seq<char>) -> bool {
    name != "lo"@ && !starts_with(name, "virbr"@) && !starts_with(name, "docker"@) && !starts_with(
        name,
        "veth"@,
    )
}

fn prefix_of(cs: &Vec<char>, p: &str) -> (r: bool)
    ensures
        r == starts_with(cs@, p@),
{
    let pc = chars_of(p);
    if pc.len() > cs.len() {
        return false;
    }
    let mut i: usize = 0;
    while i < pc.len()
        invariant
            i <= pc@.len() <= cs@.len(),
            pc@ == p@,
            forall|k: int| 0 <= k < i ==> cs@[k] == pc@[k],
        decreases pc@.len() - i,
    {
        if cs[i] != pc[i] {
            assert(cs@.take(pc@.len() as int)[i as int] != p@[i as int]);
            return false;
        }
        i += 1;
    }
    assert(cs@.take(pc@.len() as int) =~= p@);
    true
}

/// Whether the interface named `name` counts toward the host's traffic.
pub fn is_counted_interface(name: &String) -> (r: bool)
    ensures
        r == counted_interface(name@),
{
    let cs = chars_of(name.as_str());
    let lo = prefix_of(&cs, "lo") && cs.len() == 2;
    proof {
        reveal_strlit("lo");
        if cs@.len() == 2 && starts_with(cs@, "lo"@) {
            assert(cs@ =~= cs@.take(2));
        }
        if cs@ == "lo"@ {
            assert(cs@.take("lo"@.len() as int) =~= cs@);
        }
    }
    !lo && !prefix_of(&cs, "virbr") && !prefix_of(&cs, "docker") && !prefix_of(&cs, "veth")
}

/// Total of the received (`rx`) or transmitted (`!rx`) counters of the
/// counted interfaces.
pub open spec fn traffic(ifs: Seq<InterfaceSample>, rx: bool) -> nat
    decreases ifs.len(),
{
    if ifs.len() == 0 {
        0
    } else {
        let x = ifs.last();
        let rest = traffic(ifs.drop_last(), rx);
        if counted_interface(x.name@) {
            rest + if rx {
                x.received as nat
            } else {
                x.transmitted as nat
            }
        } else {
            rest
        }
    }
}

/// `v`, or `u64::MAX` if it does not fit.
pub open spec fn capped(v: int) -> u64 {
    if v > u64::MAX {
        u64::MAX
    } else {
        v as u64
    }
}

/// The received and transmitted totals of the counted interfaces (each capped
/// at `u64::MAX`).
pub fn traffic_totals(ifs: &Vec<InterfaceSample>) -> (r: (u64, u64))
    ensures
        r.0 == capped(traffic(ifs@, true) as int),
        r.1 == capped(traffic(ifs@, false) as int),
{
    let mut rx: u64 = 0;
    let mut tx: u64 = 0;
    let mut i: usize = 0;
    while i < ifs.len()
        invariant
            i <= ifs@.len(),
            rx == capped(traffic(ifs@.take(i as int), true) as int),
            tx == capped(traffic(ifs@.take(i as int), false) as int),
        decreases ifs@.len() - i,
    {
        let x = &ifs[i];
        assert(ifs@.take(i + 1).drop_last() =~= ifs@.take(i as int));
        if is_counted_interface(&x.name) {
            rx = rx.saturating_add(x.received);
            tx = tx.saturating_add(x.transmitted);
        }
        i += 1;
    }
    assert(ifs@.take(i as int) =~= ifs@);
    (rx, tx)
}

/// Rate, in thousandths of a kilobit per second, of a counter that went from
/// `prev` to `cur` bytes in `elapsed_us` microseconds, rounded down, except
/// that any traffic at all counts as at least 1. It is 0 on the first
/// observation (`prev == 0`) and when no time has passed; a counter that went
/// down counts as no traffic.
pub open spec fn rate_of(prev: u64, cur: u64, elapsed_us: u64) -> u64 {
    if prev == 0 || elapsed_us == 0 || cur <= prev {
        0
    } else {
        let v = (cur - prev) * 8_000_000 / elapsed_us as int;
        if v == 0 {
            1
        } else {
            capped(v)
        }
    }
}

/// The rate of a counter between two samples (see `rate_of`).
pub fn rate_milli_kbps(prev: u64, cur: u64, elapsed_us: u64) -> (r: u64)
    ensures
        r == rate_of(prev, cur, elapsed_us),
{
    if prev == 0 || elapsed_us == 0 || cur <= prev {
        return 0;
    }
    let diff = (cur - prev) as u128;
    let v = diff * 8_000_000 / elapsed_us as u128;
    if v == 0 {
        1
    } else if v > u64::MAX as u128 {
        u64::MAX
    } else {
        v as u64
    }
}

/// Rates are never negative; a rate is 0 exactly on the first observation,
/// when no time has passed, or when the counter did not grow; otherwise it
/// follows the bytes added per unit of time (at least 1).
pub proof fn lemma_rate_law(prev: u64, cur: u64, elapsed_us: u64)
    ensures
        rate_of(prev, cur, elapsed_us) >= 0,
        (rate_of(prev, cur, elapsed_us) == 0) <==> (prev == 0 || elapsed_us == 0 || cur <= prev),
        (prev > 0 && elapsed_us > 0 && cur > prev) ==> rate_of(prev, cur, elapsed_us) == if (cur
            - prev) * 8_000_000 / elapsed_us as int == 0 {
            1
        } else {
            capped((cur - prev) * 8_000_000 / elapsed_us as int)
        },
{
}

/// Counter state kept between ticks: the last totals seen and those seen at
/// start, which session totals are measured from.
pub struct NetworkCounters {
    pub prev_rx: u64,
    pub prev_tx: u64,
    pub initial_rx: u64,
    pub initial_tx: u64,
}

/// `a - b`, or 0 when `b > a`.
pub open spec fn sat_sub(a: u64, b: u64) -> u64 {
    if a >= b {
        (a - b) as u64
    } else {
        0
    }
}

impl NetworkCounters {
    /// State whose baseline is the interfaces' counters now.
    pub fn new(ifs: &Vec<InterfaceSample>) -> (r: Self)
        ensures
            r.initial_rx == capped(traffic(ifs@, true) as int),
            r.initial_tx == capped(traffic(ifs@, false) as int),
            r.prev_rx == r.initial_rx,
            r.prev_tx == r.initial_tx,
    {
        let (rx, tx) = traffic_totals(ifs);
        NetworkCounters { prev_rx: rx, prev_tx: tx, initial_rx: rx, initial_tx: tx }
    }

    /// Takes in the interfaces' counters `elapsed_us` microseconds after the
    /// previous observation; returns the download and upload rates.
    pub fn observe(&mut self, ifs: &Vec<InterfaceSample>, elapsed_us: u64) -> (r: (u64, u64))
        ensures
            final(self).prev_rx == capped(traffic(ifs@, true) as int),
            final(self).prev_tx == capped(traffic(ifs@, false) as int),
            final(self).initial_rx == old(self).initial_rx,
            final(self).initial_tx == old(self).initial_tx,
            r.0 == rate_of(old(self).prev_rx, final(self).prev_rx, elapsed_us),
            r.1 == rate_of(old(self).prev_tx, final(self).prev_tx, elapsed_us),
    {
        let (rx, tx) = traffic_totals(ifs);
        let down = rate_milli_kbps(self.prev_rx, rx, elapsed_us);
        let up = rate_milli_kbps(self.prev_tx, tx, elapsed_us);
        self.prev_rx = rx;
        self.prev_tx = tx;
        (down, up)
    }

    /// Bytes received and sent since the baseline.
    pub fn session_totals(&self) -> (r: (u64, u64))
        ensures
            r == (sat_sub(self.prev_rx, self.initial_rx), sat_sub(self.prev_tx, self.initial_tx)),
    {
        (self.prev_rx.saturating_sub(self.initial_rx), self.prev_tx.saturating_sub(self.initial_tx))
    }
}

} // verus!
