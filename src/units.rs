//! Human-readable byte sizes.
use crate::text::string_of;
use vstd::prelude::*;

verus! {

/// `1024^k`.
pub open spec fn pow1024(k: nat) -> nat
    decreases k,
{
    if k == 0 {
        1
    } else {
        1024 * pow1024((k - 1) as nat)
    }
}

/// The unit index for `bytes`, counting up from `k`: the largest index up to 4
/// (TB) whose unit `bytes` reaches.
pub open spec fn unit_from(bytes: nat, k: nat) -> nat
    decreases 4 - k,
{
    if k < 4 && bytes >= pow1024(k + 1) {
        unit_from(bytes, k + 1)
    } else {
        k
    }
}

/// `bytes / 1024^k` in tenths, rounded to nearest with ties to even.
pub open spec fn tenths(bytes: nat, k: nat) -> nat {
    let d = pow1024(k);
    let q = bytes * 10 / d;
    let r = bytes * 10 % d;
    if 2 * r > d || (2 * r == d && q % 2 == 1) {
        q + 1
    } else {
        q
    }
}

pub open spec fn digit_char(d: nat) -> char {
    (('0' as u32) + d) as char
}

/// The decimal digits of `n`.
pub open spec fn digits_of(n: nat) -> Seq<char>
    decreases n,
{
    if n < 10 {
        seq![digit_char(n)]
    } else {
        digits_of(n / 10).push(digit_char(n % 10))
    }
}

/// Name of unit `k`.
pub open spec fn unit_name(k: nat) -> Seq<char> {
    if k == 0 {
        seq!['B']
    } else if k == 1 {
        seq!['K', 'B']
    } else if k == 2 {
        seq!['M', 'B']
    } else if k == 3 {
        seq!['G', 'B']
    } else {
        seq!['T', 'B']
    }
}

/// `bytes` in the largest unit it reaches (up to TB), with one decimal.
pub open spec fn bytes_text(bytes: nat) -> Seq<char> {
    let k = unit_from(bytes, 0);
    let t = tenths(bytes, k);
    digits_of(t / 10) + seq!['.', digit_char(t % 10), ' '] + unit_name(k)
}

proof fn lemma_pow1024(k: nat)
    requires
        k <= 4,
    ensures
        1 <= pow1024(k) <= 0x100_0000_0000,
        k == 0 ==> pow1024(k) == 1,
        k == 1 ==> pow1024(k) == 0x400,
        k == 2 ==> pow1024(k) == 0x10_0000,
        k == 3 ==> pow1024(k) == 0x4000_0000,
        k == 4 ==> pow1024(k) == 0x100_0000_0000,
{
    reveal_with_fuel(pow1024, 5);
}

fn digits(n: u128) -> (r: Vec<char>)
    ensures
        r@ == digits_of(n as nat),
    decreases n,
{
    if n < 10 {
        let c = ((('0' as u32) + n as u32) as u8) as char;
        assert(c == digit_char(n as nat));
        vec![c]
    } else {
        let mut r = digits(n / 10);
        let d = (n % 10) as u32;
        let c = ((('0' as u32) + d) as u8) as char;
        assert(c == digit_char((n % 10) as nat));
        r.push(c);
        r
    }
}

/// `bytes` as text, such as `1.5 KB` (see `bytes_text`).
pub fn format_bytes(bytes: u64) -> (r: String)
    ensures
        r@ == bytes_text(bytes as nat),
{
    let mut k: u32 = 0;
    let mut d: u128 = 1;
    proof {
        lemma_pow1024(0);
    }
    while k < 4 && bytes as u128 >= d * 1024
        invariant
            k <= 4,
            d == pow1024(k as nat),
            d <= 0x100_0000_0000,
            unit_from(bytes as nat, k as nat) == unit_from(bytes as nat, 0),
        decreases 4 - k,
    {
        proof {
            lemma_pow1024(k as nat);
            lemma_pow1024((k + 1) as nat);
        }
        d = d * 1024;
        k += 1;
    }
    proof {
        lemma_pow1024(k as nat);
    }
    let q = bytes as u128 * 10 / d;
    let rem = bytes as u128 * 10 % d;
    let t = if 2 * rem > d || (2 * rem == d && q % 2 == 1) { q + 1 } else { q };
    assert(t == tenths(bytes as nat, k as nat));
    let mut cs = digits(t / 10);
    cs.push('.');
    cs.push(((('0' as u32) + (t % 10) as u32) as u8) as char);
    cs.push(' ');
    if k == 0 {
        cs.push('B');
    } else {
        let c = if k == 1 { 'K' } else if k == 2 { 'M' } else if k == 3 { 'G' } else { 'T' };
        cs.push(c);
        cs.push('B');
    }
    assert(cs@ =~= bytes_text(bytes as nat));
    assert(cs@.subrange(0, cs@.len() as int) =~= cs@);
    string_of(&cs, 0, cs.len())
}

} // verus!
