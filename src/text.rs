//! Character-level helpers: trimming, case-insensitive search, field
//! splitting and number parsing, all stated over `Seq<char>`.
use vstd::prelude::*;

verus! {

/// The characters of `s`, as a vector.
pub fn chars_of(s: &str) -> (r: Vec<char>)
    ensures
        r@ == s@,
{
    let mut r: Vec<char> = Vec::new();
    for c in it: s.chars()
        invariant
            it.seq() == s@,
            r@ == it.seq().take(it.index() as int),
    {
        r.push(c);
    }
    assert(r@ =~= s@);
    r
}

/// Relies on `String::push`: appends one character at the end.
#[verifier::external_body]
fn push_char(s: &mut String, c: char)
    ensures
        final(s)@ == old(s)@.push(c),
{
    s.push(c)
}

/// A string holding `cs[lo..hi]`.
pub fn string_of(cs: &Vec<char>, lo: usize, hi: usize) -> (r: String)
    requires
        lo <= hi <= cs@.len(),
    ensures
        r@ == cs@.subrange(lo as int, hi as int),
{
    let mut r = String::new();
    let mut i = lo;
    while i < hi
        invariant
            lo <= i <= hi <= cs@.len(),
            r@ == cs@.subrange(lo as int, i as int),
        decreases hi - i,
    {
        push_char(&mut r, cs[i]);
        i += 1;
        assert(r@ =~= cs@.subrange(lo as int, i as int));
    }
    r
}


/// Unicode `White_Space`, the set that `str::trim` strips.
pub open spec fn is_space(c: char) -> bool {
    c == ' ' || ('\t' <= c && c <= '\r') || c == '\u{85}' || c == '\u{a0}' || c == '\u{1680}'
        || ('\u{2000}' <= c && c <= '\u{200a}') || c == '\u{2028}' || c == '\u{2029}'
        || c == '\u{202f}' || c == '\u{205f}' || c == '\u{3000}'
}

fn is_space_exec(c: char) -> (r: bool)
    ensures
        r == is_space(c),
{
    c == ' ' || ('\t' <= c && c <= '\r') || c == '\u{85}' || c == '\u{a0}' || c == '\u{1680}'
        || ('\u{2000}' <= c && c <= '\u{200a}') || c == '\u{2028}' || c == '\u{2029}'
        || c == '\u{202f}' || c == '\u{205f}' || c == '\u{3000}'
}

/// Number of leading white-space characters of `s`.
pub open spec fn lead_spaces(s: Seq<char>) -> nat
    decreases s.len(),
{
    if s.len() > 0 && is_space(s[0]) {
        1 + lead_spaces(s.drop_first())
    } else {
        0
    }
}

/// Number of trailing white-space characters of `s`.
pub open spec fn trail_spaces(s: Seq<char>) -> nat
    decreases s.len(),
{
    if s.len() > 0 && is_space(s.last()) {
        1 + trail_spaces(s.drop_last())
    } else {
        0
    }
}

/// `s` without leading and trailing white space.
pub open spec fn trim(s: Seq<char>) -> Seq<char> {
    let a = lead_spaces(s);
    if a == s.len() {
        Seq::empty()
    } else {
        s.subrange(a as int, s.len() - trail_spaces(s))
    }
}

proof fn lemma_lead_spaces(s: Seq<char>, i: int)
    requires
        0 <= i <= s.len(),
        forall|j: int| 0 <= j < i ==> is_space(#[trigger] s[j]),
        i == s.len() || !is_space(s[i]),
    ensures
        lead_spaces(s) == i,
    decreases s.len(),
{
    if s.len() > 0 && i > 0 {
        lemma_lead_spaces(s.drop_first(), i - 1);
    }
}

proof fn lemma_trail_spaces(s: Seq<char>, k: int)
    requires
        0 <= k <= s.len(),
        forall|j: int| s.len() - k <= j < s.len() ==> is_space(#[trigger] s[j]),
        k == s.len() || !is_space(s[s.len() - k - 1]),
    ensures
        trail_spaces(s) == k,
    decreases s.len(),
{
    if s.len() > 0 && k > 0 {
        lemma_trail_spaces(s.drop_last(), k - 1);
    }
}

/// The bounds `(a, b)` of `trim(cs[lo..hi])` inside `cs`.
pub fn trim_bounds(cs: &Vec<char>, lo: usize, hi: usize) -> (r: (usize, usize))
    requires
        lo <= hi <= cs@.len(),
    ensures
        lo <= r.0 <= r.1 <= hi,
        cs@.subrange(r.0 as int, r.1 as int) == trim(cs@.subrange(lo as int, hi as int)),
{
    let ghost s = cs@.subrange(lo as int, hi as int);
    let mut a = lo;
    while a < hi && is_space_exec(cs[a])
        invariant
            lo <= a <= hi <= cs@.len(),
            s == cs@.subrange(lo as int, hi as int),
            forall|j: int| lo <= j < a ==> is_space(#[trigger] cs@[j]),
        decreases hi - a,
    {
        a += 1;
    }
    proof {
        assert forall|j: int| 0 <= j < a - lo implies is_space(#[trigger] s[j]) by {
            assert(s[j] == cs@[lo + j]);
        }
        lemma_lead_spaces(s, a - lo);
    }
    if a == hi {
        assert(cs@.subrange(a as int, a as int) =~= trim(s));
        return (a, a);
    }
    let mut b = hi;
    while b > a && is_space_exec(cs[b - 1])
        invariant
            lo <= a < hi <= cs@.len(),
            a <= b <= hi,
            !is_space(cs@[a as int]),
            forall|j: int| b <= j < hi ==> is_space(#[trigger] cs@[j]),
        decreases b,
    {
        b -= 1;
    }
    proof {
        assert forall|j: int| s.len() - (hi - b) <= j < s.len() implies is_space(#[trigger] s[j]) by {
            assert(s[j] == cs@[lo + j]);
        }
        lemma_trail_spaces(s, hi - b);
        assert(cs@.subrange(a as int, b as int) =~= s.subrange(a - lo, s.len() - (hi - b)));
    }
    (a, b)
}

/// ASCII lower case of one character.
pub open spec fn lower(c: char) -> char {
    if 'A' <= c && c <= 'Z' {
        (((c as u8) + 32) as u8) as char
    } else {
        c
    }
}

fn lower_exec(c: char) -> (r: char)
    ensures
        r == lower(c),
{
    if 'A' <= c && c <= 'Z' {
        (((c as u8) + 32) as u8) as char
    } else {
        c
    }
}

/// `c`, in ASCII lower case when `fold` holds.
pub open spec fn fold_case(c: char, fold: bool) -> char {
    if fold {
        lower(c)
    } else {
        c
    }
}

/// `needle` occurs in `hay` at position `i`; when `fold` holds, ASCII case in
/// `hay` is ignored.
pub open spec fn occurs_at(hay: Seq<char>, needle: Seq<char>, i: int, fold: bool) -> bool {
    0 <= i && i + needle.len() <= hay.len() && forall|j: int|
        0 <= j < needle.len() ==> fold_case(#[trigger] hay[i + j], fold) == needle[j]
}

/// `hay` contains `needle`.
pub open spec fn contains(hay: Seq<char>, needle: Seq<char>) -> bool {
    exists|i: int| occurs_at(hay, needle, i, false)
}

/// `hay` contains the lower-case word `needle`, ignoring ASCII case.
pub open spec fn contains_ci(hay: Seq<char>, needle: Seq<char>) -> bool {
    exists|i: int| occurs_at(hay, needle, i, true)
}

/// Whether `cs[lo..hi]` contains `needle`; when `fold` holds, ASCII case in
/// `cs` is ignored.
pub fn find_word(cs: &Vec<char>, lo: usize, hi: usize, needle: &str, fold: bool) -> (r: bool)
    requires
        lo <= hi <= cs@.len(),
    ensures
        r == exists|i: int| occurs_at(cs@.subrange(lo as int, hi as int), needle@, i, fold),
{
    let nd = chars_of(needle);
    let ghost hay = cs@.subrange(lo as int, hi as int);
    if nd.len() > hi - lo {
        assert(!exists|i: int| occurs_at(hay, needle@, i, fold));
        return false;
    }
    let last = hi - nd.len();
    let mut i = lo;
    while i <= last
        invariant
            lo <= i <= last + 1,
            last + nd@.len() == hi,
            hi <= cs@.len(),
            nd@ == needle@,
            hay == cs@.subrange(lo as int, hi as int),
            forall|k: int| 0 <= k < i - lo ==> !occurs_at(hay, needle@, k, fold),
        decreases last + 1 - i,
    {
        let mut j: usize = 0;
        let mut ok = true;
        while j < nd.len()
            invariant
                lo <= i <= last,
                last + nd@.len() == hi,
                hi <= cs@.len(),
                j <= nd@.len(),
                ok == (forall|m: int| 0 <= m < j ==> fold_case(#[trigger] cs@[i + m], fold) == nd@[m]),
            decreases nd@.len() - j,
        {
            let c = if fold { lower_exec(cs[i + j]) } else { cs[i + j] };
            ok = ok && c == nd[j];
            j += 1;
        }
        if ok {
            assert forall|m: int| 0 <= m < nd@.len() implies fold_case(#[trigger] hay[i - lo + m], fold) == nd@[m] by {
                assert(hay[i - lo + m] == cs@[i + m]);
            }
            assert(occurs_at(hay, needle@, i - lo, fold));
            return true;
        }
        proof {
            assert(!occurs_at(hay, needle@, i - lo, fold)) by {
                if occurs_at(hay, needle@, i - lo, fold) {
                    assert forall|m: int| 0 <= m < nd@.len() implies fold_case(#[trigger] cs@[i + m], fold) == nd@[m] by {
                        assert(hay[i - lo + m] == cs@[i + m]);
                    }
                }
            }
        }
        i += 1;
    }
    assert(!exists|k: int| occurs_at(hay, needle@, k, fold)) by {
        if exists|k: int| occurs_at(hay, needle@, k, fold) {
            let k = choose|k: int| occurs_at(hay, needle@, k, fold);
            assert(k < i - lo);
        }
    }
    false
}


pub open spec fn is_digit(c: char) -> bool {
    '0' <= c && c <= '9'
}

/// Every character of `s` is a decimal digit (`s` may be empty).
pub open spec fn digits_only(s: Seq<char>) -> bool {
    forall|i: int| 0 <= i < s.len() ==> is_digit(#[trigger] s[i])
}

/// The number that the decimal digits `s` write.
pub open spec fn digits_value(s: Seq<char>) -> nat
    decreases s.len(),
{
    if s.len() == 0 {
        0
    } else {
        digits_value(s.drop_last()) * 10 + (s.last() as nat - '0' as nat) as nat
    }
}

/// Largest magnitude that the parsers below read.
pub const PARSE_CAP: u64 = 1_000_000_000_000_000_000;

/// `s` read as an integer: an optional `+` or `-`, then one or more digits.
pub open spec fn int_value(s: Seq<char>) -> Option<int> {
    if s.len() > 0 && (s[0] == '-' || s[0] == '+') {
        let d = s.drop_first();
        if d.len() > 0 && digits_only(d) {
            if s[0] == '-' {
                Some(-(digits_value(d) as int))
            } else {
                Some(digits_value(d) as int)
            }
        } else {
            None
        }
    } else if s.len() > 0 && digits_only(s) {
        Some(digits_value(s) as int)
    } else {
        None
    }
}

/// `Some(digits_value(cs[lo..hi]))` if that range is all digits and its value is at
/// most `PARSE_CAP`, else `None`.
fn scan_digits(cs: &Vec<char>, lo: usize, hi: usize) -> (r: Option<u64>)
    requires
        lo <= hi <= cs@.len(),
    ensures
        ({
            let d = cs@.subrange(lo as int, hi as int);
            r == if digits_only(d) && digits_value(d) <= PARSE_CAP {
                Some(digits_value(d) as u64)
            } else {
                None
            }
        }),
{
    let ghost d = cs@.subrange(lo as int, hi as int);
    let mut acc: u64 = 0;
    let mut big = false;
    let mut i = lo;
    while i < hi
        invariant
            lo <= i <= hi <= cs@.len(),
            d == cs@.subrange(lo as int, hi as int),
            digits_only(d.take(i - lo)),
            !big ==> acc == digits_value(d.take(i - lo)) && acc <= PARSE_CAP,
            big ==> digits_value(d.take(i - lo)) > PARSE_CAP,
        decreases hi - i,
    {
        let c = cs[i];
        if !('0' <= c && c <= '9') {
            assert(!digits_only(d)) by {
                assert(d[i - lo] == c);
            }
            return None;
        }
        let ghost p = d.take(i - lo + 1);
        assert(p.drop_last() =~= d.take(i - lo));
        assert(p.last() == c);
        let dig = (c as u32 - '0' as u32) as u64;
        if !big {
            if acc > (PARSE_CAP - dig) / 10 {
                big = true;
            } else {
                acc = acc * 10 + dig;
            }
        }
        assert(digits_only(p)) by {
            assert forall|j: int| 0 <= j < p.len() implies is_digit(#[trigger] p[j]) by {
                if j < i - lo {
                    assert(p[j] == d.take(i - lo)[j]);
                }
            }
        }
        i += 1;
    }
    assert(d.take(hi - lo) =~= d);
    if big {
        None
    } else {
        Some(acc)
    }
}

/// Reads `cs[lo..hi]` as an integer in `[min, max]`, in the grammar of `int_value`.
pub fn parse_int(cs: &Vec<char>, lo: usize, hi: usize, min: i64, max: i64) -> (r: Option<i64>)
    requires
        lo <= hi <= cs@.len(),
        -(PARSE_CAP as int) <= min <= max <= PARSE_CAP,
    ensures
        ({
            let v = int_value(cs@.subrange(lo as int, hi as int));
            r == if v is Some && min <= v->0 <= max {
                Some(v->0 as i64)
            } else {
                None
            }
        }),
{
    let ghost s = cs@.subrange(lo as int, hi as int);
    if lo == hi {
        return None;
    }
    let neg = cs[lo] == '-';
    let start = if neg || cs[lo] == '+' { lo + 1 } else { lo };
    assert(start > lo ==> cs@.subrange(start as int, hi as int) =~= s.drop_first());
    assert(start == lo ==> cs@.subrange(start as int, hi as int) =~= s);
    if start == hi {
        return None;
    }
    match scan_digits(cs, start, hi) {
        None => None,
        Some(m) => {
            let v: i64 = if neg { -(m as i64) } else { m as i64 };
            if min <= v && v <= max {
                Some(v)
            } else {
                None
            }
        },
    }
}

/// `s` read as an unsigned integer, as `u32::from_str` reads it: an optional `+`,
/// then one or more digits.
pub open spec fn uint_value(s: Seq<char>) -> Option<int> {
    if s.len() > 0 && s[0] == '-' {
        None
    } else {
        int_value(s)
    }
}

/// Reads `cs[lo..hi]` as an unsigned integer of at most `max`.
pub fn parse_uint(cs: &Vec<char>, lo: usize, hi: usize, max: u64) -> (r: Option<u64>)
    requires
        lo <= hi <= cs@.len(),
        max <= PARSE_CAP,
    ensures
        ({
            let v = uint_value(cs@.subrange(lo as int, hi as int));
            r == if v is Some && v->0 <= max {
                Some(v->0 as u64)
            } else {
                None
            }
        }),
{
    if lo < hi && cs[lo] == '-' {
        return None;
    }
    match parse_int(cs, lo, hi, 0, max as i64) {
        Some(v) => Some(v as u64),
        None => None,
    }
}


/// Index of the first `c` in `s`, or `s.len()` if there is none.
pub open spec fn index_of(s: Seq<char>, c: char) -> nat
    decreases s.len(),
{
    if s.len() == 0 || s[0] == c {
        0
    } else {
        1 + index_of(s.drop_first(), c)
    }
}

proof fn lemma_index_of(s: Seq<char>, c: char, i: int)
    requires
        0 <= i <= s.len(),
        forall|j: int| 0 <= j < i ==> #[trigger] s[j] != c,
        i == s.len() || s[i] == c,
    ensures
        index_of(s, c) == i,
    decreases s.len(),
{
    if s.len() > 0 && i > 0 {
        lemma_index_of(s.drop_first(), c, i - 1);
    }
}

/// Index of the first `c` in `cs[lo..hi]`, counted from `lo`; `hi` if none.
pub fn find_char(cs: &Vec<char>, lo: usize, hi: usize, c: char) -> (r: usize)
    requires
        lo <= hi <= cs@.len(),
    ensures
        lo <= r <= hi,
        r - lo == index_of(cs@.subrange(lo as int, hi as int), c),
{
    let mut i = lo;
    while i < hi && cs[i] != c
        invariant
            lo <= i <= hi <= cs@.len(),
            forall|j: int| lo <= j < i ==> #[trigger] cs@[j] != c,
        decreases hi - i,
    {
        i += 1;
    }
    proof {
        let s = cs@.subrange(lo as int, hi as int);
        assert forall|j: int| 0 <= j < i - lo implies #[trigger] s[j] != c by {
            assert(s[j] == cs@[lo + j]);
        }
        lemma_index_of(s, c, i - lo);
    }
    i
}

fn digits_only_in(cs: &Vec<char>, lo: usize, hi: usize) -> (r: bool)
    requires
        lo <= hi <= cs@.len(),
    ensures
        r == digits_only(cs@.subrange(lo as int, hi as int)),
{
    let mut i = lo;
    while i < hi
        invariant
            lo <= i <= hi <= cs@.len(),
            forall|j: int| lo <= j < i ==> is_digit(#[trigger] cs@[j]),
        decreases hi - i,
    {
        if !('0' <= cs[i] && cs[i] <= '9') {
            assert(cs@.subrange(lo as int, hi as int)[i - lo] == cs@[i as int]);
            return false;
        }
        i += 1;
    }
    assert forall|j: int| 0 <= j < hi - lo implies is_digit(#[trigger] cs@.subrange(lo as int, hi as int)[j]) by {
        assert(cs@.subrange(lo as int, hi as int)[j] == cs@[lo + j]);
    }
    true
}

/// `s` without a leading `+`.
pub open spec fn unsigned_part(s: Seq<char>) -> Seq<char> {
    if s.len() > 0 && s[0] == '+' {
        s.drop_first()
    } else {
        s
    }
}

/// The digits of `t` before its first `.`.
pub open spec fn int_digits(t: Seq<char>) -> Seq<char> {
    t.take(index_of(t, '.') as int)
}

/// The digits of `t` after its first `.` (none if there is no `.`).
pub open spec fn frac_digits(t: Seq<char>) -> Seq<char> {
    let d = index_of(t, '.');
    if d < t.len() {
        t.skip(d + 1 as int)
    } else {
        Seq::empty()
    }
}

/// Thousandths written by the fraction digits `f` (digits past the third are cut).
pub open spec fn frac_milli(f: Seq<char>) -> nat {
    if f.len() >= 3 {
        digits_value(f.take(3))
    } else if f.len() == 2 {
        digits_value(f) * 10
    } else {
        digits_value(f) * 100
    }
}

/// `s` read as a non-negative decimal number, in thousandths: an optional `+`,
/// digits, and optionally a `.` and more digits, with at least one digit in all.
pub open spec fn milli_value(s: Seq<char>) -> Option<nat> {
    let t = unsigned_part(s);
    let ip = int_digits(t);
    let fp = frac_digits(t);
    if digits_only(ip) && digits_only(fp) && ip.len() + fp.len() > 0 {
        Some(digits_value(ip) * 1000 + frac_milli(fp))
    } else {
        None
    }
}

proof fn lemma_three_digits(f: Seq<char>)
    requires
        digits_only(f),
        f.len() <= 3,
    ensures
        f.len() == 0 ==> digits_value(f) == 0,
        f.len() <= 1 ==> digits_value(f) <= 9,
        f.len() <= 2 ==> digits_value(f) <= 99,
        digits_value(f) <= 999,
    decreases f.len(),
{
    if f.len() > 0 {
        assert(digits_only(f.drop_last())) by {
            assert forall|j: int| 0 <= j < f.len() - 1 implies is_digit(#[trigger] f.drop_last()[j]) by {
                assert(f.drop_last()[j] == f[j]);
            }
        }
        assert(is_digit(f[f.len() - 1]));
        lemma_three_digits(f.drop_last());
    }
}

/// `frac_milli(cs[lo..hi])`, for a range of digits.
fn frac_of(cs: &Vec<char>, lo: usize, hi: usize) -> (r: u64)
    requires
        lo <= hi <= cs@.len(),
        digits_only(cs@.subrange(lo as int, hi as int)),
    ensures
        r == frac_milli(cs@.subrange(lo as int, hi as int)),
        r <= 999,
{
    let ghost fp = cs@.subrange(lo as int, hi as int);
    let fe = if hi - lo >= 3 { lo + 3 } else { hi };
    let ghost f3 = cs@.subrange(lo as int, fe as int);
    proof {
        assert(f3 =~= if fp.len() >= 3 { fp.take(3) } else { fp });
        assert forall|j: int| 0 <= j < f3.len() implies is_digit(#[trigger] f3[j]) by {
            assert(f3[j] == fp[j]);
        }
        lemma_three_digits(f3);
    }
    let fv = match scan_digits(cs, lo, fe) {
        Some(v) => v,
        None => 0,
    };
    if hi - lo >= 3 {
        fv
    } else if hi - lo == 2 {
        fv * 10
    } else {
        fv * 100
    }
}

/// Reads `cs[lo..hi]` as a decimal number in thousandths, up to `PARSE_CAP`.
pub fn parse_milli(cs: &Vec<char>, lo: usize, hi: usize) -> (r: Option<u64>)
    requires
        lo <= hi <= cs@.len(),
    ensures
        ({
            let v = milli_value(cs@.subrange(lo as int, hi as int));
            r == if v is Some && v->0 <= PARSE_CAP {
                Some(v->0 as u64)
            } else {
                None
            }
        }),
{
    let ghost s = cs@.subrange(lo as int, hi as int);
    let start = if lo < hi && cs[lo] == '+' { lo + 1 } else { lo };
    let ghost t = cs@.subrange(start as int, hi as int);
    assert(start > lo ==> t =~= s.drop_first());
    assert(start == lo ==> t =~= s);
    assert(t == unsigned_part(s));
    let dot = find_char(cs, start, hi, '.');
    let fs = if dot < hi { dot + 1 } else { hi };
    let ghost ip = cs@.subrange(start as int, dot as int);
    let ghost fp = cs@.subrange(fs as int, hi as int);
    proof {
        assert(ip =~= int_digits(t));
        if dot < hi {
            assert(fp =~= t.skip(dot - start + 1));
        } else {
            assert(fp =~= Seq::<char>::empty());
        }
        assert(fp == frac_digits(t));
    }
    if dot == start && fs == hi {
        return None;
    }
    if !digits_only_in(cs, fs, hi) {
        return None;
    }
    let iv = match scan_digits(cs, start, dot) {
        Some(v) => v,
        None => return None,
    };
    let frac = frac_of(cs, fs, hi);
    assert(milli_value(s) == Some(digits_value(ip) * 1000 + frac_milli(fp)));
    if iv > (PARSE_CAP - frac) / 1000 {
        return None;
    }
    Some(iv * 1000 + frac)
}

/// The pieces of `s` between occurrences of `c`, as `str::split` gives them.
pub open spec fn split_on(s: Seq<char>, c: char) -> Seq<Seq<char>>
    decreases s.len(),
{
    let i = index_of(s, c);
    if i >= s.len() {
        seq![s]
    } else {
        seq![s.take(i as int)] + split_on(s.skip(i + 1 as int), c)
    }
}

proof fn lemma_index_of_le(s: Seq<char>, c: char)
    ensures
        index_of(s, c) <= s.len(),
        index_of(s, c) < s.len() ==> s[index_of(s, c) as int] == c,
    decreases s.len(),
{
    if s.len() > 0 && s[0] != c {
        lemma_index_of_le(s.drop_first(), c);
    }
}

/// Ranges of `cs` paired one for one with `pieces`.
pub open spec fn ranges_of(cs: Seq<char>, r: Seq<(usize, usize)>, pieces: Seq<Seq<char>>) -> bool {
    &&& r.len() == pieces.len()
    &&& forall|k: int|
        0 <= k < r.len() ==> {
            &&& (#[trigger] r[k]).0 <= r[k].1 <= cs.len()
            &&& cs.subrange(r[k].0 as int, r[k].1 as int) == pieces[k]
        }
}

/// The ranges of the pieces of `cs[lo..hi]` between occurrences of `c`.
pub fn split_ranges(cs: &Vec<char>, lo: usize, hi: usize, c: char) -> (r: Vec<(usize, usize)>)
    requires
        lo <= hi <= cs@.len(),
    ensures
        ranges_of(cs@, r@, split_on(cs@.subrange(lo as int, hi as int), c)),
{
    let mut r: Vec<(usize, usize)> = Vec::new();
    let mut pos = lo;
    let ghost done: Seq<Seq<char>> = Seq::empty();
    loop
        invariant
            lo <= pos <= hi <= cs@.len(),
            ranges_of(cs@, r@, done),
            done + split_on(cs@.subrange(pos as int, hi as int), c) == split_on(
                cs@.subrange(lo as int, hi as int),
                c,
            ),
        decreases hi - pos,
    {
        let ghost sub = cs@.subrange(pos as int, hi as int);
        let d = find_char(cs, pos, hi, c);
        proof {
            lemma_index_of_le(sub, c);
        }
        if d == hi {
            r.push((pos, hi));
            proof {
                assert(split_on(sub, c) == seq![sub]);
                assert(done + seq![sub] =~= done.push(sub));
                done = done.push(sub);
            }
            return r;
        }
        r.push((pos, d));
        proof {
            assert(cs@.subrange(pos as int, d as int) =~= sub.take(d - pos));
            assert(cs@.subrange(d + 1, hi as int) =~= sub.skip(d - pos + 1));
            let rest = split_on(cs@.subrange(d + 1, hi as int), c);
            assert(split_on(sub, c) == seq![sub.take(d - pos)] + rest);
            assert(done + (seq![sub.take(d - pos)] + rest) =~= done.push(sub.take(d - pos)) + rest);
            done = done.push(sub.take(d - pos));
        }
        pos = d + 1;
    }
}

/// The pieces of `s` between single white-space characters (empty ones included).
pub open spec fn split_spaces(s: Seq<char>) -> Seq<Seq<char>>
    decreases s.len(),
{
    let i = space_index(s);
    if i >= s.len() {
        seq![s]
    } else {
        seq![s.take(i as int)] + split_spaces(s.skip(i + 1 as int))
    }
}

/// Index of the first white-space character of `s`, or `s.len()`.
pub open spec fn space_index(s: Seq<char>) -> nat
    decreases s.len(),
{
    if s.len() == 0 || is_space(s[0]) {
        0
    } else {
        1 + space_index(s.drop_first())
    }
}

/// The white-space separated words of `s`, as `str::split_whitespace` gives them.
pub open spec fn words(s: Seq<char>) -> Seq<Seq<char>> {
    split_spaces(s).filter(|p: Seq<char>| p.len() > 0)
}

proof fn lemma_space_index(s: Seq<char>, i: int)
    requires
        0 <= i <= s.len(),
        forall|j: int| 0 <= j < i ==> !is_space(#[trigger] s[j]),
        i == s.len() || is_space(s[i]),
    ensures
        space_index(s) == i,
    decreases s.len(),
{
    if s.len() > 0 && i > 0 {
        lemma_space_index(s.drop_first(), i - 1);
    }
}

/// The ranges of the white-space separated words of `cs[lo..hi]`.
pub fn word_ranges(cs: &Vec<char>, lo: usize, hi: usize) -> (r: Vec<(usize, usize)>)
    requires
        lo <= hi <= cs@.len(),
    ensures
        ranges_of(cs@, r@, words(cs@.subrange(lo as int, hi as int))),
{
    broadcast use vstd::seq_lib::group_filter_ensures;

    let mut r: Vec<(usize, usize)> = Vec::new();
    let mut pos = lo;
    let ghost done: Seq<Seq<char>> = Seq::empty();
    let ghost f = |p: Seq<char>| p.len() > 0;
    loop
        invariant
            lo <= pos <= hi <= cs@.len(),
            f == (|p: Seq<char>| p.len() > 0),
            ranges_of(cs@, r@, done.filter(f)),
            done + split_spaces(cs@.subrange(pos as int, hi as int)) == split_spaces(
                cs@.subrange(lo as int, hi as int),
            ),
        decreases hi - pos,
    {
        let ghost sub = cs@.subrange(pos as int, hi as int);
        let mut d = pos;
        while d < hi && !is_space_exec(cs[d])
            invariant
                pos <= d <= hi <= cs@.len(),
                forall|j: int| pos <= j < d ==> !is_space(#[trigger] cs@[j]),
            decreases hi - d,
        {
            d += 1;
        }
        proof {
            assert forall|j: int| 0 <= j < d - pos implies !is_space(#[trigger] sub[j]) by {
                assert(sub[j] == cs@[pos + j]);
            }
            lemma_space_index(sub, d - pos);
        }
        let ghost piece = sub.take(d - pos);
        assert(cs@.subrange(pos as int, d as int) =~= piece);
        if d > pos {
            r.push((pos, d));
        }
        proof {
            reveal(Seq::filter);
            assert(done.push(piece).drop_last() =~= done);
            if d > pos {
                assert(done.push(piece).filter(f) == done.filter(f).push(piece));
                assert(r@.len() == done.push(piece).filter(f).len());
            } else {
                assert(done.push(piece).filter(f) == done.filter(f));
            }
        }
        if d == hi {
            proof {
                assert(piece =~= sub);
                assert(split_spaces(sub) == seq![sub]);
                assert(done + seq![sub] =~= done.push(sub));
            }
            return r;
        }
        proof {
            assert(cs@.subrange(d + 1, hi as int) =~= sub.skip(d - pos + 1));
            let rest = split_spaces(cs@.subrange(d + 1, hi as int));
            assert(split_spaces(sub) == seq![piece] + rest);
            assert(done + (seq![piece] + rest) =~= done.push(piece) + rest);
            done = done.push(piece);
        }
        pos = d + 1;
    }
}

/// The pieces of `s` between occurrences of `c`, each trimmed.
pub open spec fn trimmed_fields(s: Seq<char>, c: char) -> Seq<Seq<char>> {
    split_on(s, c).map_values(|f: Seq<char>| trim(f))
}

/// The ranges of the trimmed pieces of `cs[lo..hi]` between occurrences of `c`.
pub fn field_ranges(cs: &Vec<char>, lo: usize, hi: usize, c: char) -> (r: Vec<(usize, usize)>)
    requires
        lo <= hi <= cs@.len(),
    ensures
        ranges_of(cs@, r@, trimmed_fields(cs@.subrange(lo as int, hi as int), c)),
{
    let ghost pieces = split_on(cs@.subrange(lo as int, hi as int), c);
    let raw = split_ranges(cs, lo, hi, c);
    let mut r: Vec<(usize, usize)> = Vec::new();
    let mut k: usize = 0;
    while k < raw.len()
        invariant
            k <= raw@.len(),
            ranges_of(cs@, raw@, pieces),
            pieces == split_on(cs@.subrange(lo as int, hi as int), c),
            ranges_of(cs@, r@, trimmed_fields(cs@.subrange(lo as int, hi as int), c).take(k as int)),
        decreases raw@.len() - k,
    {
        let (a, b) = raw[k];
        let t = trim_bounds(cs, a, b);
        r.push(t);
        k += 1;
        proof {
            let tf = trimmed_fields(cs@.subrange(lo as int, hi as int), c);
            assert forall|j: int| 0 <= j < r@.len() implies {
                &&& (#[trigger] r@[j]).0 <= r@[j].1 <= cs@.len()
                &&& cs@.subrange(r@[j].0 as int, r@[j].1 as int) == tf.take(k as int)[j]
            } by {
                if j < k - 1 {
                    assert(tf.take(k - 1)[j] == tf.take(k as int)[j]);
                }
            }
        }
    }
    assert(trimmed_fields(cs@.subrange(lo as int, hi as int), c).take(k as int) =~= trimmed_fields(
        cs@.subrange(lo as int, hi as int),
        c,
    ));
    r
}

} // verus!
