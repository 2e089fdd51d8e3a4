//! The cached system log and a scroll cursor over lists.
use crate::text::{chars_of, split_on, split_ranges, string_of, ranges_of};
use vstd::prelude::*;

verus! {

/// Most entries asked of the log query.
pub const LOG_ENTRIES: usize = 100;

/// Page size of the page-up and page-down moves.
pub const PAGE: usize = 10;

/// `p` without a final carriage return.
pub open spec fn strip_cr(p: Seq<char>) -> Seq<char> {
    if p.len() > 0 && p.last() == '\r' {
        p.drop_last()
    } else {
        p
    }
}

/// The lines of `s`, as `str::lines` gives them: split at `\n` or `\r\n`, with
/// the final line ending optional.
pub open spec fn text_lines(s: Seq<char>) -> Seq<Seq<char>> {
    let p = split_on(s, '\n');
    let body = if p.last().len() == 0 {
        p.drop_last()
    } else {
        p
    };
    Seq::new(
        body.len(),
        |i: int|
            if i < p.len() - 1 {
                strip_cr(body[i])
            } else {
                body[i]
            },
    )
}

proof fn lemma_split_nonempty(s: Seq<char>, c: char)
    ensures
        split_on(s, c).len() > 0,
    decreases s.len(),
{
    let i = crate::text::index_of(s, c);
    if i < s.len() {
        lemma_split_nonempty(s.skip(i + 1 as int), c);
    }
}

/// The views of a list of strings.
pub open spec fn texts(v: Seq<String>) -> Seq<Seq<char>> {
    v.map_values(|s: String| s@)
}

/// The lines of `out`.
pub fn lines_of(out: &str) -> (r: Vec<String>)
    ensures
        texts(r@) == text_lines(out@),
{
    let cs = chars_of(out);
    assert(cs@.subrange(0, cs@.len() as int) =~= out@);
    let ghost p = split_on(out@, '\n');
    let pieces = split_ranges(&cs, 0, cs.len(), '\n');
    proof {
        lemma_split_nonempty(out@, '\n');
    }
    let n = pieces.len();
    let (la, lb) = pieces[n - 1];
    let count = if la == lb { n - 1 } else { n };
    let ghost want = text_lines(out@);
    assert(want.len() == count);
    let mut r: Vec<String> = Vec::new();
    let mut k: usize = 0;
    while k < count
        invariant
            k <= count <= n == pieces@.len() == p.len(),
            ranges_of(cs@, pieces@, p),
            p == split_on(out@, '\n'),
            want == text_lines(out@),
            want.len() == count,
            texts(r@) == want.take(k as int),
        decreases count - k,
    {
        let (a, b) = pieces[k];
        let e = if k < n - 1 && a < b && cs[b - 1] == '\r' { b - 1 } else { b };
        let ghost piece = cs@.subrange(a as int, b as int);
        assert(k < n - 1 ==> cs@.subrange(a as int, e as int) =~= strip_cr(piece));
        assert(k >= n - 1 ==> cs@.subrange(a as int, e as int) =~= piece);
        let line = string_of(&cs, a, e);
        let ghost prev = r@;
        r.push(line);
        k += 1;
        assert(texts(r@) =~= texts(prev).push(line@));
        assert(want.take(k as int) =~= want.take(k - 1).push(want[k - 1]));
    }
    assert(want.take(k as int) =~= want);
    r
}

/// The log lines on show and the cursor over them.
pub struct LogCache {
    pub lines: Vec<String>,
    pub scroll: usize,
}

impl LogCache {
    pub fn new() -> (r: Self)
        ensures
            r.lines@.len() == 0,
            r.scroll == 0,
    {
        LogCache { lines: Vec::new(), scroll: 0 }
    }

    /// Takes in the output of a log query (`None` when it failed). The cache
    /// is replaced only by a fetch with at least one line, so a failed or
    /// empty fetch keeps what is on show.
    pub fn apply_fetch(&mut self, output: Option<&str>)
        ensures
            final(self).scroll == old(self).scroll,
            match output {
                Some(o) if text_lines(o@).len() > 0 => texts(final(self).lines@) == text_lines(o@),
                _ => final(self).lines@ == old(self).lines@,
            },
    {
        if let Some(o) = output {
            let fresh = lines_of(o);
            if fresh.len() > 0 {
                self.lines = fresh;
            }
        }
    }
}

/// The cursor moves of the list views.
pub enum ScrollMove {
    Up,
    Down,
    PageUp,
    PageDown,
}

/// Where a cursor at `pos` over `len` entries goes on `mv`. An empty list
/// keeps the cursor where it is; a move never leaves the list.
pub open spec fn moved(pos: usize, len: usize, mv: ScrollMove) -> usize {
    if len == 0 {
        pos
    } else {
        match mv {
            ScrollMove::Up => if pos > 0 {
                (pos - 1) as usize
            } else {
                pos
            },
            ScrollMove::Down => if pos < len - 1 {
                (pos + 1) as usize
            } else {
                pos
            },
            ScrollMove::PageUp => if pos >= PAGE {
                (pos - PAGE) as usize
            } else {
                0
            },
            ScrollMove::PageDown => if pos + PAGE <= len - 1 {
                (pos + PAGE) as usize
            } else {
                (len - 1) as usize
            },
        }
    }
}

/// See `moved`.
pub fn scroll(pos: usize, len: usize, mv: ScrollMove) -> (r: usize)
    ensures
        r == moved(pos, len, mv),
{
    if len == 0 {
        return pos;
    }
    match mv {
        ScrollMove::Up => if pos > 0 {
            pos - 1
        } else {
            pos
        },
        ScrollMove::Down => if pos < len - 1 {
            pos + 1
        } else {
            pos
        },
        ScrollMove::PageUp => pos.saturating_sub(PAGE),
        ScrollMove::PageDown => if len - 1 >= PAGE && pos <= len - 1 - PAGE {
            pos + PAGE
        } else {
            len - 1
        },
    }
}

} // verus!
