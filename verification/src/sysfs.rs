//! Cache topology from the text of the per-cache directories that Linux lists for a CPU.
//!
//! Reading the files is left to the caller. What is derived from them is here: sizes with a
//! unit suffix, lists of CPU ids, and the sharing degree of the second level.

use vstd::prelude::*;

use crate::arith::{max_int, max_usize, saturate};
use crate::cache::{CacheTopology, Level};
use crate::text::{chars_of, parse_range, parsed, trim_range, trimmed};

verus! {

/// The factor that a size suffix stands for.
pub open spec fn suffix(c: char) -> Option<usize> {
    if c == 'K' || c == 'k' {
        Some(1024)
    } else if c == 'M' || c == 'm' {
        Some(1048576)
    } else if c == 'G' || c == 'g' {
        Some(1073741824)
    } else {
        None
    }
}

/// The bytes that a trimmed size text stands for: a number with an optional suffix, unless the
/// result does not fit.
pub open spec fn size_of_text(t: Seq<char>) -> Option<usize> {
    if t.len() == 0 {
        None
    } else {
        let (num, mult) = match suffix(t.last()) {
            Some(m) => (t.drop_last(), m),
            None => (t, 1usize),
        };
        match parsed(trimmed(num)) {
            Some(v) => if v * mult <= usize::MAX {
                Some((v * mult) as usize)
            } else {
                None
            },
            None => None,
        }
    }
}

/// Parse a cache size such as `48K`, `32M`, `2G` or a bare byte count.
pub fn parse_size(s: &str) -> (r: Option<usize>)
    ensures
        r == size_of_text(trimmed(s@)),
{
    let text: Vec<char> = chars_of(s);
    let c: &[char] = text.as_slice();
    let n: usize = c.len();
    assert(c@.subrange(0, n as int) =~= s@);
    let (lo, hi): (usize, usize) = trim_range(c, 0, n);
    if lo == hi {
        return None;
    }
    let ghost t = c@.subrange(lo as int, hi as int);
    assert(t.last() == c@[hi - 1]);
    assert(t.drop_last() =~= c@.subrange(lo as int, hi - 1));
    let last: char = c[hi - 1];
    let (end, mult): (usize, usize) = if last == 'K' || last == 'k' {
        (hi - 1, 1024)
    } else if last == 'M' || last == 'm' {
        (hi - 1, 1048576)
    } else if last == 'G' || last == 'g' {
        (hi - 1, 1073741824)
    } else {
        (hi, 1)
    };
    let (a, b): (usize, usize) = trim_range(c, lo, end);
    match parse_range(c, a, b) {
        Some(v) => v.checked_mul(mult),
        None => None,
    }
}

/// The part of a text before the first `sep`, or all of it.
pub open spec fn before(s: Seq<char>, sep: char) -> Seq<char> {
    s.take(first_of(s, sep))
}

/// The part of a text after the first `sep`.
pub open spec fn after(s: Seq<char>, sep: char) -> Seq<char> {
    s.skip(first_of(s, sep) + 1)
}

/// Where `sep` first occurs, or the length.
pub open spec fn first_of(s: Seq<char>, sep: char) -> int
    decreases s.len(),
{
    if s.len() == 0 || s[0] == sep {
        0
    } else {
        1 + first_of(s.skip(1), sep)
    }
}

/// `first_of` is the first occurrence.
proof fn lemma_first_of(s: Seq<char>, sep: char, at: int)
    requires
        0 <= at <= s.len(),
        forall|i: int| 0 <= i < at ==> s[i] != sep,
        at == s.len() || s[at] == sep,
    ensures
        first_of(s, sep) == at,
    decreases s.len(),
{
    if at > 0 {
        assert forall|i: int| 0 <= i < at - 1 implies s.skip(1)[i] != sep by {
            assert(s[i + 1] != sep);
        }
        lemma_first_of(s.skip(1), sep, at - 1);
    }
}

/// Where `sep` first occurs in `s[lo..hi]`, or `hi`.
fn find(s: &[char], lo: usize, hi: usize, sep: char) -> (r: usize)
    requires
        lo <= hi <= s@.len(),
    ensures
        lo <= r <= hi,
        r - lo == first_of(s@.subrange(lo as int, hi as int), sep),
        r < hi ==> s@[r as int] == sep,
{
    let ghost t = s@.subrange(lo as int, hi as int);
    let mut i: usize = lo;
    while i < hi && s[i] != sep
        invariant
            lo <= i <= hi <= s@.len(),
            t == s@.subrange(lo as int, hi as int),
            forall|x: int| 0 <= x < i - lo ==> t[x] != sep,
        decreases hi - i,
    {
        assert(t[i - lo] == s@[i as int]);
        i = i + 1;
    }
    proof {
        if i < hi {
            assert(t[i - lo] == s@[i as int]);
        }
        lemma_first_of(t, sep, i - lo);
    }
    i
}

/// How many ids a trimmed part of a CPU list names: one for an id, the length of a range that
/// is not reversed, and none for anything else.
pub open spec fn ids_of_part(p: Seq<char>) -> int {
    if p.len() == 0 {
        0
    } else if first_of(p, '-') < p.len() {
        match (parsed(trimmed(before(p, '-'))), parsed(trimmed(after(p, '-')))) {
            (Some(a), Some(b)) => if b >= a {
                b - a + 1
            } else {
                0
            },
            _ => 0,
        }
    } else if parsed(p) is Some {
        1
    } else {
        0
    }
}

/// How many ids a CPU list names, part by part.
pub open spec fn ids_of_list(s: Seq<char>) -> int
    decreases s.len(),
{
    let at = first_of(s, ',');
    if 0 <= at < s.len() {
        ids_of_part(trimmed(before(s, ','))) + ids_of_list(after(s, ','))
    } else {
        ids_of_part(trimmed(s))
    }
}

/// The ids of one part, held at the range of the result.
fn count_part(c: &[char], lo: usize, hi: usize) -> (r: usize)
    requires
        lo <= hi <= c@.len(),
    ensures
        r == saturate(ids_of_part(trimmed(c@.subrange(lo as int, hi as int)))),
{
    let (lo, hi): (usize, usize) = trim_range(c, lo, hi);
    let ghost p = c@.subrange(lo as int, hi as int);
    if lo == hi {
        return 0;
    }
    let dash: usize = find(c, lo, hi, '-');
    if dash < hi {
        let (a0, a1): (usize, usize) = trim_range(c, lo, dash);
        let (b0, b1): (usize, usize) = trim_range(c, dash + 1, hi);
        assert(before(p, '-') =~= c@.subrange(lo as int, dash as int));
        assert(after(p, '-') =~= c@.subrange(dash + 1, hi as int));
        match (parse_range(c, a0, a1), parse_range(c, b0, b1)) {
            (Some(a), Some(b)) => if b >= a {
                (b - a).saturating_add(1)
            } else {
                0
            },
            _ => 0,
        }
    } else if parse_range(c, lo, hi).is_some() {
        1
    } else {
        0
    }
}

/// How many CPU ids a list such as `0-7,16-23` names, at least 1: a cache is shared at least by
/// the CPU that lists it.
pub fn count_cpu_list(s: &str) -> (r: usize)
    ensures
        r == max_int(saturate(ids_of_list(trimmed(s@))), 1),
{
    let text: Vec<char> = chars_of(s);
    let c: &[char] = text.as_slice();
    let len: usize = c.len();
    assert(c@.subrange(0, len as int) =~= s@);
    let (lo, hi): (usize, usize) = trim_range(c, 0, len);
    let ghost t = c@.subrange(lo as int, hi as int);
    let mut n: usize = 0;
    let mut at: usize = lo;
    let mut more: bool = true;
    let ghost mut sum: int = 0;
    while more
        invariant
            lo <= at <= hi + 1,
            hi <= c@.len(),
            more ==> at <= hi,
            sum >= 0,
            n == saturate(sum),
            more ==> sum + ids_of_list(c@.subrange(at as int, hi as int)) == ids_of_list(t),
            !more ==> sum == ids_of_list(t),
        decreases (if more { hi - at + 1 } else { 0 }),
    {
        let ghost rest = c@.subrange(at as int, hi as int);
        let comma: usize = find(c, at, hi, ',');
        let k: usize = count_part(c, at, comma);
        let ghost ids = ids_of_part(trimmed(c@.subrange(at as int, comma as int)));
        proof {
            if comma < hi {
                assert(before(rest, ',') =~= c@.subrange(at as int, comma as int));
                assert(after(rest, ',') =~= c@.subrange(comma + 1, hi as int));
            } else {
                assert(c@.subrange(at as int, comma as int) =~= rest);
            }
            sum = sum + ids;
        }
        n = n.saturating_add(k);
        if comma < hi {
            at = comma + 1;
        } else {
            more = false;
        }
    }
    max_usize(n, 1)
}

/// What the directory of one cache says, file by file. A file that is missing or cannot be read
/// is `None`.
pub struct CacheEntry {
    pub level: Option<String>,
    pub kind: Option<String>,
    pub size: Option<String>,
    pub ways: Option<String>,
    pub line: Option<String>,
    pub shared: Option<String>,
}

/// A field as a number.
pub open spec fn field_number(f: Option<String>) -> Option<usize> {
    match f {
        Some(s) => parsed(trimmed(s@)),
        None => None,
    }
}

impl CacheEntry {
    /// The cache, and the number of CPUs that share it; `None` where a size is missing or zero.
    pub open spec fn as_level(self) -> Option<(Level, usize)> {
        let bytes = match self.size {
            Some(s) => size_of_text(trimmed(s@)),
            None => None,
        };
        let shared = match self.shared {
            Some(s) => max_int(saturate(ids_of_list(trimmed(s@))), 1) as usize,
            None => 1,
        };
        match (bytes, field_number(self.ways), field_number(self.line)) {
            (Some(bytes), Some(assoc), Some(line)) => if bytes > 0 && assoc > 0 && line > 0 {
                Some((Level { bytes, assoc, line, shared_by: 1 }, shared))
            } else {
                None
            },
            _ => None,
        }
    }

    /// The level that the cache stands at for the model: an instruction cache stands at none.
    pub open spec fn stands_at(self, level: usize) -> bool {
        &&& field_number(self.level) == Some(level)
        &&& self.as_level() is Some
        &&& level == 1 ==> (self.kind matches Some(k) && (trimmed(k@) == "Data"@ || trimmed(k@)
            == "Unified"@))
    }
}

fn number(f: &Option<String>) -> (r: Option<usize>)
    ensures
        r == field_number(*f),
{
    match f {
        Some(s) => {
            let text: Vec<char> = chars_of(s.as_str());
            let c: &[char] = text.as_slice();
            let n: usize = c.len();
            assert(c@.subrange(0, n as int) =~= s@);
            let (lo, hi): (usize, usize) = trim_range(c, 0, n);
            parse_range(c, lo, hi)
        },
        None => None,
    }
}

/// Read one cache; see [`CacheEntry::as_level`].
pub fn read_level(e: &CacheEntry) -> (r: Option<(Level, usize)>)
    ensures
        r == e.as_level(),
{
    let bytes: usize = match &e.size {
        Some(s) => match parse_size(s.as_str()) {
            Some(b) => b,
            None => return None,
        },
        None => return None,
    };
    let assoc: usize = match number(&e.ways) {
        Some(v) => v,
        None => return None,
    };
    let line: usize = match number(&e.line) {
        Some(v) => v,
        None => return None,
    };
    let shared: usize = match &e.shared {
        Some(s) => count_cpu_list(s.as_str()),
        None => 1,
    };
    if bytes > 0 && assoc > 0 && line > 0 {
        Some((Level { bytes, assoc, line, shared_by: 1 }, shared))
    } else {
        None
    }
}

/// Whether a trimmed field is exactly `want`.
fn field_is(f: &Option<String>, want: &str) -> (r: bool)
    ensures
        r == (*f matches Some(k) && trimmed(k@) == want@),
{
    match f {
        Some(s) => {
            let text: Vec<char> = chars_of(s.as_str());
            let c: &[char] = text.as_slice();
            let n: usize = c.len();
            assert(c@.subrange(0, n as int) =~= s@);
            let (lo, hi): (usize, usize) = trim_range(c, 0, n);
            let ghost t = c@.subrange(lo as int, hi as int);
            if hi - lo != want.unicode_len() {
                return false;
            }
            let mut i: usize = lo;
            while i < hi
                invariant
                    lo <= i <= hi <= c@.len(),
                    hi - lo == want@.len(),
                    t == c@.subrange(lo as int, hi as int),
                    t == trimmed(s@),
                    *f == Some(*s),
                    forall|x: int| 0 <= x < i - lo ==> t[x] == want@[x],
                decreases hi - i,
            {
                assert(t[i - lo] == c@[i as int]);
                if c[i] != want.get_char(i - lo) {
                    return false;
                }
                i = i + 1;
            }
            assert(t =~= want@);
            true
        },
        None => false,
    }
}

/// No more caches than this are looked at.
pub const MAX_CACHES: usize = 64;

/// Where the listed entries end, from entry `i` on: at the first that names no level.
pub open spec fn listed(es: Seq<CacheEntry>, i: int) -> int
    decreases es.len() - i,
{
    if 0 <= i < es.len() && i < MAX_CACHES && field_number(es[i].level) is Some {
        listed(es, i + 1)
    } else {
        i
    }
}

/// The first cache among the entries `i..n` that stands at a level.
pub open spec fn first_at(es: Seq<CacheEntry>, i: int, n: int, level: usize) -> Option<
    (Level, usize),
>
    decreases n - i,
{
    if i < 0 || i >= n {
        None
    } else if es[i].stands_at(level) {
        es[i].as_level()
    } else {
        first_at(es, i + 1, n, level)
    }
}

/// Looking one entry further.
proof fn lemma_first_at_grows(es: Seq<CacheEntry>, i: int, n: int, level: usize)
    requires
        0 <= i <= n,
    ensures
        first_at(es, i, n + 1, level) == (match first_at(es, i, n, level) {
            Some(e) => Some(e),
            None => if es[n].stands_at(level) {
                es[n].as_level()
            } else {
                None
            },
        }),
    decreases n - i,
{
    if i < n {
        lemma_first_at_grows(es, i + 1, n, level);
    } else {
        assert(first_at(es, n + 1, n + 1, level) is None);
    }
}

/// The topology that the listed caches describe. The first cache at each level counts. The
/// second level is shared by as many cores as its CPU count says, divided by the CPUs of one
/// core, which is what the first level's count says. The other levels count as private.
pub open spec fn topology_of(es: Seq<CacheEntry>) -> Option<CacheTopology> {
    let n = listed(es, 0);
    match (first_at(es, 0, n, 1), first_at(es, 0, n, 2)) {
        (Some((l1, s1)), Some((l2, s2))) => Some(
            CacheTopology {
                l1d: Level { shared_by: 1, ..l1 },
                l2: Level {
                    shared_by: max_int(s2 as int / max_int(s1 as int, 1), 1) as usize,
                    ..l2
                },
                l3: match first_at(es, 0, n, 3) {
                    Some((l3, _)) => Some(Level { shared_by: 1, ..l3 }),
                    None => None,
                },
            },
        ),
        _ => None,
    }
}

/// The listed entries are those before the first that names no level.
proof fn lemma_listed(es: Seq<CacheEntry>, i: int, n: int)
    requires
        0 <= i <= n <= es.len(),
        n <= MAX_CACHES,
        forall|x: int| i <= x < n ==> field_number((#[trigger] es[x]).level) is Some,
        n == es.len() || n == MAX_CACHES || field_number(es[n].level) is None,
    ensures
        listed(es, i) == n,
    decreases n - i,
{
    if i < n {
        assert(field_number(es[i].level) is Some);
        lemma_listed(es, i + 1, n);
    }
}

/// The topology that a list of caches describes; see [`topology_of`].
pub fn detect(entries: &[CacheEntry]) -> (r: Option<CacheTopology>)
    ensures
        r == topology_of(entries@),
{
    let mut l1d: Option<(Level, usize)> = None;
    let mut l2: Option<(Level, usize)> = None;
    let mut l3: Option<(Level, usize)> = None;
    let ghost es = entries@;
    let mut i: usize = 0;
    let mut more: bool = entries.len() > 0;
    while more
        invariant
            es == entries@,
            i <= es.len(),
            i <= MAX_CACHES,
            more ==> i < es.len() && i < MAX_CACHES,
            forall|x: int| 0 <= x < i ==> field_number((#[trigger] es[x]).level) is Some,
            !more ==> i == es.len() || i == MAX_CACHES || field_number(es[i as int].level) is None,
            l1d == first_at(es, 0, i as int, 1),
            l2 == first_at(es, 0, i as int, 2),
            l3 == first_at(es, 0, i as int, 3),
        decreases (if more { es.len() - i + 1 } else { 0 }),
    {
        let e = &entries[i];
        match number(&e.level) {
            None => {
                more = false;
            },
            Some(level) => {
                proof {
                    lemma_first_at_grows(es, 0, i as int, 1);
                    lemma_first_at_grows(es, 0, i as int, 2);
                    lemma_first_at_grows(es, 0, i as int, 3);
                }
                if let Some(entry) = read_level(e) {
                    if level == 1 && l1d.is_none() && (field_is(&e.kind, "Data") || field_is(
                        &e.kind,
                        "Unified",
                    )) {
                        l1d = Some(entry);
                    } else if level == 2 && l2.is_none() {
                        l2 = Some(entry);
                    } else if level == 3 && l3.is_none() {
                        l3 = Some(entry);
                    }
                }
                i = i + 1;
                more = i < entries.len() && i < MAX_CACHES;
            },
        }
    }
    proof {
        lemma_listed(es, 0, i as int);
    }
    match (l1d, l2) {
        (Some((a, smt)), Some((b, sharing))) => {
            let smt: usize = max_usize(smt, 1);
            Some(
                CacheTopology {
                    l1d: Level { bytes: a.bytes, assoc: a.assoc, line: a.line, shared_by: 1 },
                    l2: Level {
                        bytes: b.bytes,
                        assoc: b.assoc,
                        line: b.line,
                        shared_by: max_usize(sharing / smt, 1),
                    },
                    l3: match l3 {
                        Some((c, _)) => Some(
                            Level { bytes: c.bytes, assoc: c.assoc, line: c.line, shared_by: 1 },
                        ),
                        None => None,
                    },
                },
            )
        },
        _ => None,
    }
}

} // verus!
