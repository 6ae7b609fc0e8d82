//! Small helpers on text: trimming and comparing without regard to ASCII case.

use vstd::prelude::*;

verus! {

/// A character that Unicode counts as white space.
pub open spec fn is_space(c: char) -> bool {
    let x = c as u32;
    ||| 0x9 <= x <= 0xD
    ||| x == 0x20
    ||| x == 0x85
    ||| x == 0xA0
    ||| x == 0x1680
    ||| 0x2000 <= x <= 0x200A
    ||| x == 0x2028
    ||| x == 0x2029
    ||| x == 0x202F
    ||| x == 0x205F
    ||| x == 0x3000
}

fn space(c: char) -> (r: bool)
    ensures
        r == is_space(c),
{
    let x: u32 = c as u32;
    (0x9 <= x && x <= 0xD) || x == 0x20 || x == 0x85 || x == 0xA0 || x == 0x1680 || (0x2000 <= x
        && x <= 0x200A) || x == 0x2028 || x == 0x2029 || x == 0x202F || x == 0x205F || x == 0x3000
}

/// The text without its leading white space.
pub open spec fn skip_spaces(s: Seq<char>) -> Seq<char>
    decreases s.len(),
{
    if s.len() > 0 && is_space(s[0]) {
        skip_spaces(s.skip(1))
    } else {
        s
    }
}

/// The text without its trailing white space.
pub open spec fn drop_spaces(s: Seq<char>) -> Seq<char>
    decreases s.len(),
{
    if s.len() > 0 && is_space(s.last()) {
        drop_spaces(s.drop_last())
    } else {
        s
    }
}

/// The text without the white space around it.
pub open spec fn trimmed(s: Seq<char>) -> Seq<char> {
    drop_spaces(skip_spaces(s))
}

/// The characters of a text, without the white space around it.
pub fn trim(s: &str) -> (r: Vec<char>)
    ensures
        r@ == trimmed(s@),
{
    let n: usize = s.unicode_len();
    let mut lo: usize = 0;
    assert(s@.skip(0) == s@);
    while lo < n && space(s.get_char(lo))
        invariant
            lo <= n,
            n == s@.len(),
            skip_spaces(s@.skip(lo as int)) == skip_spaces(s@),
        decreases n - lo,
    {
        proof {
            assert(s@.skip(lo as int)[0] == s@[lo as int]);
            assert(s@.skip(lo as int).skip(1) == s@.skip(lo + 1));
        }
        lo = lo + 1;
    }
    proof {
        if lo < n {
            assert(s@.skip(lo as int)[0] == s@[lo as int]);
        }
    }
    let ghost body = s@.skip(lo as int);
    assert(skip_spaces(s@) == body);
    let mut hi: usize = n;
    assert(s@.subrange(lo as int, n as int) == body);
    while lo < hi && space(s.get_char(hi - 1))
        invariant
            lo <= hi <= n,
            n == s@.len(),
            drop_spaces(s@.subrange(lo as int, hi as int)) == drop_spaces(body),
        decreases hi,
    {
        proof {
            let t = s@.subrange(lo as int, hi as int);
            assert(t.last() == s@[hi - 1]);
            assert(t.drop_last() == s@.subrange(lo as int, hi - 1));
        }
        hi = hi - 1;
    }
    let ghost t = s@.subrange(lo as int, hi as int);
    proof {
        if lo < hi {
            assert(t.last() == s@[hi - 1]);
        }
        assert(trimmed(s@) == t);
    }
    let mut out: Vec<char> = Vec::new();
    let mut i: usize = lo;
    while i < hi
        invariant
            lo <= i <= hi <= n,
            n == s@.len(),
            out@ == s@.subrange(lo as int, i as int),
        decreases hi - i,
    {
        out.push(s.get_char(i));
        assert(out@ =~= s@.subrange(lo as int, i + 1));
        i = i + 1;
    }
    out
}

/// A character's code with ASCII capitals folded to small letters.
pub open spec fn folded(c: char) -> int {
    let x = c as u32 as int;
    if 65 <= x <= 90 {
        x + 32
    } else {
        x
    }
}

fn fold(c: char) -> (r: u32)
    ensures
        r == folded(c),
{
    let x: u32 = c as u32;
    if 65 <= x && x <= 90 {
        x + 32
    } else {
        x
    }
}

/// Two texts are the same apart from ASCII case.
pub open spec fn same_word(a: Seq<char>, b: Seq<char>) -> bool {
    &&& a.len() == b.len()
    &&& forall|i: int| 0 <= i < a.len() ==> folded(#[trigger] a[i]) == folded(b[i])
}

/// Whether two texts are the same apart from ASCII case.
pub fn eq_ignore_ascii_case(a: &Vec<char>, b: &str) -> (r: bool)
    ensures
        r == same_word(a@, b@),
{
    let n: usize = a.len();
    if n != b.unicode_len() {
        return false;
    }
    let mut i: usize = 0;
    while i < n
        invariant
            i <= n,
            n == a@.len(),
            n == b@.len(),
            forall|x: int| 0 <= x < i ==> folded(#[trigger] a@[x]) == folded(b@[x]),
        decreases n - i,
    {
        if fold(a[i]) != fold(b.get_char(i)) {
            assert(folded(a@[i as int]) != folded(b@[i as int]));
            return false;
        }
        i = i + 1;
    }
    true
}

/// The characters of a text.
pub fn chars_of(s: &str) -> (r: Vec<char>)
    ensures
        r@ == s@,
{
    let n: usize = s.unicode_len();
    let mut out: Vec<char> = Vec::new();
    let mut i: usize = 0;
    while i < n
        invariant
            i <= n,
            n == s@.len(),
            out@ == s@.take(i as int),
        decreases n - i,
    {
        out.push(s.get_char(i));
        assert(out@ =~= s@.take(i + 1));
        i = i + 1;
    }
    assert(s@.take(n as int) =~= s@);
    out
}

/// Where the text `s[lo..hi]` begins and ends without the white space around it.
pub fn trim_range(s: &[char], lo: usize, hi: usize) -> (r: (usize, usize))
    requires
        lo <= hi <= s@.len(),
    ensures
        lo <= r.0 <= r.1 <= hi,
        s@.subrange(r.0 as int, r.1 as int) == trimmed(s@.subrange(lo as int, hi as int)),
{
    let ghost whole = s@.subrange(lo as int, hi as int);
    let mut a: usize = lo;
    while a < hi && space(s[a])
        invariant
            lo <= a <= hi <= s@.len(),
            skip_spaces(s@.subrange(a as int, hi as int)) == skip_spaces(whole),
        decreases hi - a,
    {
        proof {
            let t = s@.subrange(a as int, hi as int);
            assert(t[0] == s@[a as int]);
            assert(t.skip(1) =~= s@.subrange(a + 1, hi as int));
        }
        a = a + 1;
    }
    let ghost body = s@.subrange(a as int, hi as int);
    proof {
        if a < hi {
            assert(body[0] == s@[a as int]);
        }
        assert(skip_spaces(whole) == body);
    }
    let mut b: usize = hi;
    while a < b && space(s[b - 1])
        invariant
            a <= b <= hi <= s@.len(),
            drop_spaces(s@.subrange(a as int, b as int)) == drop_spaces(body),
        decreases b,
    {
        proof {
            let t = s@.subrange(a as int, b as int);
            assert(t.last() == s@[b - 1]);
            assert(t.drop_last() =~= s@.subrange(a as int, b - 1));
        }
        b = b - 1;
    }
    proof {
        let t = s@.subrange(a as int, b as int);
        if a < b {
            assert(t.last() == s@[b - 1]);
        }
        assert(drop_spaces(t) == t);
    }
    (a, b)
}

/// A decimal digit.
pub open spec fn is_digit(c: char) -> bool {
    48 <= c as u32 <= 57
}

/// The number that a run of decimal digits stands for.
pub open spec fn decimal(s: Seq<char>) -> int
    decreases s.len(),
{
    if s.len() == 0 {
        0
    } else {
        decimal(s.drop_last()) * 10 + (s.last() as u32 - 48)
    }
}

/// A text without one leading plus sign.
pub open spec fn unsigned_part(s: Seq<char>) -> Seq<char> {
    if s.len() > 0 && s[0] == '+' {
        s.skip(1)
    } else {
        s
    }
}

/// A text as an unsigned number: digits, at least one, with at most a plus sign before them,
/// and a value that fits.
pub open spec fn parsed(s: Seq<char>) -> Option<usize> {
    let d = unsigned_part(s);
    if d.len() > 0 && (forall|i: int| 0 <= i < d.len() ==> is_digit(#[trigger] d[i])) && decimal(d)
        <= usize::MAX {
        Some(decimal(d) as usize)
    } else {
        None
    }
}

/// Parse the text `s[lo..hi]` as an unsigned number.
pub fn parse_range(s: &[char], lo: usize, hi: usize) -> (r: Option<usize>)
    requires
        lo <= hi <= s@.len(),
    ensures
        r == parsed(s@.subrange(lo as int, hi as int)),
{
    let ghost t = s@.subrange(lo as int, hi as int);
    let from: usize = if lo < hi && s[lo] == '+' {
        lo + 1
    } else {
        lo
    };
    let ghost d = unsigned_part(t);
    proof {
        if lo < hi {
            assert(t[0] == s@[lo as int]);
        }
        assert(d =~= s@.subrange(from as int, hi as int));
    }
    if from == hi {
        return None;
    }
    let mut v: usize = 0;
    let mut i: usize = from;
    let mut over: bool = false;
    while i < hi
        invariant
            from <= i <= hi <= s@.len(),
            d == s@.subrange(from as int, hi as int),
            forall|x: int| 0 <= x < i - from ==> is_digit(#[trigger] d[x]),
            !over ==> v == decimal(d.take(i - from)),
            over ==> decimal(d.take(i - from)) > usize::MAX,
            d == unsigned_part(t),
            t == s@.subrange(lo as int, hi as int),
        decreases hi - i,
    {
        let c: u32 = s[i] as u32;
        proof {
            let n = i - from;
            assert(d[n] == s@[i as int]);
            assert(d.take(n + 1).drop_last() =~= d.take(n));
            assert(d.take(n + 1).last() == d[n]);
        }
        if c < 48 || c > 57 {
            assert(!is_digit(d[i - from]));
            return None;
        }
        if !over {
            match v.checked_mul(10) {
                Some(w) => match w.checked_add((c - 48) as usize) {
                    Some(x) => {
                        v = x;
                    },
                    None => {
                        over = true;
                    },
                },
                None => {
                    over = true;
                },
            }
        }
        i = i + 1;
    }
    assert(d.take(hi - from) =~= d);
    if over {
        None
    } else {
        Some(v)
    }
}

} // verus!
