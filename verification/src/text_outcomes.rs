//! What the texts that describe a machine stand for: how their parts make up the whole.

use vstd::arithmetic::mul::*;
use vstd::arithmetic::power::*;
use vstd::prelude::*;

use crate::arith::max_int;
use crate::isa::{forced_isa_spec, ForcedIsa, IsaError};
use crate::sysfs::{after, before, first_of, ids_of_list, ids_of_part, size_of_text, suffix};
use crate::text::{
    decimal, drop_spaces, folded, is_digit, is_space, parsed, same_word, skip_spaces, trimmed,
};

verus! {

/// Nothing but white space.
pub open spec fn blank(s: Seq<char>) -> bool {
    forall|i: int| 0 <= i < s.len() ==> is_space(#[trigger] s[i])
}

/// Decimal digits, at least one.
pub open spec fn digits(s: Seq<char>) -> bool {
    s.len() > 0 && forall|i: int| 0 <= i < s.len() ==> is_digit(#[trigger] s[i])
}

/// A text that begins and ends with something else than white space, or is empty.
pub open spec fn bare(s: Seq<char>) -> bool {
    s.len() > 0 ==> !is_space(s[0]) && !is_space(s.last())
}

proof fn lemma_skip_blank(a: Seq<char>, t: Seq<char>)
    requires
        blank(a),
    ensures
        skip_spaces(a + t) == skip_spaces(t),
    decreases a.len(),
{
    if a.len() > 0 {
        assert((a + t)[0] == a[0]);
        assert((a + t).skip(1) =~= a.skip(1) + t);
        assert forall|i: int| 0 <= i < a.skip(1).len() implies is_space(
            #[trigger] a.skip(1)[i],
        ) by {
            assert(is_space(a[i + 1]));
        }
        lemma_skip_blank(a.skip(1), t);
    } else {
        assert(a + t =~= t);
    }
}

proof fn lemma_drop_blank(t: Seq<char>, b: Seq<char>)
    requires
        blank(b),
    ensures
        drop_spaces(t + b) == drop_spaces(t),
    decreases b.len(),
{
    if b.len() > 0 {
        assert((t + b).last() == b.last());
        assert((t + b).drop_last() =~= t + b.drop_last());
        lemma_drop_blank(t, b.drop_last());
    } else {
        assert(t + b =~= t);
    }
}

/// Trimming takes away the white space around a text, all of it and nothing else.
pub proof fn law_trimming(a: Seq<char>, t: Seq<char>, b: Seq<char>)
    requires
        blank(a),
        blank(b),
        bare(t),
    ensures
        trimmed(a + t + b) == t,
{
    assert(a + t + b =~= a + (t + b));
    lemma_skip_blank(a, t + b);
    if t.len() > 0 {
        assert((t + b)[0] == t[0]);
        assert(skip_spaces(t + b) == t + b);
        lemma_drop_blank(t, b);
    } else {
        let e = Seq::<char>::empty();
        assert(t + b =~= b + e);
        lemma_skip_blank(b, e);
        assert(t =~= e);
    }
}

/// White space of the ASCII range: tab, the line ends, and the space. A digit is none.
pub proof fn law_ascii_spaces(c: char)
    requires
        (c as u32) < 128,
    ensures
        is_space(c) <==> c == ' ' || c == '\t' || c == '\n' || c == '\r' || c as u32 == 11 || c
            as u32 == 12,
        is_digit(c) <==> c == '0' || c == '1' || c == '2' || c == '3' || c == '4' || c == '5' || c
            == '6' || c == '7' || c == '8' || c == '9',
{
}

/// The number that digits stand for, written in two parts.
pub proof fn law_decimal_parts(a: Seq<char>, b: Seq<char>)
    ensures
        decimal(a + b) == decimal(a) * pow(10, b.len()) + decimal(b),
    decreases b.len(),
{
    if b.len() > 0 {
        let c = b.drop_last();
        assert((a + b).drop_last() =~= a + c);
        assert((a + b).last() == b.last());
        law_decimal_parts(a, c);
        lemma_pow1(10);
        lemma_pow_adds(10, c.len(), 1);
        let (x, p, y) = (decimal(a), pow(10, c.len()), decimal(c));
        assert((x * p + y) * 10 == x * (p * 10) + y * 10) by (nonlinear_arith);
    } else {
        assert(a + b =~= a);
        lemma_pow0(10);
        lemma_mul_basics(decimal(a));
    }
}

/// One digit stands for its distance from zero.
pub proof fn law_decimal_digit(c: char)
    requires
        is_digit(c),
    ensures
        decimal(seq![c]) == c as u32 - '0' as u32,
        0 <= decimal(seq![c]) <= 9,
{
    reveal_with_fuel(decimal, 2);
    assert(seq![c].drop_last() =~= Seq::<char>::empty());
}

/// Digits stand for their number, where it fits, with or without a plus sign and with or without
/// more zeros in front. A text with anything else in it is no number.
pub proof fn law_numbers(d: Seq<char>, s: Seq<char>, i: int)
    requires
        digits(d),
    ensures
        decimal(d) >= 0,
        parsed(d) == (if decimal(d) <= usize::MAX {
            Some(decimal(d) as usize)
        } else {
            None
        }),
        parsed(seq!['+'] + d) == parsed(d),
        parsed(seq!['0'] + d) == parsed(d),
        0 < i < s.len() && !is_digit(s[i]) ==> parsed(s) is None,
        s.len() > 0 && !is_digit(s[0]) && s[0] != '+' ==> parsed(s) is None,
        parsed(Seq::empty()) is None,
        parsed(seq!['+']) is None,
{
    lemma_decimal_nonneg(d);
    assert(is_digit(d[0]));
    let p = seq!['+'] + d;
    assert(p[0] == '+');
    assert(p.skip(1) =~= d);
    let z = seq!['0'] + d;
    assert(z[0] == '0');
    law_decimal_parts(seq!['0'], d);
    law_decimal_digit('0');
    lemma_mul_basics(pow(10, d.len()));
    assert forall|x: int| 0 <= x < z.len() implies is_digit(#[trigger] z[x]) by {
        if x > 0 {
            assert(z[x] == d[x - 1]);
        }
    }
    if 0 < i < s.len() && !is_digit(s[i]) && s[0] == '+' {
        assert(s.skip(1)[i - 1] == s[i]);
    }
    assert(seq!['+'].skip(1) =~= Seq::<char>::empty());
}

/// Digits are bare, and so is a text that begins and ends with digits.
proof fn lemma_digits_are_bare(d: Seq<char>)
    requires
        digits(d),
    ensures
        bare(d),
        trimmed(d) == d,
{
    let e = Seq::<char>::empty();
    assert(is_digit(d[0]) && is_digit(d.last()));
    law_trimming(e, d, e);
    assert(e + d + e =~= d);
}

/// A size in kibibytes is 1024 times one in bytes, one in mebibytes 1024 times one in kibibytes
/// and one in gibibytes 1024 times one in mebibytes. A size that does not fit is none, and neither
/// is a unit alone.
pub proof fn law_sizes(d: Seq<char>)
    requires
        digits(d),
    ensures
        size_of_text(d) == parsed(d),
        ({
            let (k, m, g) = (
                size_of_text(d.push('K')),
                size_of_text(d.push('M')),
                size_of_text(d.push('G')),
            );
            let v = decimal(d);
            &&& k is Some <==> 1024 * v <= usize::MAX
            &&& k matches Some(x) ==> x == 1024 * v
            &&& m is Some <==> 1048576 * v <= usize::MAX
            &&& m matches Some(x) ==> x == 1024 * k->0
            &&& g is Some <==> 1073741824 * v <= usize::MAX
            &&& g matches Some(x) ==> x == 1024 * m->0
            &&& size_of_text(d.push('k')) == k
            &&& size_of_text(d.push('m')) == m
            &&& size_of_text(d.push('g')) == g
        }),
        size_of_text(Seq::empty()) is None,
        size_of_text(seq!['K']) is None,
        size_of_text(seq!['M']) is None,
        size_of_text(seq!['G']) is None,
{
    let e = Seq::<char>::empty();
    lemma_digits_are_bare(d);
    lemma_decimal_nonneg(d);
    law_numbers(d, d, 0);
    assert(is_digit(d.last()));
    assert(suffix(d.last()) is None);
    lemma_mul_basics(decimal(d));
    if let Some(v) = parsed(d) {
        assert(size_of_text(d) == Some((v * 1usize) as usize));
    } else {
        assert(size_of_text(d) is None);
    }
    lemma_unit(d, 'K', 1024);
    lemma_unit(d, 'k', 1024);
    lemma_unit(d, 'M', 1048576);
    lemma_unit(d, 'm', 1048576);
    lemma_unit(d, 'G', 1073741824);
    lemma_unit(d, 'g', 1073741824);
    assert(seq!['K'].drop_last() =~= e);
    assert(seq!['M'].drop_last() =~= e);
    assert(seq!['G'].drop_last() =~= e);
    law_trimming(e, e, e);
    assert(e + e + e =~= e);
}

/// A size with a unit.
proof fn lemma_unit(d: Seq<char>, c: char, unit: usize)
    requires
        digits(d),
        suffix(c) == Some(unit),
        unit > 0,
    ensures
        size_of_text(d.push(c)) == (if decimal(d) * unit <= usize::MAX {
            Some((decimal(d) * unit) as usize)
        } else {
            None
        }),
{
    lemma_digits_are_bare(d);
    law_numbers(d, d, 0);
    lemma_decimal_nonneg(d);
    assert(d.push(c).drop_last() =~= d);
    assert(d.push(c).last() == c);
    let v = decimal(d);
    assert(v * unit >= v) by (nonlinear_arith)
        requires
            v >= 0,
            unit > 0,
    ;
}

proof fn lemma_decimal_nonneg(d: Seq<char>)
    requires
        forall|i: int| 0 <= i < d.len() ==> is_digit(#[trigger] d[i]),
    ensures
        decimal(d) >= 0,
    decreases d.len(),
{
    if d.len() > 0 {
        assert(is_digit(d.last()));
        lemma_decimal_nonneg(d.drop_last());
    }
}

proof fn lemma_first_of_bounds(s: Seq<char>, sep: char)
    ensures
        0 <= first_of(s, sep) <= s.len(),
        first_of(s, sep) < s.len() ==> s[first_of(s, sep)] == sep,
        forall|i: int| 0 <= i < first_of(s, sep) ==> #[trigger] s[i] != sep,
    decreases s.len(),
{
    if s.len() > 0 && s[0] != sep {
        let t = s.skip(1);
        lemma_first_of_bounds(t, sep);
        assert forall|i: int| 0 <= i < first_of(s, sep) implies #[trigger] s[i] != sep by {
            if i > 0 {
                assert(t[i - 1] == s[i]);
            }
        }
    }
}

/// Where the first separator stands in two texts with a separator between them.
proof fn lemma_first_of_joined(a: Seq<char>, sep: char, b: Seq<char>)
    ensures
        first_of(a.push(sep) + b, sep) == first_of(a, sep),
    decreases a.len(),
{
    let s = a.push(sep) + b;
    if a.len() > 0 && a[0] != sep {
        assert(s[0] == a[0]);
        assert(s.skip(1) =~= a.skip(1).push(sep) + b);
        lemma_first_of_joined(a.skip(1), sep, b);
    } else if a.len() > 0 {
        assert(s[0] == a[0]);
    } else {
        assert(s[0] == sep);
    }
}

/// Two lists joined by a comma name the CPUs of both.
pub proof fn law_joined_lists(a: Seq<char>, b: Seq<char>)
    ensures
        ids_of_list(a.push(',') + b) == ids_of_list(a) + ids_of_list(b),
    decreases a.len(),
{
    let s = a.push(',') + b;
    let at = first_of(a, ',');
    lemma_first_of_joined(a, ',', b);
    lemma_first_of_bounds(a, ',');
    assert(at < s.len());
    if at < a.len() {
        assert(before(s, ',') =~= before(a, ','));
        assert(after(s, ',') =~= after(a, ',').push(',') + b);
        law_joined_lists(after(a, ','), b);
    } else {
        assert(before(s, ',') =~= a);
        assert(after(s, ',') =~= b);
    }
}

proof fn lemma_number_has_no_dash(x: Seq<char>)
    requires
        digits(x),
        decimal(x) <= usize::MAX,
    ensures
        first_of(x, '-') == x.len(),
        trimmed(x) == x,
        parsed(x) == Some(decimal(x) as usize),
        decimal(x) >= 0,
{
    lemma_digits_are_bare(x);
    lemma_decimal_nonneg(x);
    law_numbers(x, x, 0);
    lemma_first_of_bounds(x, '-');
    if first_of(x, '-') < x.len() {
        assert(is_digit(x[first_of(x, '-')]));
    }
}

/// A range by what stands on either side of its dash.
proof fn lemma_range(x: Seq<char>, y: Seq<char>)
    requires
        first_of(x, '-') == x.len(),
        trimmed(x) == x,
        trimmed(y) == y,
    ensures
        ids_of_part(x.push('-') + y) == (match (parsed(x), parsed(y)) {
            (Some(a), Some(b)) => if b >= a {
                b - a + 1
            } else {
                0
            },
            _ => 0,
        }),
{
    let r = x.push('-') + y;
    lemma_first_of_joined(x, '-', y);
    assert(before(r, '-') =~= x);
    assert(after(r, '-') =~= y);
}

/// A number names one CPU, and a range all from its first to its last one; a range that runs
/// backwards, and a part that is no number, name none.
pub proof fn law_list_parts(x: Seq<char>, y: Seq<char>)
    requires
        digits(x),
        digits(y),
        decimal(x) <= usize::MAX,
        decimal(y) <= usize::MAX,
    ensures
        ids_of_part(x) == 1,
        ids_of_part(x.push('-') + y) == max_int(decimal(y) - decimal(x) + 1, 0),
        ids_of_part(x.push('-')) == 0,
        ids_of_part(seq!['-'] + y) == 0,
        ids_of_part(Seq::empty()) == 0,
{
    let e = Seq::<char>::empty();
    lemma_number_has_no_dash(x);
    lemma_number_has_no_dash(y);
    law_numbers(x, x, 0);
    law_trimming(e, e, e);
    assert(e + e + e =~= e);
    lemma_range(x, y);
    lemma_range(x, e);
    assert(x.push('-') + e =~= x.push('-'));
    lemma_range(e, y);
    assert(e.push('-') + y =~= seq!['-'] + y);
}

/// Words that differ in the case of ASCII letters alone are the same; no two digits, and no digit
/// and letter, are taken for each other.
pub proof fn law_folding(c: char, d: char)
    ensures
        folded(c) == folded(d) <==> c == d || (65 <= c as u32 <= 90 && d as u32 == c as u32 + 32)
            || (65 <= d as u32 <= 90 && c as u32 == d as u32 + 32),
{
}

/// A pin is read in any case, with any white space around it.
pub proof fn law_pins_are_read_loosely(a: Seq<char>, t: Seq<char>, b: Seq<char>, u: Seq<char>)
    requires
        blank(a),
        blank(b),
        bare(t),
        bare(u),
        same_word(t, u),
    ensures
        forced_isa_spec(Some(a + t + b)) == forced_isa_spec(Some(u)),
{
    let e = Seq::<char>::empty();
    law_trimming(a, t, b);
    law_trimming(e, u, e);
    assert(e + u + e =~= u);
    lemma_same_words(t, u, "auto"@);
    lemma_same_words(t, u, "scalar"@);
    lemma_same_words(t, u, "fma"@);
    lemma_same_words(t, u, "avx2"@);
    lemma_same_words(t, u, "avx512f"@);
    lemma_same_words(t, u, "avx512vnni"@);
    lemma_same_words(t, u, "vnni"@);
    lemma_same_words(t, u, "avx512bf16"@);
    lemma_same_words(t, u, "bf16"@);
    lemma_same_words(t, u, "neon"@);
    lemma_same_words(t, u, "simd128"@);
    lemma_same_words(t, u, "wasm"@);
}

proof fn lemma_same_words(t: Seq<char>, u: Seq<char>, w: Seq<char>)
    requires
        same_word(t, u),
    ensures
        same_word(t, w) == same_word(u, w),
{
    if same_word(t, w) {
        assert forall|i: int| 0 <= i < u.len() implies folded(#[trigger] u[i]) == folded(w[i]) by {
            assert(folded(t[i]) == folded(w[i]));
        }
    }
    if same_word(u, w) {
        assert forall|i: int| 0 <= i < t.len() implies folded(#[trigger] t[i]) == folded(w[i]) by {
            assert(folded(u[i]) == folded(w[i]));
        }
    }
}

/// The names of the kernels: each pin is read from its names and from no other text.
pub proof fn law_pin_names(t: Seq<char>)
    requires
        bare(t),
    ensures
        ({
            let r = forced_isa_spec(Some(t));
            &&& r == Ok::<ForcedIsa, IsaError>(ForcedIsa::Auto) <==> t.len() == 0 || same_word(
                t,
                "auto"@,
            )
            &&& r == Ok::<ForcedIsa, IsaError>(ForcedIsa::Scalar) <==> same_word(t, "scalar"@)
            &&& r == Ok::<ForcedIsa, IsaError>(ForcedIsa::Fma) <==> same_word(t, "fma"@)
                || same_word(t, "avx2"@)
            &&& r == Ok::<ForcedIsa, IsaError>(ForcedIsa::Avx512F) <==> same_word(t, "avx512f"@)
            &&& r == Ok::<ForcedIsa, IsaError>(ForcedIsa::Avx512Vnni) <==> same_word(
                t,
                "avx512vnni"@,
            ) || same_word(t, "vnni"@)
            &&& r == Ok::<ForcedIsa, IsaError>(ForcedIsa::Avx512Bf16) <==> same_word(
                t,
                "avx512bf16"@,
            ) || same_word(t, "bf16"@)
            &&& r == Ok::<ForcedIsa, IsaError>(ForcedIsa::Neon) <==> same_word(t, "neon"@)
            &&& r == Ok::<ForcedIsa, IsaError>(ForcedIsa::Simd128) <==> same_word(t, "simd128"@)
                || same_word(t, "wasm"@)
            &&& r matches Err(e) ==> e == IsaError::UnknownValue
        }),
        forced_isa_spec(None) == Ok::<ForcedIsa, IsaError>(ForcedIsa::Auto),
{
    let e = Seq::<char>::empty();
    law_trimming(e, t, e);
    assert(e + t + e =~= t);
    reveal_strlit("auto");
    reveal_strlit("scalar");
    reveal_strlit("fma");
    reveal_strlit("avx2");
    reveal_strlit("avx512f");
    reveal_strlit("avx512vnni");
    reveal_strlit("vnni");
    reveal_strlit("avx512bf16");
    reveal_strlit("bf16");
    reveal_strlit("neon");
    reveal_strlit("simd128");
    reveal_strlit("wasm");
    if t.len() > 0 {
        assert(t[0] == t[0]);
    }
    if t.len() > 6 {
        assert(t[6] == t[6]);
    }
}

} // verus!
