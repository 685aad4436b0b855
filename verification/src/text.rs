//! Column layout of decimal numbers: the digit counts that the affine-matrix
//! display aligns on, the padding it adds, and fixed-point notation.

use vstd::prelude::*;
use vstd::arithmetic::div_mod::lemma_add_mod_noop;
use crate::strings::{
    chars_of, char_width, char_utf8_len, decimal, lacks, lemma_split_from_nonempty, lemma_split_from_once,
    lemma_utf8_len_append, lemma_utf8_len_push, push_char, push_decimal, push_str, split, split_chars, utf8_len,
    wrap_u32,
};

verus! {

/// What `str_digits` reports for a string: the byte length of the part before
/// the first `.`, and one more than the byte length of the part between the
/// first and second `.` (0 when there is no `.`), each as a `u32` cast keeps it.
pub open spec fn spec_str_digits(s: Seq<char>) -> (u32, u32) {
    let chunks = split(s, seq!['.']);
    (
        wrap_u32(utf8_len(chunks[0])),
        if chunks.len() > 1 {
            wrap_u32(utf8_len(chunks[1]) + 1)
        } else {
            0
        },
    )
}

/// UTF-8 byte length of a character vector, as a `u32` cast keeps it.
fn utf8_len_u32(v: &Vec<char>) -> (r: u32)
    ensures
        r == wrap_u32(utf8_len(v@)),
{
    let mut r: u32 = 0;
    let mut i: usize = 0;
    proof {
        assert(v@.take(0) =~= Seq::<char>::empty());
        assert(utf8_len(Seq::<char>::empty()) == 0);
    }
    while i < v.len()
        invariant
            i <= v@.len(),
            r == wrap_u32(utf8_len(v@.take(i as int))),
        decreases v@.len() - i,
    {
        let w = char_width(v[i]);
        proof {
            assert(v@.take(i + 1) =~= v@.take(i as int).push(v@[i as int]));
            lemma_utf8_len_push(v@.take(i as int), v@[i as int]);
            lemma_add_mod_noop(utf8_len(v@.take(i as int)) as int, w as int, 0x1_0000_0000int);
            assert((w as int) % 0x1_0000_0000int == w as int);
        }
        r = ((r as u64 + w as u64) % 0x1_0000_0000u64) as u32;
        i = i + 1;
    }
    proof {
        assert(v@.take(i as int) =~= v@);
    }
    r
}

/// Counts the integral and fractional digits of a formatted number: the byte
/// length before the first `.`, and one more than the byte length of the
/// part after it (up to a second `.`), or 0 when there is no `.`.
pub fn str_digits(s: &str) -> (digits: (u32, u32))
    ensures
        digits == spec_str_digits(s@),
{
    let chars = chars_of(s);
    let mut sep: Vec<char> = Vec::new();
    sep.push('.');
    proof {
        assert(sep@ =~= seq!['.']);
    }
    let chunks = split_chars(&chars, &sep);
    proof {
        lemma_split_from_nonempty(Seq::empty(), s@, seq!['.']);
        assert(chunks@[0]@ == split(s@, seq!['.'])[0]);
    }
    let trunc_digits = utf8_len_u32(&chunks[0]);
    let fract_digits = if chunks.len() > 1 {
        proof {
            assert(chunks@[1]@ == split(s@, seq!['.'])[1]);
            lemma_add_mod_noop(utf8_len(chunks@[1]@) as int, 1, 0x1_0000_0000int);
        }
        let l = utf8_len_u32(&chunks[1]);
        ((l as u64 + 1) % 0x1_0000_0000u64) as u32
    } else {
        0
    };
    (trunc_digits, fract_digits)
}

/// The larger of two `u32` values.
pub open spec fn max_u32(a: u32, b: u32) -> u32 {
    if a >= b {
        a
    } else {
        b
    }
}

/// Component-wise maximum of the digit counts of `vals` ((0, 0) when empty).
pub open spec fn spec_max_digits(vals: Seq<Seq<char>>) -> (u32, u32)
    decreases vals.len(),
{
    if vals.len() == 0 {
        (0, 0)
    } else {
        let m = spec_max_digits(vals.drop_last());
        let d = spec_str_digits(vals.last());
        (max_u32(m.0, d.0), max_u32(m.1, d.1))
    }
}

/// The views of a sequence of string slices.
pub open spec fn str_views(vals: Seq<&str>) -> Seq<Seq<char>> {
    vals.map_values(|v: &str| v@)
}

/// The component-wise maximum of the digit counts of all values, (0, 0) for none.
pub fn calc_max_digits(vals: &[&str]) -> (max_digits: (u32, u32))
    ensures
        max_digits == spec_max_digits(str_views(vals@)),
{
    let mut m: (u32, u32) = (0, 0);
    let mut i: usize = 0;
    proof {
        assert(str_views(vals@).take(0) =~= Seq::<Seq<char>>::empty());
    }
    while i < vals.len()
        invariant
            i <= vals@.len(),
            m == spec_max_digits(str_views(vals@).take(i as int)),
        decreases vals@.len() - i,
    {
        let d = str_digits(vals[i]);
        proof {
            let t = str_views(vals@).take(i + 1);
            assert(t.drop_last() =~= str_views(vals@).take(i as int));
            assert(t.last() == vals@[i as int]@);
        }
        let a = if m.0 >= d.0 { m.0 } else { d.0 };
        let b = if m.1 >= d.1 { m.1 } else { d.1 };
        m = (a, b);
        i = i + 1;
    }
    proof {
        assert(str_views(vals@).take(i as int) =~= str_views(vals@));
    }
    m
}

/// `n` spaces.
pub open spec fn spaces(n: nat) -> Seq<char> {
    Seq::new(n, |i: int| ' ')
}

/// Appends `n` spaces to `s`.
fn push_spaces(s: &mut String, n: u32)
    ensures
        final(s)@ == old(s)@ + spaces(n as nat),
{
    let mut k: u32 = 0;
    while k < n
        invariant
            k <= n,
            s@ == old(s)@ + spaces(k as nat),
        decreases n - k,
    {
        push_char(s, ' ');
        proof {
            assert(old(s)@ + spaces((k + 1) as nat) =~= (old(s)@ + spaces(k as nat)).push(' '));
        }
        k = k + 1;
    }
}

/// Pads a formatted number with spaces so that its integral part reaches
/// `max_trunc_digits` and its fractional part `max_fract_digits`.
pub fn wrap_f64(f: &str, max_digits: (u32, u32)) -> (wrapped: String)
    requires
        spec_str_digits(f@).0 <= max_digits.0,
        spec_str_digits(f@).1 <= max_digits.1,
    ensures
        wrapped@ == spaces((max_digits.0 - spec_str_digits(f@).0) as nat) + f@ + spaces(
            (max_digits.1 - spec_str_digits(f@).1) as nat,
        ),
{
    let (max_trunc_digits, max_fract_digits) = max_digits;
    let (trunc_digits, fract_digits) = str_digits(f);
    let mut wrapped = String::new();
    push_spaces(&mut wrapped, max_trunc_digits - trunc_digits);
    push_str(&mut wrapped, f);
    push_spaces(&mut wrapped, max_fract_digits - fract_digits);
    wrapped
}


/// 10 to the power `p`.
pub open spec fn pow10(p: nat) -> nat
    decreases p,
{
    if p == 0 {
        1
    } else {
        10 * pow10((p - 1) as nat)
    }
}

/// `s` followed by as many `'0'` as it takes to reach `width` characters
/// (the `{:0<width$}` format).
pub open spec fn pad_zeros_right(s: Seq<char>, width: nat) -> Seq<char> {
    if s.len() >= width {
        s
    } else {
        s + Seq::new((width - s.len()) as nat, |i: int| '0')
    }
}

/// Fixed-point notation of `scaled` at `p` places: an optional minus sign, the
/// digits of `|scaled| / 10^p`, a `.`, and (for p > 0) the digits of
/// `|scaled| mod 10^p` filled with zeros on the right to `p` characters, as
/// the `{:0<p$}` format writes them.
pub open spec fn spec_fmt_scaled(scaled: int, p: nat) -> Seq<char> {
    let pow = pow10(p);
    let a: nat = if scaled < 0 {
        (-scaled) as nat
    } else {
        scaled as nat
    };
    (if scaled < 0 {
        seq!['-']
    } else {
        Seq::<char>::empty()
    }) + decimal(a / pow) + seq!['.'] + (if p == 0 {
        Seq::<char>::empty()
    } else {
        pad_zeros_right(decimal(a % pow), p)
    })
}

/// Number of decimal digits of `n`.
fn decimal_len(n: u64) -> (len: u64)
    ensures
        len == decimal(n as nat).len(),
        len <= 20,
    decreases n,
{
    if n < 10 {
        1
    } else {
        let l = decimal_len(n / 10);
        proof {
            assert(decimal(n as nat) == decimal((n / 10) as nat).push(crate::strings::digit_char((n % 10) as nat)));
        }
        if l >= 20 {
            assert(false) by {
                lemma_pow10_19();
                assert(((n / 10) as nat) < pow10(19));
                lemma_decimal_len_bound((n / 10) as nat, 19);
            }
        }
        l + 1
    }
}

proof fn lemma_pow10_19()
    ensures
        pow10(19) == 10_000_000_000_000_000_000,
{
    reveal_with_fuel(pow10, 20);
}

/// A number below 10^k (k >= 1) has at most k digits.
proof fn lemma_decimal_len_bound(n: nat, k: nat)
    requires
        k >= 1,
        n < pow10(k),
    ensures
        decimal(n).len() <= k,
    decreases k,
{
    if n < 10 {
    } else {
        assert(k >= 2) by {
            if k == 1 {
                assert(pow10(1) == 10) by {
                    reveal_with_fuel(pow10, 2);
                }
            }
        }
        assert(n / 10 < pow10((k - 1) as nat)) by {
            assert(pow10(k) == 10 * pow10((k - 1) as nat));
            vstd::arithmetic::div_mod::lemma_div_is_ordered_by_denominator(n as int, 1, 10);
            assert(n < 10 * pow10((k - 1) as nat));
        }
        lemma_decimal_len_bound(n / 10, (k - 1) as nat);
    }
}

/// Writes `scaled / 10^decimal_precision` in fixed-point notation (the
/// formatting half of `fmt_float`, which first scales and rounds a float).
pub fn fmt_scaled(scaled: i32, decimal_precision: u32) -> (s: String)
    requires
        decimal_precision <= 9,
        !(decimal_precision == 0 && scaled == i32::MIN),
    ensures
        s@ == spec_fmt_scaled(scaled as int, decimal_precision as nat),
{
    let mut pow: u64 = 1;
    let mut k: u32 = 0;
    while k < decimal_precision
        invariant
            k <= decimal_precision <= 9,
            pow == pow10(k as nat),
            1 <= pow <= 1_000_000_000,
        decreases decimal_precision - k,
    {
        proof {
            assert(pow10((k + 1) as nat) == 10 * pow10(k as nat));
            if k <= 8 {
                assert(pow <= 100_000_000) by {
                    lemma_pow10_le(k as nat, 8);
                    lemma_pow10_8();
                }
            }
        }
        pow = pow * 10;
        k = k + 1;
    }
    let a: u64 = if scaled < 0 {
        (-(scaled as i64)) as u64
    } else {
        scaled as u64
    };
    let mut s = String::new();
    if scaled < 0 {
        push_char(&mut s, '-');
    }
    push_decimal(&mut s, a / pow);
    push_char(&mut s, '.');
    let ghost head = s@;
    if decimal_precision > 0 {
        let frac = a % pow;
        let len = decimal_len(frac);
        proof {
            lemma_decimal_len_bound(frac as nat, decimal_precision as nat);
        }
        push_decimal(&mut s, frac);
        let ghost mid = s@;
        proof {
            assert(mid =~= head + decimal(frac as nat));
        }
        let mut j: u64 = len;
        while j < decimal_precision as u64
            invariant
                len <= j <= decimal_precision,
                s@ == mid + Seq::new((j - len) as nat, |i: int| '0'),
            decreases decimal_precision - j,
        {
            push_char(&mut s, '0');
            proof {
                assert(mid + Seq::new((j + 1 - len) as nat, |i: int| '0')
                    =~= (mid + Seq::new((j - len) as nat, |i: int| '0')).push('0'));
            }
            j = j + 1;
        }
        proof {
            let p = decimal_precision as nat;
            if decimal(frac as nat).len() >= p {
                assert(Seq::new((j - len) as nat, |i: int| '0') =~= Seq::<char>::empty());
            }
            assert(s@ =~= head + pad_zeros_right(decimal(frac as nat), p));
        }
    } else {
        assert(s@ =~= head + Seq::<char>::empty());
    }
    proof {
        assert(pow == pow10(decimal_precision as nat));
        let sign = if scaled < 0 { seq!['-'] } else { Seq::<char>::empty() };
        assert(head =~= sign + decimal((a / pow) as nat) + seq!['.']);
    }
    s
}

proof fn lemma_pow10_8()
    ensures
        pow10(8) == 100_000_000,
{
    reveal_with_fuel(pow10, 9);
}

/// `pow10` is monotone.
proof fn lemma_pow10_le(a: nat, b: nat)
    requires
        a <= b,
    ensures
        pow10(a) <= pow10(b),
    decreases b,
{
    if a < b {
        lemma_pow10_le(a, (b - 1) as nat);
    }
}

/// Every value's digit counts are within the maximum that `calc_max_digits`
/// reports, so each value can be padded to it.
pub proof fn lemma_max_digits_bounds(vals: Seq<Seq<char>>, i: int)
    requires
        0 <= i < vals.len(),
    ensures
        spec_str_digits(vals[i]).0 <= spec_max_digits(vals).0,
        spec_str_digits(vals[i]).1 <= spec_max_digits(vals).1,
    decreases vals.len(),
{
    if i < vals.len() - 1 {
        lemma_max_digits_bounds(vals.drop_last(), i);
    }
}

/// `n` spaces take `n` bytes.
pub proof fn lemma_utf8_len_spaces(n: nat)
    ensures
        utf8_len(spaces(n)) == n,
    decreases n,
{
    if n > 0 {
        lemma_utf8_len_spaces((n - 1) as nat);
        assert(spaces(n) =~= spaces((n - 1) as nat).push(' '));
        lemma_utf8_len_push(spaces((n - 1) as nat), ' ');
    }
}

/// Padding aligns: a number written `a.b` (one `.`), padded by `wrap_f64`
/// to digit counts `m` that it does not exceed, has exactly the digit counts
/// `m`, so numbers padded to the same counts line up.
pub proof fn lemma_wrap_aligns(a: Seq<char>, b: Seq<char>, m: (u32, u32))
    requires
        lacks(a, '.'),
        lacks(b, '.'),
        utf8_len(a) < 0x1_0000_0000,
        utf8_len(b) + 1 < 0x1_0000_0000,
        spec_str_digits(a + seq!['.'] + b).0 <= m.0,
        spec_str_digits(a + seq!['.'] + b).1 <= m.1,
    ensures
        ({
            let f = a + seq!['.'] + b;
            let d = spec_str_digits(f);
            spec_str_digits(spaces((m.0 - d.0) as nat) + f + spaces((m.1 - d.1) as nat)) == m
        }),
{
    let f = a + seq!['.'] + b;
    lemma_split_from_once(Seq::empty(), a, b, '.');
    assert(Seq::<char>::empty() + a =~= a);
    let d = spec_str_digits(f);
    assert(d.0 == utf8_len(a));
    assert(d.1 == utf8_len(b) + 1);
    let x = (m.0 - d.0) as nat;
    let y = (m.1 - d.1) as nat;
    let w = spaces(x) + f + spaces(y);
    assert(lacks(spaces(x) + a, '.'));
    assert(lacks(b + spaces(y), '.'));
    assert(w =~= (spaces(x) + a) + seq!['.'] + (b + spaces(y)));
    lemma_split_from_once(Seq::empty(), spaces(x) + a, b + spaces(y), '.');
    assert(Seq::<char>::empty() + (spaces(x) + a) =~= spaces(x) + a);
    lemma_utf8_len_append(spaces(x), a);
    lemma_utf8_len_append(b, spaces(y));
    lemma_utf8_len_spaces(x);
    lemma_utf8_len_spaces(y);
}

} // verus!
