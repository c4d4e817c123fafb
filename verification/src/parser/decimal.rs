//! Decimal numbers as `str::parse::<f64>` reads them, scaled to an integer
//! exactly.
//!
//! A `df` size such as `1.9G` is a number and a unit. The number's grammar is
//! that of Rust's float parsing (an optional sign, digits with an optional
//! point, an optional exponent, or `inf`/`infinity`/`nan` in any case); its
//! value times the unit, rounded down and capped at `u64::MAX`, is computed
//! here in integers, so it is exact where a float would round.

use vstd::prelude::*;

use crate::parser::cpuinfo::{eq_ignore_ascii_case, eq_ignore_ascii_case_vec};
use crate::text::{
    all_digits, all_digits_vec, chars_of, copy_range, digits_u64, digits_value, find, find_class,
    is_digit, lemma_digits_value_push, lemma_find, push_chars,
    unsigned_digits, CharClass,
};
use vstd::arithmetic::div_mod::{lemma_fundamental_div_mod, lemma_fundamental_div_mod_converse};

verus! {

pub open spec fn pow10(k: nat) -> nat
    decreases k,
{
    if k == 0 {
        1
    } else {
        10 * pow10((k - 1) as nat)
    }
}

/// The integer and fraction digits of a plain decimal `digits[.digits]`
/// (either side of the point may be empty, not both).
pub open spec fn decimal_parts(t: Seq<char>) -> Option<(Seq<char>, Seq<char>)> {
    let (i, f) = match find(t, CharClass::Is('.')) {
        Some(k) => (t.take(k), t.skip(k + 1)),
        None => (t, Seq::<char>::empty()),
    };
    if all_digits(i) && all_digits(f) && i.len() + f.len() > 0 {
        Some((i, f))
    } else {
        None
    }
}

/// `n` zero digits.
pub open spec fn zeros(n: nat) -> Seq<char> {
    Seq::new(n, |i: int| '0')
}

/// An exponent: an optional sign, then at least one digit.
pub open spec fn signed_exponent(s: Seq<char>) -> Option<int> {
    if s.len() > 0 && (s[0] == '+' || s[0] == '-') {
        let d = s.drop_first();
        if d.len() > 0 && all_digits(d) {
            Some(
                if s[0] == '-' {
                    -(digits_value(d) as int)
                } else {
                    digits_value(d) as int
                },
            )
        } else {
            None
        }
    } else if s.len() > 0 && all_digits(s) {
        Some(digits_value(s) as int)
    } else {
        None
    }
}

/// A finite number without its sign: the integer digits, the fraction
/// digits and the exponent (after `e` or `E`, 0 when there is none).
pub open spec fn float_parts(t: Seq<char>) -> Option<(Seq<char>, Seq<char>, int)> {
    match find(t, CharClass::Either('e', 'E')) {
        Some(k) => match decimal_parts(t.take(k)) {
            Some((i, f)) => match signed_exponent(t.skip(k + 1)) {
                Some(e) => Some((i, f, e)),
                None => None,
            },
            None => None,
        },
        None => match decimal_parts(t) {
            Some((i, f)) => Some((i, f, 0)),
            None => None,
        },
    }
}

/// `m` times `d` times ten to the `x`, rounded down.
pub open spec fn shifted(d: nat, x: int, m: nat) -> nat {
    if x >= 0 {
        d * m * pow10(x as nat)
    } else {
        d * m / pow10((-x) as nat)
    }
}

/// `m` times the number `i.f` times ten to the `e`, rounded down.
pub open spec fn scaled_value(i: Seq<char>, f: Seq<char>, e: int, m: nat) -> nat {
    shifted(digits_value(i + f), e - f.len(), m)
}

/// Float parsing's spellings of infinity.
pub open spec fn is_infinity(u: Seq<char>) -> bool {
    eq_ignore_ascii_case(u, "inf"@) || eq_ignore_ascii_case(u, "infinity"@)
}

pub open spec fn capped(v: nat) -> u64 {
    if v > u64::MAX {
        u64::MAX
    } else {
        v as u64
    }
}

/// `m` times the number `t`, rounded down and capped at `u64::MAX`: a
/// negative number (or NaN) counts as 0, infinity as `u64::MAX`, and so does
/// anything that is not a number count as 0.
pub open spec fn scaled_decimal(t: Seq<char>, m: nat) -> u64 {
    if t.len() > 0 && t[0] == '-' {
        0
    } else {
        let u = unsigned_digits(t);
        if is_infinity(u) {
            u64::MAX
        } else {
            match float_parts(u) {
                Some((i, f, e)) => capped(scaled_value(i, f, e, m)),
                None => 0,
            }
        }
    }
}

proof fn lemma_digits_front(c: char, s: Seq<char>)
    ensures
        digits_value(seq![c] + s) == (((c as u32) - ('0' as u32)) as nat) * pow10(s.len())
            + digits_value(s),
    decreases s.len(),
{
    let d: nat = ((c as u32) - ('0' as u32)) as nat;
    if s.len() == 0 {
        assert((seq![c] + s).drop_last() =~= Seq::<char>::empty());
        assert((seq![c] + s).last() == c);
        assert(digits_value(Seq::<char>::empty()) == 0);
        assert(digits_value(seq![c] + s) == d);
        assert(pow10(0) == 1);
    } else {
        lemma_digits_front(c, s.drop_last());
        assert((seq![c] + s).drop_last() =~= seq![c] + s.drop_last());
        assert((seq![c] + s).last() == s.last());
        let p = pow10((s.len() - 1) as nat);
        let a = digits_value(s.drop_last());
        let l: nat = ((s.last() as u32) - ('0' as u32)) as nat;
        assert((d * p + a) * 10 + l == d * (10 * p) + (a * 10 + l)) by (nonlinear_arith);
        assert(digits_value(seq![c] + s) == digits_value(seq![c] + s.drop_last()) * 10 + l);
        assert(digits_value(s) == a * 10 + l);
        assert(pow10(s.len()) == 10 * p);
    }
}

proof fn lemma_digits_below_pow(s: Seq<char>)
    requires
        all_digits(s),
    ensures
        digits_value(s) < pow10(s.len()),
    decreases s.len(),
{
    if s.len() > 0 {
        assert(all_digits(s.drop_last())) by {
            assert forall|j: int| 0 <= j < s.len() - 1 implies is_digit(
                #[trigger] s.drop_last()[j],
            ) by {
                assert(s.drop_last()[j] == s[j]);
            }
        }
        lemma_digits_below_pow(s.drop_last());
        assert(is_digit(s[s.len() - 1]));
    }
}

/// One step of scaling a fraction from its last digit back to its first.
proof fn lemma_frac_step(a: int, v: int, p: int, m: int)
    requires
        0 <= a < 10,
        0 <= v < p,
        m >= 1,
    ensures
        ((a * p + v) * m) / (10 * p) == (a * m + (v * m) / p) / 10,
{
    let q = (v * m) / p;
    let r = (v * m) % p;
    lemma_fundamental_div_mod(v * m, p);
    assert(0 <= r < p);
    let s = (a * m + q) / 10;
    let u = (a * m + q) % 10;
    lemma_fundamental_div_mod(a * m + q, 10);
    assert(0 <= u < 10);
    assert((a * p + v) * m == s * (10 * p) + (u * p + r)) by (nonlinear_arith)
        requires
            v * m == p * q + r,
            a * m + q == 10 * s + u,
    ;
    assert(0 <= u * p + r < 10 * p) by (nonlinear_arith)
        requires
            0 <= u < 10,
            0 <= r < p,
    ;
    lemma_fundamental_div_mod_converse((a * p + v) * m, 10 * p, s, u * p + r);
}

/// `m` times the fraction `0.f`, rounded down.
fn scaled_fraction(f: &Vec<char>, m: u64) -> (r: u64)
    requires
        all_digits(f@),
        1 <= m <= 0x4000_0000,
    ensures
        r == digits_value(f@) * (m as nat) / pow10(f@.len()),
{
    let mut t: u64 = 0;
    let mut i: usize = f.len();
    assert(f@.skip(i as int) =~= Seq::<char>::empty());
    while i > 0
        invariant
            i <= f.len(),
            all_digits(f@),
            1 <= m <= 0x4000_0000,
            t <= m,
            t == digits_value(f@.skip(i as int)) * (m as nat) / pow10((f.len() - i) as nat),
        decreases i,
    {
        let c = f[i - 1];
        assert(is_digit(f@[i - 1]));
        let d: u64 = ((c as u32) - ('0' as u32)) as u64;
        assert(d <= 9);
        let ghost rest = f@.skip(i as int);
        let ghost k = (f.len() - i) as nat;
        proof {
            assert(f@.skip(i - 1) =~= seq![c] + rest);
            lemma_digits_front(c, rest);
            assert(all_digits(rest)) by {
                assert forall|j: int| 0 <= j < rest.len() implies is_digit(#[trigger] rest[j]) by {
                    assert(rest[j] == f@[i + j]);
                }
            }
            lemma_digits_below_pow(rest);
            lemma_frac_step(d as int, digits_value(rest) as int, pow10(k) as int, m as int);
            assert(pow10((k + 1) as nat) == 10 * pow10(k));
            assert(d * m <= 9 * 0x4000_0000) by (nonlinear_arith)
                requires
                    d <= 9,
                    m <= 0x4000_0000,
            ;
            assert(d * m <= 9 * m) by (nonlinear_arith)
                requires
                    d <= 9,
            ;
        }
        t = (d * m + t) / 10;
        i -= 1;
    }
    assert(f@.skip(0) =~= f@);
    t
}

proof fn lemma_pow10_add(a: nat, b: nat)
    ensures
        pow10(a + b) == pow10(a) * pow10(b),
    decreases b,
{
    if b > 0 {
        let b1 = (b - 1) as nat;
        lemma_pow10_add(a, b1);
        let pa = pow10(a);
        let pb1 = pow10(b1);
        assert(pow10(a + b1) == pa * pb1);
        assert(a + b == (a + b1) + 1);
        assert(pow10(a + b) == 10 * pow10(a + b1));
        assert(pow10(b) == 10 * pb1);
        assert(pa * (10 * pb1) == 10 * (pa * pb1)) by (nonlinear_arith);
    } else {
        assert(pow10(0) == 1);
        assert(a + b == a);
    }
}

proof fn lemma_pow10_pos(a: nat)
    ensures
        pow10(a) >= 1,
    decreases a,
{
    if a > 0 {
        lemma_pow10_pos((a - 1) as nat);
    }
}

proof fn lemma_pow10_mono(a: nat, b: nat)
    requires
        a <= b,
    ensures
        pow10(a) <= pow10(b),
{
    lemma_pow10_add(a, (b - a) as nat);
    lemma_pow10_pos((b - a) as nat);
    lemma_pow10_pos(a);
    assert(pow10(a) * pow10((b - a) as nat) >= pow10(a)) by (nonlinear_arith)
        requires
            pow10((b - a) as nat) >= 1,
            pow10(a) >= 1,
    ;
}

/// The value of digits `a` followed by digits `b`.
proof fn lemma_digits_concat(a: Seq<char>, b: Seq<char>)
    ensures
        digits_value(a + b) == digits_value(a) * pow10(b.len()) + digits_value(b),
    decreases b.len(),
{
    if b.len() == 0 {
        assert(a + b =~= a);
        assert(pow10(0) == 1);
        assert(digits_value(b) == 0);
    } else {
        let c = b.last();
        let bd = b.drop_last();
        lemma_digits_concat(a, bd);
        assert((a + b) =~= (a + bd).push(c));
        assert(b =~= bd.push(c));
        lemma_digits_value_push(a + bd, c);
        lemma_digits_value_push(bd, c);
        let p = pow10(bd.len());
        let va = digits_value(a);
        let vb = digits_value(bd);
        let l: nat = ((c as u32) - ('0' as u32)) as nat;
        assert(digits_value(a + bd) == va * p + vb);
        assert(digits_value(a + b) == digits_value(a + bd) * 10 + l);
        assert(digits_value(b) == vb * 10 + l);
        assert(pow10(b.len()) == 10 * p);
        assert((va * p + vb) * 10 + l == va * (10 * p) + (vb * 10 + l)) by (nonlinear_arith);
    }
}

proof fn lemma_zeros_value(n: nat)
    ensures
        digits_value(zeros(n)) == 0,
        all_digits(zeros(n)),
    decreases n,
{
    if n > 0 {
        lemma_zeros_value((n - 1) as nat);
        assert(zeros(n).drop_last() =~= zeros((n - 1) as nat));
    }
}

/// Digits whose value is 0 are all zeros, and the other way round.
proof fn lemma_zero_value(s: Seq<char>)
    requires
        all_digits(s),
    ensures
        digits_value(s) == 0 <==> (forall|i: int| 0 <= i < s.len() ==> #[trigger] s[i] == '0'),
    decreases s.len(),
{
    if s.len() > 0 {
        let d = s.drop_last();
        assert(all_digits(d)) by {
            assert forall|j: int| 0 <= j < d.len() implies is_digit(#[trigger] d[j]) by {
                assert(d[j] == s[j]);
            }
        }
        lemma_zero_value(d);
        assert(is_digit(s[s.len() - 1]));
        if digits_value(s) == 0 {
            assert forall|i: int| 0 <= i < s.len() implies #[trigger] s[i] == '0' by {
                if i < s.len() - 1 {
                    assert(d[i] == s[i]);
                }
            }
        }
        if forall|i: int| 0 <= i < s.len() ==> #[trigger] s[i] == '0' {
            assert forall|i: int| 0 <= i < d.len() implies #[trigger] d[i] == '0' by {
                assert(d[i] == s[i]);
            }
            assert(s[s.len() - 1] == '0');
        }
    }
}

/// Dividing `(a * p + b) * m` by `p` leaves `a * m` plus the share of `b`.
proof fn lemma_div_split(a: int, b: int, p: int, m: int)
    requires
        a >= 0,
        b >= 0,
        p > 0,
        m >= 0,
    ensures
        ((a * p + b) * m) / p == a * m + (b * m) / p,
{
    let q = (b * m) / p;
    let r = (b * m) % p;
    lemma_fundamental_div_mod(b * m, p);
    assert((a * p + b) * m == (a * m + q) * p + r) by (nonlinear_arith)
        requires
            b * m == p * q + r,
    ;
    assert(0 <= r < p);
    lemma_fundamental_div_mod_converse((a * p + b) * m, p, a * m + q, r);
}

proof fn lemma_pow10_20()
    ensures
        pow10(20) == 100_000_000_000_000_000_000nat,
{
    reveal_with_fuel(pow10, 21);
}

/// [`digits_value`] of `v`, capped at `cap`.
fn digits_capped(v: &Vec<char>, cap: u128) -> (r: u128)
    requires
        all_digits(v@),
        cap <= 0x0100_0000_0000_0000_0000_0000_0000_0000,
    ensures
        r == if digits_value(v@) < cap {
            digits_value(v@)
        } else {
            cap as nat
        },
{
    let mut acc: u128 = 0;
    let mut i: usize = 0;
    while i < v.len()
        invariant
            i <= v.len(),
            all_digits(v@),
            cap <= 0x0100_0000_0000_0000_0000_0000_0000_0000,
            acc == if digits_value(v@.take(i as int)) < cap {
                digits_value(v@.take(i as int))
            } else {
                cap as nat
            },
        decreases v.len() - i,
    {
        let c = v[i];
        assert(is_digit(v@[i as int]));
        let d: u128 = ((c as u32) - ('0' as u32)) as u128;
        proof {
            assert(v@.take(i + 1) =~= v@.take(i as int).push(c));
            lemma_digits_value_push(v@.take(i as int), c);
        }
        if acc < cap {
            let next = acc * 10 + d;
            acc = if next < cap {
                next
            } else {
                cap
            };
        }
        i += 1;
    }
    assert(v@.take(i as int) =~= v@);
    acc
}

/// `m` times `i.f`, rounded down and capped: the integer digits scaled, plus
/// the scaled fraction.
fn scaled_point(ip: &Vec<char>, fp: &Vec<char>, m: u64) -> (r: u64)
    requires
        all_digits(ip@),
        all_digits(fp@),
        1 <= m <= 0x4000_0000,
    ensures
        r == capped(digits_value(ip@) * (m as nat) + digits_value(fp@) * (m as nat) / pow10(
            fp@.len(),
        )),
{
    let frac = scaled_fraction(fp, m);
    assert(ip@.skip(0) =~= ip@);
    match digits_u64(ip, 0) {
        None => {
            assert(digits_value(ip@) * m >= digits_value(ip@)) by (nonlinear_arith)
                requires
                    m >= 1,
            ;
            u64::MAX
        },
        Some(n) => match n.checked_mul(m) {
            None => u64::MAX,
            Some(nm) => match nm.checked_add(frac) {
                None => u64::MAX,
                Some(v) => v,
            },
        },
    }
}

fn zeros_vec(n: usize) -> (r: Vec<char>)
    ensures
        r@ == zeros(n as nat),
{
    let mut r: Vec<char> = Vec::new();
    let mut i: usize = 0;
    while i < n
        invariant
            i <= n,
            r@ == zeros(i as nat),
        decreases n - i,
    {
        r.push('0');
        i += 1;
        assert(r@ =~= zeros(i as nat));
    }
    r
}

/// The integer and fraction digits of `v` split at the first `.`.
fn split_point(v: &Vec<char>) -> (r: (Vec<char>, Vec<char>))
    ensures
        ({
            let (i, f) = match find(v@, CharClass::Is('.')) {
                Some(k) => (v@.take(k), v@.skip(k + 1)),
                None => (v@, Seq::<char>::empty()),
            };
            r.0@ == i && r.1@ == f
        }),
{
    proof {
        lemma_find(v@, CharClass::Is('.'));
    }
    match find_class(v, CharClass::Is('.')) {
        Some(k) => {
            let a = copy_range(v, 0, k);
            let b = copy_range(v, k + 1, v.len());
            assert(a@ =~= v@.take(k as int));
            assert(b@ =~= v@.skip(k + 1));
            (a, b)
        },
        None => {
            let a = copy_range(v, 0, v.len());
            assert(a@ =~= v@);
            (a, Vec::new())
        },
    }
}

/// Exponents at least this large in size decide the result on their own.
const EXPONENT_CAP: u128 = 0x10_0000_0000_0000_0000_0000_0000;

/// The exponent `s` (sign and digits), its size capped at [`EXPONENT_CAP`].
fn exponent_of(s: &Vec<char>) -> (r: Option<i128>)
    ensures
        match signed_exponent(s@) {
            None => r is None,
            Some(e) => r matches Some(x) && (if e >= EXPONENT_CAP {
                x == EXPONENT_CAP
            } else if e <= -EXPONENT_CAP {
                x == -EXPONENT_CAP
            } else {
                x == e
            }),
        },
{
    if s.len() == 0 {
        return None;
    }
    let signed = s[0] == '+' || s[0] == '-';
    let from: usize = if signed {
        1
    } else {
        0
    };
    let ds = copy_range(s, from, s.len());
    if signed {
        assert(ds@ =~= s@.drop_first());
    } else {
        assert(ds@ =~= s@);
    }
    if ds.len() == 0 || !all_digits_vec(&ds) {
        return None;
    }
    let mag = digits_capped(&ds, EXPONENT_CAP);
    if signed && s[0] == '-' {
        Some(-(mag as i128))
    } else {
        Some(mag as i128)
    }
}

/// A large enough exponent makes any non-zero number too large.
proof fn lemma_shift_large(d: nat, x: int, m: nat)
    requires
        d >= 1,
        m >= 1,
        x >= 20,
    ensures
        shifted(d, x, m) > u64::MAX,
{
    lemma_pow10_mono(20, x as nat);
    lemma_pow10_20();
    assert(d * m * pow10(x as nat) >= pow10(x as nat)) by (nonlinear_arith)
        requires
            d >= 1,
            m >= 1,
            pow10(x as nat) >= 1,
    ;
}

/// A small enough exponent makes a number of `len` digits round down to 0.
proof fn lemma_shift_small(d: nat, len: nat, k: int, m: nat)
    requires
        d < pow10(len),
        m <= 0x4000_0000,
        k >= len + 10,
    ensures
        shifted(d, -k, m) == 0,
{
    let extra = (k - len) as nat;
    lemma_pow10_add(len, extra);
    assert(len + extra == k);
    lemma_pow10_mono(10, extra);
    assert(pow10(10) == 10_000_000_000nat) by {
        reveal_with_fuel(pow10, 11);
    }
    lemma_pow10_pos(len);
    assert(d * m < pow10(k as nat)) by (nonlinear_arith)
        requires
            d < pow10(len),
            m <= 0x4000_0000,
            pow10(k as nat) == pow10(len) * pow10(extra),
            pow10(extra) >= 10_000_000_000,
    ;
    lemma_pow10_pos(k as nat);
    vstd::arithmetic::div_mod::lemma_basic_div((d * m) as int, pow10(k as nat) as int);
}

/// [`shifted`] for the value of the digits `ds`, capped.
fn scaled_shift(ds: &Vec<char>, x: i128, m: u64) -> (r: u64)
    requires
        all_digits(ds@),
        digits_value(ds@) >= 1,
        1 <= m <= 0x4000_0000,
        -0x20_0000_0000_0000_0000_0000_0000 <= x <= 0x20_0000_0000_0000_0000_0000_0000,
    ensures
        r == capped(shifted(digits_value(ds@), x as int, m as nat)),
{
    let ghost d = digits_value(ds@);
    let len = ds.len();
    proof {
        lemma_digits_below_pow(ds@);
    }
    if x >= 0 {
        if x >= 20 {
            proof {
                lemma_shift_large(d, x as int, m as nat);
            }
            return u64::MAX;
        }
        let xs = x as usize;
        let mut whole = copy_range(ds, 0, ds.len());
        assert(whole@ =~= ds@);
        let zs = zeros_vec(xs);
        push_chars(&mut whole, &zs);
        let none: Vec<char> = Vec::new();
        proof {
            lemma_zeros_value(xs as nat);
            lemma_digits_concat(ds@, zs@);
            assert(all_digits(whole@)) by {
                assert forall|j: int| 0 <= j < whole@.len() implies is_digit(#[trigger] whole@[j]) by {
                    if j < ds@.len() {
                        assert(whole@[j] == ds@[j]);
                    } else {
                        assert(whole@[j] == zs@[j - ds@.len()]);
                    }
                }
            }
            assert(digits_value(none@) == 0);
            assert(pow10(0) == 1);
            assert(0nat * (m as nat) / 1 == 0) by (nonlinear_arith);
            assert(d * pow10(xs as nat) * (m as nat) == d * (m as nat) * pow10(xs as nat))
                by (nonlinear_arith);
        }
        return scaled_point(&whole, &none, m);
    }
    let k: i128 = -x;
    if k <= len as i128 {
        let cut = len - (k as usize);
        let a = copy_range(ds, 0, cut);
        let b = copy_range(ds, cut, len);
        proof {
            assert(ds@ =~= a@ + b@);
            lemma_digits_concat(a@, b@);
            assert(b@.len() == k);
            assert(all_digits(a@) && all_digits(b@)) by {
                assert forall|j: int| 0 <= j < a@.len() implies is_digit(#[trigger] a@[j]) by {
                    assert(a@[j] == ds@[j]);
                }
                assert forall|j: int| 0 <= j < b@.len() implies is_digit(#[trigger] b@[j]) by {
                    assert(b@[j] == ds@[cut + j]);
                }
            }
            lemma_pow10_pos(k as nat);
            lemma_div_split(
                digits_value(a@) as int,
                digits_value(b@) as int,
                pow10(k as nat) as int,
                m as int,
            );
        }
        return scaled_point(&a, &b, m);
    }
    if k - (len as i128) >= 10 {
        proof {
            lemma_shift_small(d, len as nat, k as int, m as nat);
        }
        return 0;
    }
    let pad = (k - (len as i128)) as usize;
    let mut frac = zeros_vec(pad);
    push_chars(&mut frac, ds);
    let none: Vec<char> = Vec::new();
    proof {
        lemma_zeros_value(pad as nat);
        lemma_digits_concat(zeros(pad as nat), ds@);
        assert(frac@.len() == k);
        assert(all_digits(frac@)) by {
            assert forall|j: int| 0 <= j < frac@.len() implies is_digit(#[trigger] frac@[j]) by {
                if j < pad {
                    assert(frac@[j] == zeros(pad as nat)[j]);
                } else {
                    assert(frac@[j] == ds@[j - pad]);
                }
            }
        }
        assert(digits_value(none@) == 0);
        assert(0nat * (m as nat) == 0) by (nonlinear_arith);
    }
    scaled_point(&none, &frac, m)
}

/// The sign-less number `u` split into integer digits, fraction digits and
/// exponent (its size capped), when it has the grammar of a finite float.
fn float_parts_vec(u: &Vec<char>) -> (r: Option<(Vec<char>, Vec<char>, i128)>)
    ensures
        match float_parts(u@) {
            None => r is None,
            Some((i, f, e)) => r matches Some((ip, fp, x)) && ip@ == i && fp@ == f && (if e
                >= EXPONENT_CAP {
                x == EXPONENT_CAP
            } else if e <= -EXPONENT_CAP {
                x == -EXPONENT_CAP
            } else {
                x == e
            }),
        },
{
    proof {
        lemma_find(u@, CharClass::Either('e', 'E'));
    }
    let (mant, exp) = match find_class(u, CharClass::Either('e', 'E')) {
        Some(k) => {
            let a = copy_range(u, 0, k);
            let b = copy_range(u, k + 1, u.len());
            assert(a@ =~= u@.take(k as int));
            assert(b@ =~= u@.skip(k + 1));
            (a, Some(b))
        },
        None => {
            let a = copy_range(u, 0, u.len());
            assert(a@ =~= u@);
            (a, None)
        },
    };
    let (ip, fp) = split_point(&mant);
    if !(all_digits_vec(&ip) && all_digits_vec(&fp) && (ip.len() > 0 || fp.len() > 0)) {
        return None;
    }
    match exp {
        None => Some((ip, fp, 0)),
        Some(es) => match exponent_of(&es) {
            None => None,
            Some(x) => Some((ip, fp, x)),
        },
    }
}

/// [`scaled_decimal`] of `t` for a unit of `m` kilobytes.
pub fn scaled_decimal_vec(t: &Vec<char>, m: u64) -> (r: u64)
    requires
        1 <= m <= 0x4000_0000,
    ensures
        r == scaled_decimal(t@, m as nat),
{
    if t.len() > 0 && t[0] == '-' {
        return 0;
    }
    let from: usize = if t.len() > 0 && t[0] == '+' {
        1
    } else {
        0
    };
    let body = copy_range(t, from, t.len());
    assert(body@ =~= unsigned_digits(t@));
    if eq_ignore_ascii_case_vec(&body, &chars_of("inf")) || eq_ignore_ascii_case_vec(
        &body,
        &chars_of("infinity"),
    ) {
        return u64::MAX;
    }
    let (ip, fp, e) = match float_parts_vec(&body) {
        None => return 0,
        Some(parts) => parts,
    };
    let ghost spec_e: int = float_parts(body@).unwrap().2;
    let mut ds = copy_range(&ip, 0, ip.len());
    assert(ds@ =~= ip@);
    push_chars(&mut ds, &fp);
    let ghost d = digits_value(ds@);
    assert(all_digits(ds@)) by {
        assert forall|j: int| 0 <= j < ds@.len() implies is_digit(#[trigger] ds@[j]) by {
            if j < ip@.len() {
                assert(ds@[j] == ip@[j]);
            } else {
                assert(ds@[j] == fp@[j - ip@.len()]);
            }
        }
    }
    // A zero mantissa is 0 whatever the exponent.
    let mut nonzero = false;
    let mut z: usize = 0;
    while z < ds.len()
        invariant
            z <= ds.len(),
            nonzero == exists|j: int| 0 <= j < z && ds@[j] != '0',
        decreases ds.len() - z,
    {
        if ds[z] != '0' {
            nonzero = true;
        }
        z += 1;
    }
    proof {
        lemma_zero_value(ds@);
    }
    if !nonzero {
        proof {
            assert(forall|j: int| 0 <= j < ds@.len() ==> #[trigger] ds@[j] == '0');
            let sx = spec_e - fp@.len();
            assert(d * (m as nat) == 0) by (nonlinear_arith)
                requires
                    d == 0,
            ;
            if sx >= 0 {
                assert(0 * pow10(sx as nat) == 0) by (nonlinear_arith);
            } else {
                lemma_pow10_pos((-sx) as nat);
                assert(0nat / pow10((-sx) as nat) == 0);
            }
        }
        return 0;
    }
    let flen = fp.len() as i128;
    let x: i128 = e - flen;
    proof {
        let sx = spec_e - fp@.len();
        lemma_digits_below_pow(ds@);
        if spec_e >= EXPONENT_CAP {
            lemma_shift_large(d, x as int, m as nat);
            lemma_shift_large(d, sx, m as nat);
        } else if spec_e <= -EXPONENT_CAP {
            lemma_shift_small(d, ds@.len(), -x, m as nat);
            lemma_shift_small(d, ds@.len(), -sx, m as nat);
        } else {
            assert(x == sx);
        }
    }
    scaled_shift(&ds, x, m)
}

} // verus!
