//! Human-readable byte sizes ("900 B", "1.5 KB", "10 MB").
//!
//! A size is shown in the largest of B, KB, MB, GB, TB (powers of 1024)
//! in which it is at least 1; below 10 units with one decimal, from 10
//! units on with none. The value that is rounded is the size converted to a
//! binary64 float (round to nearest, ties to even, on 53 significant bits)
//! and divided by a power of 1024, which is exact in binary; the decimal
//! rounding is to nearest with ties to even. Every step is stated and
//! computed here on integers.
use vstd::prelude::*;
use crate::text::{decimal, digit_char, push_char, push_decimal};

verus! {

/// 2 to the 53rd: below it every integer is a binary64 float, above it not.
pub open spec fn significand_limit() -> nat {
    0x20_0000_0000_0000
}

/// The spacing of binary64 floats around `n`: 1 below 2^53, and doubling with
/// each further bit of `n`.
pub open spec fn float_spacing(n: nat) -> nat
    decreases n,
{
    if n < significand_limit() {
        1
    } else {
        2 * float_spacing(n / 2)
    }
}

/// `n / d` rounded to the nearest integer, ties to the even one (`d > 0`).
pub open spec fn div_round_even(n: nat, d: nat) -> nat {
    let q = n / d;
    let r = n % d;
    if 2 * r > d || (2 * r == d && q % 2 == 1) {
        q + 1
    } else {
        q
    }
}

/// The value of `n` converted to a binary64 float: the nearest multiple of
/// the float spacing, ties to the even multiple.
pub open spec fn as_float(n: nat) -> nat {
    let p = float_spacing(n);
    div_round_even(n, p) * p
}

/// Which unit a value of `v` bytes is shown in: 0 = B, 1 = KB, 2 = MB,
/// 3 = GB, 4 = TB.
pub open spec fn unit_index(v: nat) -> nat {
    if v >= 0x100_0000_0000 {
        4
    } else if v >= 0x4000_0000 {
        3
    } else if v >= 0x10_0000 {
        2
    } else if v >= 0x400 {
        1
    } else {
        0
    }
}

/// The number of bytes in one unit of the given index (1024 to its power).
pub open spec fn unit_bytes(u: nat) -> nat {
    if u == 4 {
        0x100_0000_0000
    } else if u == 3 {
        0x4000_0000
    } else if u == 2 {
        0x10_0000
    } else if u == 1 {
        0x400
    } else {
        1
    }
}

/// The name of the unit of the given index.
pub open spec fn unit_name(u: nat) -> Seq<char> {
    if u == 4 {
        "TB"@
    } else if u == 3 {
        "GB"@
    } else if u == 2 {
        "MB"@
    } else if u == 1 {
        "KB"@
    } else {
        "B"@
    }
}

/// What `format_bytes` shows for a size of `bytes`.
pub open spec fn human_size(bytes: nat) -> Seq<char> {
    let v = as_float(bytes);
    let u = unit_index(v);
    let d = unit_bytes(u);
    if u == 0 {
        decimal(bytes) + seq![' '] + unit_name(0)
    } else if v >= 10 * d {
        decimal(div_round_even(v, d)) + seq![' '] + unit_name(u)
    } else {
        let tenths = div_round_even(10 * v, d);
        decimal(tenths / 10) + seq!['.', digit_char(tenths % 10)] + seq![' '] + unit_name(u)
    }
}

/// The unit a size of `bytes` is shown in (0 = B, ..., 4 = TB).
pub open spec fn shown_unit(bytes: nat) -> nat {
    unit_index(as_float(bytes))
}

/// The number shown for a size of `bytes`, in tenths of its unit (a number
/// shown without a decimal counts as that many tens of tenths).
pub open spec fn shown_tenths(bytes: nat) -> nat {
    let v = as_float(bytes);
    let u = unit_index(v);
    let d = unit_bytes(u);
    if u == 0 {
        10 * bytes
    } else if v >= 10 * d {
        10 * div_round_even(v, d)
    } else {
        div_round_even(10 * v, d)
    }
}

/// What `human_size` shows is the number `shown_tenths` (with one decimal
/// exactly when the unit is not B and the value is below ten units) and the
/// name of the unit `shown_unit`.
pub proof fn lemma_human_size_parts(bytes: nat)
    ensures
        ({
            let t = shown_tenths(bytes);
            let u = shown_unit(bytes);
            if u == 0 || as_float(bytes) >= 10 * unit_bytes(u) {
                t % 10 == 0 && human_size(bytes) == decimal(t / 10) + seq![' '] + unit_name(u)
            } else {
                human_size(bytes) == decimal(t / 10) + seq!['.', digit_char(t % 10)] + seq![' ']
                    + unit_name(u)
            }
        }),
{
    let v = as_float(bytes);
    let u = unit_index(v);
    if u == 0 {
        assert((10 * bytes) / 10 == bytes && (10 * bytes) % 10 == 0) by (nonlinear_arith);
    } else if v >= 10 * unit_bytes(u) {
        let q = div_round_even(v, unit_bytes(u));
        assert((10 * q) / 10 == q && (10 * q) % 10 == 0) by (nonlinear_arith);
    }
}

/// Bounds on the float spacing: it is at least 1, it is 1 below 2^53, and
/// above that it puts `n` between 2^52 and 2^53 spacings.
proof fn lemma_spacing_bounds(n: nat)
    ensures
        float_spacing(n) >= 1,
        n < significand_limit() ==> float_spacing(n) == 1,
        n < significand_limit() * float_spacing(n),
        n >= significand_limit() ==> 0x10_0000_0000_0000 * float_spacing(n) <= n,
    decreases n,
{
    if n >= significand_limit() {
        let h = n / 2;
        lemma_spacing_bounds(h);
        let sh = float_spacing(h);
        assert(float_spacing(n) == 2 * sh);
        assert(n == 2 * h || n == 2 * h + 1);
        assert(n < significand_limit() * (2 * sh)) by (nonlinear_arith)
            requires
                h < significand_limit() * sh,
                n <= 2 * h + 1,
                significand_limit() == 0x20_0000_0000_0000,
        ;
        if h >= significand_limit() {
            assert(0x10_0000_0000_0000 * (2 * sh) <= n) by (nonlinear_arith)
                requires
                    0x10_0000_0000_0000 * sh <= h,
                    2 * h <= n,
            ;
        } else {
            assert(sh == 1);
        }
    }
}

/// Between two sizes the spacing either stays or at least doubles.
proof fn lemma_spacing_steps(a: nat, b: nat)
    requires
        a <= b,
    ensures
        float_spacing(a) == float_spacing(b) || float_spacing(b) >= 2 * float_spacing(a),
    decreases a,
{
    lemma_spacing_bounds(a);
    lemma_spacing_bounds(b);
    if b >= significand_limit() {
        lemma_spacing_bounds(b / 2);
        if a >= significand_limit() {
            lemma_spacing_steps(a / 2, b / 2);
        }
    }
}

/// Rounding to nearest, ties to even, does not go down as the value grows.
proof fn lemma_div_round_even_monotone(n1: nat, n2: nat, d: nat)
    requires
        n1 <= n2,
        d > 0,
    ensures
        div_round_even(n1, d) <= div_round_even(n2, d),
        n1 / d <= div_round_even(n1, d) <= n1 / d + 1,
{
    vstd::arithmetic::div_mod::lemma_div_is_ordered(n1 as int, n2 as int, d as int);
    vstd::arithmetic::div_mod::lemma_fundamental_div_mod(n1 as int, d as int);
    vstd::arithmetic::div_mod::lemma_fundamental_div_mod(n2 as int, d as int);
    let q1 = n1 / d;
    let q2 = n2 / d;
    if q1 == q2 {
        assert(d * q1 == d * q2);
        assert(n1 % d <= n2 % d);
    }
}

/// Converting to a float does not go down as the value grows.
proof fn lemma_as_float_monotone(a: nat, b: nat)
    requires
        a <= b,
    ensures
        as_float(a) <= as_float(b),
{
    lemma_spacing_bounds(a);
    lemma_spacing_bounds(b);
    lemma_spacing_steps(a, b);
    let pa = float_spacing(a);
    let pb = float_spacing(b);
    lemma_div_round_even_monotone(a, a, pa);
    lemma_div_round_even_monotone(b, b, pb);
    let qa = div_round_even(a, pa);
    let qb = div_round_even(b, pb);
    if pa == pb {
        lemma_div_round_even_monotone(a, b, pa);
        assert(qa * pa <= qb * pb) by (nonlinear_arith)
            requires
                qa <= qb,
                pa == pb,
        ;
    } else {
        vstd::arithmetic::div_mod::lemma_fundamental_div_mod(a as int, pa as int);
        assert(a / pa < significand_limit()) by (nonlinear_arith)
            requires
                a < significand_limit() * pa,
                a == pa * (a / pa) + a % pa,
                0 <= a % pa,
                pa >= 1,
        ;
        assert(qa * pa <= significand_limit() * pa) by (nonlinear_arith)
            requires
                qa <= significand_limit(),
                pa >= 1,
        ;
        assert(b >= significand_limit());
        vstd::arithmetic::div_mod::lemma_fundamental_div_mod(b as int, pb as int);
        assert(b / pb >= 0x10_0000_0000_0000) by (nonlinear_arith)
            requires
                0x10_0000_0000_0000 * pb <= b,
                b == pb * (b / pb) + b % pb,
                0 <= b % pb < pb,
        ;
        assert(qb * pb >= 0x10_0000_0000_0000 * pb) by (nonlinear_arith)
            requires
                qb >= 0x10_0000_0000_0000,
                pb >= 1,
        ;
        assert(significand_limit() * pa <= 0x10_0000_0000_0000 * pb) by (nonlinear_arith)
            requires
                pb >= 2 * pa,
                significand_limit() == 0x20_0000_0000_0000,
        ;
    }
}

/// As the size grows, the unit shown never goes down, and within one unit
/// the number shown never goes down.
pub proof fn lemma_shown_size_grows(a: nat, b: nat)
    requires
        a <= b,
    ensures
        shown_unit(a) <= shown_unit(b),
        shown_unit(a) == shown_unit(b) ==> shown_tenths(a) <= shown_tenths(b),
{
    lemma_as_float_monotone(a, b);
    lemma_spacing_bounds(a);
    lemma_spacing_bounds(b);
    let va = as_float(a);
    let vb = as_float(b);
    let u = unit_index(va);
    if u == unit_index(vb) && u > 0 {
        let d = unit_bytes(u);
        if va >= 10 * d {
            lemma_div_round_even_monotone(va, vb, d);
        } else if vb >= 10 * d {
            lemma_div_round_even_monotone(10 * va, 100 * d, d);
            lemma_div_round_even_monotone(100 * d, 100 * d, d);
            lemma_div_round_even_monotone(10 * d, vb, d);
            lemma_div_round_even_monotone(10 * d, 10 * d, d);
            assert((100 * d) / d == 100 && (100 * d) % d == 0) by (nonlinear_arith)
                requires
                    d > 0,
            ;
            assert((10 * d) / d == 10 && (10 * d) % d == 0) by (nonlinear_arith)
                requires
                    d > 0,
            ;
        } else {
            lemma_div_round_even_monotone(10 * va, 10 * vb, d);
        }
    } else if u == unit_index(vb) && u == 0 {
        assert(va < 0x400);
        if a >= significand_limit() {
            assert(false) by (nonlinear_arith)
                requires
                    a >= significand_limit(),
                    va == div_round_even(a, float_spacing(a)) * float_spacing(a),
                    a / float_spacing(a) <= div_round_even(a, float_spacing(a)),
                    0x10_0000_0000_0000 * float_spacing(a) <= a,
                    va < 0x400,
                    float_spacing(a) >= 1,
            ;
        }
        lemma_div_round_even_monotone(a, a, 1);
        lemma_div_round_even_monotone(b, b, 1);
    }
}

/// `n / d` rounded to the nearest integer, ties to even.
fn div_round_even_exec(n: u128, d: u128) -> (r: u128)
    requires
        d > 0,
        n < 0x1_0000_0000_0000_0000_0000_0000_0000_0000 - 1,
    ensures
        r == div_round_even(n as nat, d as nat),
{
    let q = n / d;
    let r = n % d;
    assert(q <= n) by (nonlinear_arith)
        requires
            q == n / d,
            d > 0,
    ;
    if (r > d - r) || (r == d - r && q % 2 == 1) {
        q + 1
    } else {
        q
    }
}

/// The value of `n` converted to a binary64 float, as an integer.
fn as_float_exec(n: u64) -> (v: u128)
    ensures
        v == as_float(n as nat),
        v <= 2 * 0x1_0000_0000_0000_0000,
        n < significand_limit() ==> v == n,
        n >= significand_limit() ==> v >= 0x10_0000_0000_0000,
{
    let mut p: u128 = 1;
    let mut b: u64 = n;
    while b >= 0x20_0000_0000_0000
        invariant
            p >= 1,
            p * (b as nat) <= n,
            n < p * (b as nat + 1),
            n >= significand_limit() ==> b >= 0x10_0000_0000_0000,
            n < significand_limit() ==> p == 1 && b == n,
            float_spacing(n as nat) == p * float_spacing(b as nat),
        decreases b,
    {
        assert(float_spacing(b as nat) == 2 * float_spacing((b / 2) as nat));
        let ghost h: nat = (b / 2) as nat;
        assert(b == 2 * h || b == 2 * h + 1);
        assert(p * 2 * h <= p * (b as nat)) by (nonlinear_arith)
            requires
                p >= 1,
                b == 2 * h || b == 2 * h + 1,
        ;
        assert(p * (b as nat + 1) <= p * 2 * (h + 1)) by (nonlinear_arith)
            requires
                p >= 1,
                b == 2 * h || b == 2 * h + 1,
        ;
        assert(p * float_spacing(b as nat) == (p * 2) * float_spacing(h))
            by (nonlinear_arith)
            requires
                float_spacing(b as nat) == 2 * float_spacing(h),
        ;
        assert(p <= n) by (nonlinear_arith)
            requires
                p * (b as nat) <= n,
                b >= 1,
        ;
        b = b / 2;
        p = p * 2;
    }
    assert(float_spacing(b as nat) == 1);
    assert(float_spacing(n as nat) == p) by (nonlinear_arith)
        requires
            float_spacing(n as nat) == p * float_spacing(b as nat),
            float_spacing(b as nat) == 1,
    ;
    assert(p * (b as nat + 1) == p * b + p && b * p == p * b) by (nonlinear_arith);
    proof {
        vstd::arithmetic::div_mod::lemma_fundamental_div_mod_converse(
            n as int,
            p as int,
            b as int,
            n - p * b,
        );
    }
    assert(p <= n || n == 0) by (nonlinear_arith)
        requires
            p * (b as nat) <= n,
            p >= 1,
            n < significand_limit() ==> p == 1,
            n >= significand_limit() ==> b >= 1,
    ;
    let q = div_round_even_exec(n as u128, p);
    assert(b <= q <= b + 1);
    assert(q * p <= (b + 1) * p) by (nonlinear_arith)
        requires
            q <= b + 1,
    ;
    assert((b + 1) * p == p * b + p) by (nonlinear_arith);
    assert(p <= 0x1_0000_0000_0000_0000);
    assert(q * p <= 2 * 0x1_0000_0000_0000_0000);
    assert(q * p >= b * p) by (nonlinear_arith)
        requires
            q >= b,
    ;
    assert(n >= significand_limit() ==> b * p >= 0x10_0000_0000_0000) by (nonlinear_arith)
        requires
            n >= significand_limit() ==> b >= 0x10_0000_0000_0000,
            p >= 1,
    ;
    q * p
}

/// Formats a size in bytes for people: "900 B", "1.5 KB", "10 MB".
pub fn format_bytes(bytes: u64) -> (s: String)
    ensures
        s@ == human_size(bytes as nat),
{
    let v = as_float_exec(bytes);
    let mut s = String::new();
    if v < 0x400 {
        push_decimal(&mut s, bytes as u128);
        s.append(" B");
        assert(s@ == human_size(bytes as nat)) by {
            reveal_strlit(" B");
            reveal_strlit("B");
        }
        return s;
    }
    let (unit, d): (u8, u128) = if v >= 0x100_0000_0000 {
        (4, 0x100_0000_0000)
    } else if v >= 0x4000_0000 {
        (3, 0x4000_0000)
    } else if v >= 0x10_0000 {
        (2, 0x10_0000)
    } else {
        (1, 0x400)
    };
    assert(unit == unit_index(v as nat) && d == unit_bytes(unit as nat));
    if v >= 10 * d {
        let whole = div_round_even_exec(v, d);
        push_decimal(&mut s, whole);
    } else {
        let tenths = div_round_even_exec(10 * v, d);
        push_decimal(&mut s, tenths / 10);
        push_char(&mut s, '.');
        let t: u32 = (tenths % 10) as u32;
        push_char(&mut s, ((t + 48) as u8) as char);
    }
    push_char(&mut s, ' ');
    let ghost before = s@;
    if unit == 4 {
        s.append("TB");
    } else if unit == 3 {
        s.append("GB");
    } else if unit == 2 {
        s.append("MB");
    } else {
        s.append("KB");
    }
    assert(s@ == before + unit_name(unit as nat));
    s
}

} // verus!
