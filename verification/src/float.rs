//! The binary64 arithmetic that sizes and bars are shown with, held in
//! integers: a whole number converted to a double, the double nearest to a
//! quotient, the rounding of a double to hundredths as `{:.2}` writes it,
//! and a quotient scaled and rounded to a whole number. Values
//! here stay far inside the normal range of doubles, where rounding to 53
//! significant bits, ties to even, is the whole of IEEE 754's behaviour.

use vstd::prelude::*;
use vstd::arithmetic::div_mod::{lemma_div_is_ordered, lemma_fundamental_div_mod, lemma_mod_multiples_basic};
use vstd::arithmetic::power2::{pow2, lemma_pow2_adds, lemma_pow2_pos, lemma_pow2_unfold, lemma_pow2_strictly_increases, lemma2_to64, lemma2_to64_rest};

verus! {

/// `num / den` rounded to the nearest integer, a tie going to the even
/// neighbour.
pub open spec fn round_half_even(num: nat, den: nat) -> nat
    recommends
        den > 0,
{
    let q = num / den;
    let r = num % den;
    if 2 * r > den || (2 * r == den && q % 2 == 1) {
        q + 1
    } else {
        q
    }
}

/// Rounds `num / den` to the nearest integer, ties to even.
pub fn round_half_even_exec(num: u128, den: u128) -> (r: u128)
    requires
        den > 0,
        den < 0x8000_0000_0000_0000_0000_0000_0000_0000,
    ensures
        r == round_half_even(num as nat, den as nat),
{
    let q = num / den;
    let r = num % den;
    assert(q <= num);
    assert(q < 0xffff_ffff_ffff_ffff_ffff_ffff_ffff_ffff || r == 0) by (nonlinear_arith)
        requires
            q == num / den,
            r == num % den,
            den > 0,
            num <= 0xffff_ffff_ffff_ffff_ffff_ffff_ffff_ffff,
    ;
    if 2 * r > den || (2 * r == den && q % 2 == 1) {
        q + 1
    } else {
        q
    }
}

/// `a / b` scaled by `2^k` lies in `[2^52, 2^53)`: the shift that gives the
/// quotient its 53 significant bits.
pub open spec fn in_binade(a: nat, b: nat, k: nat) -> bool {
    b * pow2(52) <= a * pow2(k) && a * pow2(k) < b * pow2(53)
}

/// The shift of `a / b` (for `0 < a / b < 2^53`).
pub open spec fn binade_shift(a: nat, b: nat) -> nat {
    choose|k: nat| in_binade(a, b, k)
}

/// The double nearest to `a / b`, ties to even, as `(p, q)` meaning `p / q`
/// with `q` a power of two (for `0 < a / b < 2^53`).
pub open spec fn nearest_double(a: nat, b: nat) -> (nat, nat) {
    let k = binade_shift(a, b);
    (round_half_even(a * pow2(k), b), pow2(k))
}

/// `n` lies in `[2^(52+s), 2^(53+s))`.
pub open spec fn in_int_binade(n: nat, s: nat) -> bool {
    pow2(52 + s) <= n && n < pow2(53 + s)
}

/// The value of the whole number `n` as a double (`n as f64`): `n` itself
/// below `2^53`, otherwise `n` rounded to 53 significant bits, ties to even.
pub open spec fn f64_int(n: nat) -> nat {
    if n < pow2(53) {
        n
    } else {
        let s = choose|s: nat| in_int_binade(n, s);
        round_half_even(n, pow2(s)) * pow2(s)
    }
}

proof fn lemma_pow2_gap(k1: nat, k2: nat)
    requires
        k1 < k2,
    ensures
        pow2(k2) >= 2 * pow2(k1),
{
    let d = (k2 - k1) as nat;
    lemma_pow2_adds(k1, d);
    lemma_pow2_unfold(d);
    lemma_pow2_pos((d - 1) as nat);
    assert(pow2(k2) == pow2(k1) * pow2(d));
    assert(pow2(k1) * pow2(d) >= pow2(k1) * 2) by (nonlinear_arith)
        requires
            pow2(d) >= 2,
            pow2(k1) >= 0,
    ;
}

proof fn lemma_binade_unique(a: nat, b: nat, k1: nat, k2: nat)
    requires
        in_binade(a, b, k1),
        in_binade(a, b, k2),
    ensures
        k1 == k2,
{
    lemma2_to64_rest();
    if k1 < k2 {
        lemma_pow2_gap(k1, k2);
        assert(a * pow2(k2) >= 2 * (a * pow2(k1))) by (nonlinear_arith)
            requires
                pow2(k2) >= 2 * pow2(k1),
        ;
    } else if k2 < k1 {
        lemma_pow2_gap(k2, k1);
        assert(a * pow2(k1) >= 2 * (a * pow2(k2))) by (nonlinear_arith)
            requires
                pow2(k1) >= 2 * pow2(k2),
        ;
    }
}

proof fn lemma_int_binade_unique(n: nat, s1: nat, s2: nat)
    requires
        in_int_binade(n, s1),
        in_int_binade(n, s2),
    ensures
        s1 == s2,
{
    if s1 < s2 {
        lemma_pow2_gap(52 + s1, 52 + s2);
        assert(53 + s1 <= 52 + s2);
        if 53 + s1 < 52 + s2 {
            lemma_pow2_gap(53 + s1, 52 + s2);
        }
    } else if s2 < s1 {
        lemma_pow2_gap(52 + s2, 52 + s1);
        if 53 + s2 < 52 + s1 {
            lemma_pow2_gap(53 + s2, 52 + s1);
        }
    }
}

/// The value of a whole number as a double, as `n as f64` gives it.
pub fn u64_as_double(n: u64) -> (r: u128)
    ensures
        r == f64_int(n as nat),
        r < 0x4_0000_0000_0000_0000,
        n < 0x20_0000_0000_0000 ==> r == n,
        n >= 0x20_0000_0000_0000 ==> r >= 0x10_0000_0000_0000,
{
    proof {
        lemma2_to64();
        lemma2_to64_rest();
    }
    let two53: u128 = 0x20_0000_0000_0000;
    assert(two53 == pow2(53));
    if (n as u128) < two53 {
        return n as u128;
    }
    let ghost mut s: nat = 0;
    let mut pw: u128 = 1;
    assert(pw == pow2(0));
    while (n as u128) >= 0x20_0000_0000_0000 * pw
        invariant
            pw == pow2(s),
            two53 == pow2(53),
            two53 == 0x20_0000_0000_0000,
            pow2(52) == 0x10_0000_0000_0000,
            1 <= pw <= 0x1000,
            pow2(52) * pw <= n,
        decreases 0x1000 - pw,
    {
        assert(pw < 0x800) by (nonlinear_arith)
            requires
                n >= two53 * pw,
                n < 0x1_0000_0000_0000_0000,
                two53 == 0x20_0000_0000_0000,
        ;
        proof {
            lemma_pow2_unfold(s + 1);
        }
        assert(pow2(52) * (pw * 2) <= n) by (nonlinear_arith)
            requires
                n >= two53 * pw,
                two53 == 2 * pow2(52),
        ;
        pw = pw * 2;
        proof {
            s = s + 1;
        }
    }
    proof {
        lemma_pow2_adds(52, s);
        lemma_pow2_adds(53, s);
        assert(in_int_binade(n as nat, s));
        let c = choose|t: nat| in_int_binade(n as nat, t);
        lemma_int_binade_unique(n as nat, s, c);
    }
    let m = round_half_even_exec(n as u128, pw);
    assert(m <= 0x20_0000_0000_0000) by (nonlinear_arith)
        requires
            m == round_half_even(n as nat, pw as nat),
            n < two53 * pw,
            pw > 0,
            two53 == 0x20_0000_0000_0000,
    ;
    assert(m >= 0x10_0000_0000_0000) by (nonlinear_arith)
        requires
            m == round_half_even(n as nat, pw as nat),
            0x10_0000_0000_0000 * pw <= n,
            pw > 0,
    ;
    assert(m * pw >= 0x10_0000_0000_0000) by (nonlinear_arith)
        requires
            m >= 0x10_0000_0000_0000,
            pw >= 1,
    ;
    assert(m * pw < 0x4_0000_0000_0000_0000) by (nonlinear_arith)
        requires
            m <= 0x20_0000_0000_0000,
            pw <= 0x1000,
    ;
    m * pw
}

/// The double nearest to `a / b`, ties to even, as `(p, q)` meaning `p / q`,
/// for `1 <= a / b < 2^53`.
pub fn nearest_quotient(a: u128, b: u128) -> (r: (u128, u128))
    requires
        1 <= b <= a,
        a < b * 0x20_0000_0000_0000,
        a < 0x4_0000_0000_0000_0000,
        b <= 0x1_0000_0000,
    ensures
        (r.0 as nat, r.1 as nat) == nearest_double(a as nat, b as nat),
        1 <= r.1 < 0x20_0000_0000_0000,
        r.0 <= 0x20_0000_0000_0000,
{
    proof {
        lemma2_to64();
        lemma2_to64_rest();
    }
    let two52: u128 = 0x10_0000_0000_0000;
    assert(two52 == pow2(52));
    let lim: u128 = b * two52;
    assert(lim <= 0x1_0000_0000 * 0x10_0000_0000_0000) by (nonlinear_arith)
        requires
            lim == b * two52,
            b <= 0x1_0000_0000,
            two52 == 0x10_0000_0000_0000,
    ;
    let ghost mut k: nat = 0;
    let mut pw: u128 = 1;
    assert(pw == pow2(0));
    assert(a * pw < 2 * lim);
    while a * pw < lim
        invariant
            pw == pow2(k),
            two52 == pow2(52),
            lim == b * two52,
            lim <= 0x1_0000_0000 * 0x10_0000_0000_0000,
            1 <= b <= a,
            1 <= pw,
            a * pw < 2 * lim,
        decreases 2 * lim - a * pw,
    {
        proof {
            lemma_pow2_unfold(k + 1);
        }
        assert(a * (pw * 2) == 2 * (a * pw)) by (nonlinear_arith);
        assert(pw < 0x1_0000_0000_0000_0000_0000_0000) by (nonlinear_arith)
            requires
                a * pw < lim,
                a >= 1,
                lim <= 0x1_0000_0000 * 0x10_0000_0000_0000,
        ;
        assert(a * pw >= 1) by (nonlinear_arith)
            requires
                a >= 1,
                pw >= 1,
        ;
        pw = pw * 2;
        proof {
            k = k + 1;
        }
    }
    assert(pw < 0x20_0000_0000_0000) by (nonlinear_arith)
        requires
            a * pw < 2 * lim,
            lim == b * two52,
            b <= a,
            b >= 1,
            two52 == 0x10_0000_0000_0000,
    ;
    proof {
        assert(pow2(53) == 2 * pow2(52));
        assert(in_binade(a as nat, b as nat, k));
        let c = binade_shift(a as nat, b as nat);
        lemma_binade_unique(a as nat, b as nat, k, c);
    }
    let m = round_half_even_exec(a * pw, b);
    assert(m <= 0x20_0000_0000_0000) by (nonlinear_arith)
        requires
            m == round_half_even((a * pw) as nat, b as nat),
            a * pw < 2 * lim,
            lim == b * two52,
            b > 0,
            two52 == 0x10_0000_0000_0000,
    ;
    (m, pw)
}

/// The least `k`, up to 130, with `a * 2^k >= b * 2^52`: the shift that
/// brings a quotient `a / b` below `2^52` up to 53 significant bits.
pub open spec fn lift_shift(a: nat, b: nat, k: nat) -> nat
    decreases 130 - k,
{
    if k >= 130 || a * pow2(k) >= b * pow2(52) {
        k
    } else {
        lift_shift(a, b, k + 1)
    }
}

/// The least `j`, up to 20, with `a < b * 2^(53 + j)`: the shift that
/// brings a quotient `a / b` of `2^53` or more down to 53 significant bits.
pub open spec fn drop_shift(a: nat, b: nat, j: nat) -> nat
    decreases 20 - j,
{
    if j >= 20 || a < b * pow2(53 + j) {
        j
    } else {
        drop_shift(a, b, j + 1)
    }
}

/// `(a / b) * 20` as a double, then rounded to the nearest whole number,
/// halves away from zero, as `((a / b) * 20.0).round()` computes it on the
/// doubles `a` and `b` (both whole, `1 <= a, b`): the quotient is rounded
/// to 53 significant bits, then the product, then to a whole number.
pub open spec fn scaled_round(a: nat, b: nat, factor: nat) -> nat {
    let k = lift_shift(a, b, 0);
    if k > 0 {
        let p = round_half_even(a * pow2(k), b);
        let v = f64_int(factor * p);
        (2 * v + pow2(k)) / (2 * pow2(k))
    } else {
        let j = drop_shift(a, b, 0);
        let p = round_half_even(a, b * pow2(j));
        f64_int(factor * p) * pow2(j)
    }
}

/// Computes `scaled_round(a, b, 20)` for doubles `a` and `b` converted from
/// whole numbers.
pub fn scaled_round_20(a: u128, b: u128) -> (r: u128)
    requires
        1 <= a < 0x4_0000_0000_0000_0000,
        1 <= b < 0x4_0000_0000_0000_0000,
    ensures
        r == scaled_round(a as nat, b as nat, 20),
{
    proof {
        lemma2_to64();
        lemma2_to64_rest();
    }
    let two52: u128 = 0x10_0000_0000_0000;
    assert(two52 == pow2(52));
    let lim: u128 = b * two52;
    assert(lim < 0x40_0000_0000_0000_0000_0000_0000_0000) by (nonlinear_arith)
        requires
            lim == b * two52,
            b < 0x4_0000_0000_0000_0000,
            two52 == 0x10_0000_0000_0000,
    ;
    let mut k: u128 = 0;
    let mut pw: u128 = 1;
    assert(pw == pow2(0));
    while k < 130 && a * pw < lim
        invariant
            k <= 130,
            pw == pow2(k as nat),
            1 <= pw,
            pw <= a * pw,
            two52 == pow2(52),
            lim == b * two52,
            1 <= a < 0x4_0000_0000_0000_0000,
            1 <= b < 0x4_0000_0000_0000_0000,
            lim < 0x40_0000_0000_0000_0000_0000_0000_0000,
            a * pw < 0x80_0000_0000_0000_0000_0000_0000_0000,
            k > 0 ==> a * pw < 2 * lim,
            lift_shift(a as nat, b as nat, k as nat) == lift_shift(a as nat, b as nat, 0),
        decreases 130 - k,
    {
        proof {
            lemma_pow2_unfold((k + 1) as nat);
        }
        assert(a * (pw * 2) == 2 * (a * pw)) by (nonlinear_arith);
        pw = pw * 2;
        k = k + 1;
    }
    assert(lift_shift(a as nat, b as nat, k as nat) == k);
    if k > 0 {
        let p = round_half_even_exec(a * pw, b);
        assert(p <= 0x20_0000_0000_0000) by (nonlinear_arith)
            requires
                p == round_half_even((a * pw) as nat, b as nat),
                a * pw < 2 * lim,
                lim == b * two52,
                b > 0,
                two52 == 0x10_0000_0000_0000,
        ;
        let v = u64_as_double((20 * p) as u64);
        let den: u128 = 2 * pw;
        (2 * v + pw) / den
    } else {
        assert(a >= lim);
        let lim53: u128 = 2 * lim;
        assert(pow2(53) == 2 * pow2(52));
        let mut j: u128 = 0;
        let mut pj: u128 = 1;
        assert(pj == pow2(0));
        while j < 20 && a >= lim53 * pj
            invariant
                j <= 20,
                pj == pow2(j as nat),
                1 <= pj <= 0x10_0000,
                two52 == pow2(52),
                pow2(53) == 2 * pow2(52),
                lim53 == b * (2 * two52),
                lim53 >= 0x20_0000_0000_0000,
                1 <= a < 0x4_0000_0000_0000_0000,
                1 <= b < 0x4_0000_0000_0000_0000,
                lim53 * pj <= 2 * a,
                drop_shift(a as nat, b as nat, j as nat) == drop_shift(a as nat, b as nat, 0),
            decreases 20 - j,
        {
            proof {
                lemma_pow2_unfold((j + 1) as nat);
                lemma_pow2_adds(53, j as nat);
            }
            assert(b * pow2(53 + j as nat) == lim53 * pj) by (nonlinear_arith)
                requires
                    pow2(53 + j as nat) == pow2(53) * pow2(j as nat),
                    pow2(53) == 2 * two52,
                    pj == pow2(j as nat),
                    lim53 == b * (2 * two52),
            ;
            assert(lim53 * (pj * 2) == 2 * (lim53 * pj)) by (nonlinear_arith);
            assert(pj * 2 <= 0x10_0000) by (nonlinear_arith)
                requires
                    lim53 * pj <= a,
                    lim53 >= 0x20_0000_0000_0000,
                    a < 0x4_0000_0000_0000_0000,
                    pj >= 1,
            ;
            pj = pj * 2;
            j = j + 1;
        }
        proof {
            lemma_pow2_adds(53, j as nat);
        }
        assert(b * pow2(53 + j as nat) == lim53 * pj) by (nonlinear_arith)
            requires
                pow2(53 + j as nat) == pow2(53) * pow2(j as nat),
                pow2(53) == 2 * two52,
                pj == pow2(j as nat),
                lim53 == b * (2 * two52),
        ;
        assert(a < lim53 * pj) by {
            if j >= 20 {
                assert(pj == 0x10_0000);
                assert(lim53 * pj >= 0x20_0000_0000_0000 * 0x10_0000) by (nonlinear_arith)
                    requires
                        lim53 >= 0x20_0000_0000_0000,
                        pj == 0x10_0000,
                ;
            }
        }
        assert(drop_shift(a as nat, b as nat, j as nat) == j);
        assert(b * pj <= lim53 * pj && b * pj >= 1 && lim53 * pj == (b * pj) * (2 * two52)) by (nonlinear_arith)
            requires
                b >= 1,
                pj >= 1,
                lim53 == b * (2 * two52),
                two52 == 0x10_0000_0000_0000,
        ;
        let d = b * pj;
        let p = round_half_even_exec(a, d);
        assert(p <= 0x20_0000_0000_0000) by (nonlinear_arith)
            requires
                p == round_half_even(a as nat, d as nat),
                a < lim53 * pj,
                lim53 * pj == d * (2 * two52),
                d > 0,
                two52 == 0x10_0000_0000_0000,
        ;
        let v = u64_as_double((20 * p) as u64);
        assert(v * pj < 0x4_0000_0000_0000_0000 * 0x10_0000) by (nonlinear_arith)
            requires
                v < 0x4_0000_0000_0000_0000,
                pj <= 0x10_0000,
        ;
        v * pj
    }
}

proof fn lemma_int_binade_exists(n: nat, s: nat)
    requires
        pow2(52 + s) <= n < pow2(64),
        s <= 11,
    ensures
        exists|t: nat| in_int_binade(n, t),
    decreases 11 - s,
{
    if n < pow2(53 + s) {
        assert(in_int_binade(n, s));
    } else {
        if s == 11 {
            assert(false);
        } else {
            lemma_int_binade_exists(n, s + 1);
        }
    }
}

/// A whole number from 1 below `2^64` is at least 1 as a double.
pub proof fn lemma_f64_int_pos(n: nat)
    requires
        1 <= n < pow2(64),
    ensures
        f64_int(n) >= 1,
{
    if n >= pow2(53) {
        lemma_int_binade_exists(n, 1);
        let s = choose|s: nat| in_int_binade(n, s);
        lemma_pow2_pos(s);
        lemma_pow2_adds(52, s);
        lemma2_to64();
        lemma2_to64_rest();
        assert(n / pow2(s) >= 1) by (nonlinear_arith)
            requires
                n >= pow2(52) * pow2(s),
                pow2(52) >= 1,
                pow2(s) > 0,
        ;
        assert(round_half_even(n, pow2(s)) >= n / pow2(s));
        assert(round_half_even(n, pow2(s)) * pow2(s) >= 1) by (nonlinear_arith)
            requires
                round_half_even(n, pow2(s)) >= 1,
                pow2(s) >= 1,
        ;
    }
}

proof fn lemma_lift_equal(a: nat, k: nat)
    requires
        a >= 1,
        k <= 52,
    ensures
        lift_shift(a, a, k) == 52,
    decreases 52 - k,
{
    if k < 52 {
        lemma_pow2_strictly_increases(k, 52);
        assert(a * pow2(k) < a * pow2(52)) by (nonlinear_arith)
            requires
                a >= 1,
                pow2(k) < pow2(52),
        ;
        lemma_lift_equal(a, k + 1);
    }
}

/// A double divided by itself, scaled by 20 and rounded, is 20.
pub proof fn lemma_scaled_round_whole(a: nat)
    requires
        a >= 1,
    ensures
        scaled_round(a, a, 20) == 20,
{
    lemma2_to64();
    lemma2_to64_rest();
    lemma_lift_equal(a, 0);
    let two52 = pow2(52);
    assert(two52 == 0x10_0000_0000_0000);
    assert(round_half_even(a * two52, a) == two52) by {
        assert((a * two52) / a == two52 && (a * two52) % a == 0) by (nonlinear_arith)
            requires
                a >= 1,
        ;
    }
    let n: nat = 20 * two52;
    assert(n == 0x140_0000_0000_0000);
    assert(in_int_binade(n, 4));
    let s = choose|s: nat| in_int_binade(n, s);
    lemma_int_binade_unique(n, 4, s);
    assert(round_half_even(n, 16) == n / 16);
    assert(f64_int(n) == n);
    assert((2 * n + two52) / (2 * two52) == 20) by (nonlinear_arith)
        requires
            n == 0x140_0000_0000_0000,
            two52 == 0x10_0000_0000_0000,
    ;
}

proof fn lemma_rhe_monotone(n1: nat, n2: nat, d: nat)
    requires
        n1 <= n2,
        d > 0,
    ensures
        round_half_even(n1, d) <= round_half_even(n2, d),
{
    lemma_div_is_ordered(n1 as int, n2 as int, d as int);
    lemma_fundamental_div_mod(n1 as int, d as int);
    lemma_fundamental_div_mod(n2 as int, d as int);
    let q1 = n1 / d;
    let q2 = n2 / d;
    if q1 == q2 {
        assert(n1 == d * q1 + n1 % d);
        assert(n2 == d * q1 + n2 % d);
        assert(n1 % d <= n2 % d);
    }
}

proof fn lemma_int_binade_exists_below(n: nat, s: nat, limit: nat)
    requires
        pow2(52 + s) <= n < pow2(53 + limit),
        s <= limit,
    ensures
        exists|t: nat| in_int_binade(n, t),
    decreases limit - s,
{
    if n < pow2(53 + s) {
        assert(in_int_binade(n, s));
    } else {
        lemma_int_binade_exists_below(n, s + 1, limit);
    }
}

/// Rounding a whole number `n` to a double gives no more than `bound` when
/// `n <= bound` and `bound` is a multiple of the rounding step.
proof fn lemma_f64_int_at_most(n: nat, bound: nat, limit: nat)
    requires
        n <= bound < pow2(53 + limit),
        forall|t: nat| t <= limit ==> #[trigger] (bound % pow2(t)) == 0,
    ensures
        f64_int(n) <= bound,
{
    if n >= pow2(53) {
        lemma_pow2_unfold(53);
        lemma_int_binade_exists_below(n, 1, limit);
        let t = choose|t: nat| in_int_binade(n, t);
        lemma_pow2_pos(t);
        if t > limit {
            lemma_pow2_strictly_increases(53 + limit, 52 + t);
            assert(false);
        }
        assert(bound % pow2(t) == 0);
        lemma_rhe_monotone(n, bound, pow2(t));
        lemma_fundamental_div_mod(bound as int, pow2(t) as int);
        assert(round_half_even(bound, pow2(t)) == bound / pow2(t));
        assert(round_half_even(n, pow2(t)) * pow2(t) <= (bound / pow2(t)) * pow2(t)) by (nonlinear_arith)
            requires
                round_half_even(n, pow2(t)) <= bound / pow2(t),
                pow2(t) > 0,
        ;
    }
}

proof fn lemma_f64_int_monotone(n1: nat, n2: nat)
    requires
        n1 <= n2 < pow2(64),
    ensures
        f64_int(n1) <= f64_int(n2),
{
    lemma_pow2_unfold(53);
    if n2 >= pow2(53) {
        lemma_int_binade_exists_below(n2, 1, 11);
        let t2 = choose|t: nat| in_int_binade(n2, t);
        lemma_pow2_pos(t2);
        lemma_pow2_adds(52, t2);
        assert(n2 / pow2(t2) >= pow2(52)) by (nonlinear_arith)
            requires
                n2 >= pow2(52) * pow2(t2),
                pow2(t2) > 0,
        ;
        let low2 = pow2(52) * pow2(t2);
        assert(round_half_even(n2, pow2(t2)) * pow2(t2) >= low2) by (nonlinear_arith)
            requires
                round_half_even(n2, pow2(t2)) >= pow2(52),
                low2 == pow2(52) * pow2(t2),
                pow2(t2) > 0,
        ;
        if n1 >= pow2(53) {
            lemma_int_binade_exists_below(n1, 1, 11);
            let t1 = choose|t: nat| in_int_binade(n1, t);
            if t1 > t2 {
                lemma_pow2_strictly_increases(52 + t2, 52 + t1);
                if 53 + t2 < 52 + t1 {
                    lemma_pow2_strictly_increases(53 + t2, 52 + t1);
                }
                assert(false);
            } else if t1 == t2 {
                lemma_rhe_monotone(n1, n2, pow2(t2));
                assert(round_half_even(n1, pow2(t2)) * pow2(t2) <= round_half_even(n2, pow2(t2)) * pow2(t2)) by (nonlinear_arith)
                    requires
                        round_half_even(n1, pow2(t2)) <= round_half_even(n2, pow2(t2)),
                        pow2(t2) > 0,
                ;
            } else {
                lemma_pow2_pos(t1);
                lemma_pow2_adds(53, t1);
                assert(round_half_even(n1, pow2(t1)) <= pow2(53)) by (nonlinear_arith)
                    requires
                        n1 < pow2(53) * pow2(t1),
                        pow2(t1) > 0,
                        round_half_even(n1, pow2(t1)) <= n1 / pow2(t1) + 1,
                ;
                assert(round_half_even(n1, pow2(t1)) * pow2(t1) <= pow2(53) * pow2(t1)) by (nonlinear_arith)
                    requires
                        round_half_even(n1, pow2(t1)) <= pow2(53),
                        pow2(t1) > 0,
                ;
                if 53 + t1 < 52 + t2 {
                    lemma_pow2_strictly_increases(53 + t1, 52 + t2);
                }
            }
        } else {
            lemma_pow2_adds(52, t2);
            if t2 >= 2 {
                lemma_pow2_strictly_increases(53, 52 + t2);
            }
            if t2 == 0 {
                assert(false);
            }
        }
    }
}

/// Whole numbers up to `2^64` as doubles keep their order, and a quotient
/// of such doubles of at most one, scaled by 20 and rounded, is at most 20.
pub proof fn lemma_scaled_round_at_most_whole(a: nat, b: nat)
    requires
        1 <= a <= b < pow2(64),
    ensures
        f64_int(a) <= f64_int(b),
        1 <= f64_int(a),
        scaled_round(f64_int(a), f64_int(b), 20) <= 20,
{
    lemma_f64_int_monotone(a, b);
    lemma_f64_int_pos(a);
    let s = f64_int(a);
    let m = f64_int(b);
    lemma2_to64();
    lemma2_to64_rest();
    assert(s < m * pow2(52)) by (nonlinear_arith)
        requires
            1 <= s <= m,
            pow2(52) > 1,
    ;
    lemma_lift_from(s, m, 0);
    let k = lift_shift(s, m, 0);
    assert(k >= 52);
    lemma_pow2_pos(k);
    let pk = pow2(k);
    assert(s * pk <= m * pk) by (nonlinear_arith)
        requires
            s <= m,
            pk > 0,
    ;
    lemma_rhe_monotone(s * pk, m * pk, m);
    assert((m * pk) / m == pk && (m * pk) % m == 0) by (nonlinear_arith)
        requires
            m >= 1,
    ;
    let p = round_half_even(s * pk, m);
    assert(p <= pk);
    let limit: nat = (k - 48) as nat;
    assert(53 + limit == k + 5);
    lemma_pow2_adds(k, 5);
    assert(20 * p <= 20 * pk);
    assert(20 * pk < pow2(53 + limit)) by (nonlinear_arith)
        requires
            pow2(53 + limit) == pk * pow2(5),
            pow2(5) == 32,
            pk > 0,
    ;
    assert forall|t: nat| t <= limit implies #[trigger] ((20 * pk) % pow2(t)) == 0 by {
        lemma_pow2_adds(t, (k - t) as nat);
        lemma_pow2_pos(t);
        let x = 20 * pow2((k - t) as nat);
        assert(20 * pk == x * pow2(t)) by (nonlinear_arith)
            requires
                pk == pow2(t) * pow2((k - t) as nat),
                x == 20 * pow2((k - t) as nat),
        ;
        lemma_mod_multiples_basic(x as int, pow2(t) as int);
    };
    lemma_f64_int_at_most(20 * p, 20 * pk, limit);
    let v = f64_int(20 * p);
    assert((2 * v + pk) / (2 * pk) <= 20) by (nonlinear_arith)
        requires
            v <= 20 * pk,
            pk > 0,
    ;
}

proof fn lemma_lift_from(a: nat, b: nat, k: nat)
    requires
        1 <= a <= b,
        k <= 52,
    ensures
        lift_shift(a, b, k) >= 52,
    decreases 52 - k,
{
    if k < 52 {
        lemma_pow2_strictly_increases(k, 52);
        assert(a * pow2(k) < b * pow2(52)) by (nonlinear_arith)
            requires
                1 <= a <= b,
                pow2(k) < pow2(52),
        ;
        lemma_lift_from(a, b, k + 1);
        assert(lift_shift(a, b, k) == lift_shift(a, b, k + 1));
    } else {
        lemma_lift_ge(a, b, k);
    }
}

proof fn lemma_lift_ge(a: nat, b: nat, k: nat)
    ensures
        lift_shift(a, b, k) >= k,
    decreases 130 - k,
{
    if !(k >= 130 || a * pow2(k) >= b * pow2(52)) {
        lemma_lift_ge(a, b, k + 1);
    }
}

} // verus!
