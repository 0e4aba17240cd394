//! `size:` filters. A size is a decimal number with an optional 1024-based unit.
//! The number is taken at the precision of a double: it stands for the double
//! nearest to it, and the byte count is that double times the unit, rounded down.

use crate::text;
use crate::text::{ascii_lower_chars, chars_of, copy_range, is_text, strip_prefix, trim};
use vstd::arithmetic::div_mod::lemma_fundamental_div_mod_converse;
use vstd::prelude::*;

verus! {

/// `10^n`.
pub open spec fn pow10(n: nat) -> nat
    decreases n,
{
    if n == 0 {
        1
    } else {
        10 * pow10((n - 1) as nat)
    }
}

/// `2^n`.
pub open spec fn pow2(n: nat) -> nat
    decreases n,
{
    if n == 0 {
        1
    } else {
        2 * pow2((n - 1) as nat)
    }
}

/// `n / d` rounded to the nearest integer, a half to the even one.
pub open spec fn rounded(n: nat, d: nat) -> nat {
    let q = n / d;
    let r = n % d;
    if 2 * r > d || (2 * r == d && q % 2 == 1) {
        q + 1
    } else {
        q
    }
}

/// The least `i` with `n < bound * 2^i`.
pub open spec fn shift_down(n: nat, bound: nat) -> nat
    decreases
        (if n >= bound {
            n - bound + 1
        } else {
            0
        }),
{
    if bound == 0 || n < bound {
        0
    } else {
        1 + shift_down(n, 2 * bound)
    }
}

/// The least `j` with `n * 2^j >= bound`.
pub open spec fn shift_up(n: nat, bound: nat) -> nat
    decreases
        (if n < bound {
            bound - n
        } else {
            0
        }),
{
    if n == 0 || n >= bound {
        0
    } else {
        1 + shift_up(2 * n, bound)
    }
}

/// The double nearest to `n / d`, a tie to the even one, rounded down to an
/// integer. A double has a significand of 53 bits.
pub open spec fn double_floor(n: nat, d: nat) -> nat {
    if n == 0 {
        0
    } else if n >= 0x20_0000_0000_0000 * d {
        let i = shift_down(n, 0x20_0000_0000_0000 * d);
        rounded(n, d * pow2(i)) * pow2(i)
    } else {
        let j = shift_up(n, 0x10_0000_0000_0000 * d);
        rounded(n * pow2(j), d) / pow2(j)
    }
}

/// `n`, or the largest `u64` when it is larger.
pub open spec fn saturated(n: nat) -> u64 {
    if n > u64::MAX {
        u64::MAX
    } else {
        n as u64
    }
}

/// The value of decimal digits, the least significant one first.
spec fn value(d: Seq<u8>) -> nat
    decreases d.len(),
{
    if d.len() == 0 {
        0
    } else {
        value(d.drop_last()) + d.last() as nat * pow10((d.len() - 1) as nat)
    }
}

/// Whether the items are decimal digits.
spec fn digits(d: Seq<u8>) -> bool {
    forall|i: int| 0 <= i < d.len() ==> #[trigger] d[i] < 10
}

proof fn lemma_pow10_positive(n: nat)
    ensures
        pow10(n) >= 1,
    decreases n,
{
    if n > 0 {
        lemma_pow10_positive((n - 1) as nat);
    }
}

proof fn lemma_pow2_positive(n: nat)
    ensures
        pow2(n) >= 1,
    decreases n,
{
    if n > 0 {
        lemma_pow2_positive((n - 1) as nat);
    }
}

proof fn lemma_value_bound(d: Seq<u8>)
    requires
        digits(d),
    ensures
        value(d) < pow10(d.len()),
    decreases d.len(),
{
    if d.len() > 0 {
        lemma_value_bound(d.drop_last());
        let p = pow10((d.len() - 1) as nat);
        let top = d.last() as nat;
        assert(top * p <= 9 * p) by (nonlinear_arith)
            requires
                top <= 9,
        ;
    }
}

proof fn lemma_value_front(d: Seq<u8>)
    requires
        d.len() > 0,
    ensures
        value(d) == d[0] + 10 * value(d.drop_first()),
    decreases d.len(),
{
    if d.len() == 1 {
        assert(d.drop_last() =~= Seq::empty());
        assert(d.drop_first() =~= Seq::empty());
        assert(pow10(0) == 1);
    } else {
        let back = d.drop_last();
        let front = d.drop_first();
        lemma_value_front(back);
        assert(back.drop_first() =~= front.drop_last());
        let p = pow10((d.len() - 2) as nat);
        assert(pow10((d.len() - 1) as nat) == 10 * p);
        let top = d.last() as nat;
        assert(top * (10 * p) == 10 * (top * p)) by (nonlinear_arith);
    }
}

proof fn lemma_value_split(d: Seq<u8>, f: nat)
    requires
        f <= d.len(),
    ensures
        value(d) == value(d.take(f as int)) + pow10(f) * value(d.skip(f as int)),
    decreases d.len(),
{
    if d.len() == f {
        assert(d.take(f as int) =~= d);
        assert(d.skip(f as int) =~= Seq::empty());
        assert(pow10(f) * 0 == 0) by (nonlinear_arith);
    } else {
        let back = d.drop_last();
        lemma_value_split(back, f);
        assert(back.take(f as int) =~= d.take(f as int));
        let high = d.skip(f as int);
        assert(high.drop_last() =~= back.skip(f as int));
        lemma_pow10_sum(f, (high.len() - 1) as nat);
        let p = pow10(f);
        let q = pow10((high.len() - 1) as nat);
        let v = value(back.skip(f as int));
        let top = d.last() as nat;
        assert(p * (v + top * q) == p * v + top * (p * q)) by (nonlinear_arith);
    }
}

proof fn lemma_pow10_sum(a: nat, b: nat)
    ensures
        pow10(a + b) == pow10(a) * pow10(b),
    decreases b,
{
    if b == 0 {
        assert(pow10(a) * 1 == pow10(a)) by (nonlinear_arith);
    } else {
        lemma_pow10_sum(a, (b - 1) as nat);
        let p = pow10(a);
        let q = pow10((b - 1) as nat);
        assert(p * (10 * q) == 10 * (p * q)) by (nonlinear_arith);
    }
}

proof fn lemma_value_zero(d: Seq<u8>)
    ensures
        value(d) == 0 <==> (forall|i: int| 0 <= i < d.len() ==> d[i] == 0),
    decreases d.len(),
{
    if d.len() > 0 {
        let back = d.drop_last();
        lemma_value_zero(back);
        let p = pow10((d.len() - 1) as nat);
        lemma_pow10_positive((d.len() - 1) as nat);
        let top = d.last() as nat;
        if top == 0 {
            assert(top * p == 0) by (nonlinear_arith)
                requires
                    top == 0,
            ;
            if value(d) == 0 {
                assert forall|i: int| 0 <= i < d.len() implies d[i] == 0 by {
                    if i < back.len() {
                        assert(back[i] == 0);
                    }
                }
            } else if forall|i: int| 0 <= i < d.len() ==> d[i] == 0 {
                assert forall|i: int| 0 <= i < back.len() implies back[i] == 0 by {
                    assert(d[i] == 0);
                }
            }
        } else {
            assert(top * p >= 1) by (nonlinear_arith)
                requires
                    top >= 1,
                    p >= 1,
            ;
            assert(d[d.len() - 1] != 0);
        }
    }
}

/// Double the number.
fn double(d: &mut Vec<u8>)
    requires
        digits(old(d)@),
    ensures
        digits(final(d)@),
        final(d)@.len() >= old(d)@.len(),
        value(final(d)@) == 2 * value(old(d)@),
{
    let ghost start = d@;
    let mut carry: u8 = 0;
    let mut i: usize = 0;
    assert(start.take(0) =~= Seq::empty());
    assert(d@.take(0) =~= Seq::empty());
    while i < d.len()
        invariant
            i <= d@.len(),
            d@.len() == start.len(),
            carry <= 1,
            digits(start),
            digits(d@),
            forall|k: int| i <= k < d@.len() ==> d@[k] == start[k],
            value(d@.take(i as int)) + carry as nat * pow10(i as nat) == 2 * value(
                start.take(i as int),
            ),
        decreases d@.len() - i,
    {
        let ghost before = d@;
        assert(start[i as int] < 10);
        let sum: u8 = d[i] * 2 + carry;
        let low: u8 = sum % 10;
        let high: u8 = sum / 10;
        d.set(i, low);
        proof {
            let p = pow10(i as nat);
            let old_digit = start[i as int] as nat;
            assert(d@.take(i + 1).drop_last() =~= before.take(i as int));
            assert(start.take(i + 1).drop_last() =~= start.take(i as int));
            assert(low as nat * p + high as nat * (10 * p) == 2 * (old_digit * p) + carry as nat * p)
                by (nonlinear_arith)
                requires
                    low as nat + 10 * (high as nat) == 2 * old_digit + carry as nat,
            ;
        }
        carry = high;
        i += 1;
    }
    assert(start.take(i as int) =~= start);
    assert(d@.take(i as int) =~= d@);
    if carry > 0 {
        let ghost before = d@;
        d.push(carry);
        assert(d@.drop_last() =~= before);
    } else {
        assert(carry as nat * pow10(i as nat) == 0) by (nonlinear_arith)
            requires
                carry == 0,
        ;
    }
}

/// The number without its lowest `f` digits, or `None` when that is no `u64`.
fn whole(d: &Vec<u8>, f: usize) -> (r: Option<u64>)
    requires
        digits(d@),
        f <= d@.len(),
    ensures
        r is Some <==> value(d@.skip(f as int)) <= u64::MAX,
        r matches Some(w) ==> w == value(d@.skip(f as int)),
{
    let mut acc: u128 = 0;
    let mut i: usize = d.len();
    assert(d@.skip(d@.len() as int) =~= Seq::empty());
    while i > f
        invariant
            f <= i <= d@.len(),
            digits(d@),
            acc <= 0x1_0000_0000_0000_0000,
            acc < 0x1_0000_0000_0000_0000 ==> acc == value(d@.skip(i as int)),
            acc == 0x1_0000_0000_0000_0000 ==> value(d@.skip(i as int)) > u64::MAX,
        decreases i,
    {
        i -= 1;
        proof {
            lemma_value_front(d@.skip(i as int));
            assert(d@.skip(i as int).drop_first() =~= d@.skip(i + 1));
        }
        acc = acc * 10 + d[i] as u128;
        if acc > 0xFFFF_FFFF_FFFF_FFFF {
            acc = 0x1_0000_0000_0000_0000;
        }
    }
    if acc <= 0xFFFF_FFFF_FFFF_FFFF {
        Some(acc as u64)
    } else {
        None
    }
}

/// Whether the lowest `f` digits are all zero.
fn is_zero(d: &Vec<u8>, f: usize) -> (r: bool)
    requires
        f <= d@.len(),
    ensures
        r == (value(d@.take(f as int)) == 0),
{
    let mut i: usize = 0;
    while i < f
        invariant
            i <= f <= d@.len(),
            forall|k: int| 0 <= k < i ==> d@[k] == 0,
        decreases f - i,
    {
        if d[i] != 0 {
            proof {
                lemma_value_zero(d@.take(f as int));
                assert(d@.take(f as int)[i as int] != 0);
            }
            return false;
        }
        i += 1;
    }
    proof {
        lemma_value_zero(d@.take(f as int));
    }
    true
}

/// How a remainder lies to the half.
enum Half {
    Below,
    At,
    Above,
}

/// How the lowest `f` digits lie to the half of `10^f`.
fn half(d: &Vec<u8>, f: usize) -> (r: Half)
    requires
        digits(d@),
        f <= d@.len(),
    ensures
        r is Below <==> 2 * value(d@.take(f as int)) < pow10(f as nat),
        r is At <==> 2 * value(d@.take(f as int)) == pow10(f as nat),
{
    if f == 0 {
        return Half::Below;
    }
    let top: u8 = d[f - 1];
    proof {
        let low = d@.take(f - 1);
        assert(d@.take(f as int).drop_last() =~= low);
        lemma_value_bound(low);
        let p = pow10((f - 1) as nat);
        if top >= 6 {
            assert(top as nat * p >= 6 * p) by (nonlinear_arith)
                requires
                    top >= 6,
            ;
        } else if top <= 4 {
            assert(top as nat * p <= 4 * p) by (nonlinear_arith)
                requires
                    top <= 4,
            ;
        } else {
            assert(top as nat * p == 5 * p) by (nonlinear_arith)
                requires
                    top == 5,
            ;
        }
    }
    if top > 5 {
        Half::Above
    } else if top < 5 {
        Half::Below
    } else if is_zero(d, f - 1) {
        Half::At
    } else {
        Half::Above
    }
}

proof fn lemma_shift_down(n: nat, bound: nat)
    requires
        bound > 0,
    ensures
        n < bound * pow2(shift_down(n, bound)),
        shift_down(n, bound) > 0 ==> 2 * n >= bound * pow2(shift_down(n, bound)),
    decreases
        (if n >= bound {
            n - bound + 1
        } else {
            0
        }),
{
    if n >= bound {
        lemma_shift_down(n, 2 * bound);
        let i = shift_down(n, 2 * bound);
        let p = pow2(i);
        assert(pow2(i + 1) == 2 * p);
        assert(bound * (2 * p) == 2 * bound * p) by (nonlinear_arith);
        if i == 0 {
            assert(p == 1);
            assert(bound * 2 == 2 * bound) by (nonlinear_arith);
        }
    } else {
        assert(bound * 1 == bound) by (nonlinear_arith);
    }
}

/// `2^31`.
pub proof fn lemma_pow2_31()
    ensures
        pow2(31) == 0x8000_0000,
        pow2(0) == 1,
{
    reveal_with_fuel(pow2, 32);
}

/// A larger exponent gives no smaller power.
pub proof fn lemma_pow2_monotonic(a: nat, b: nat)
    requires
        a <= b,
    ensures
        pow2(a) <= pow2(b),
    decreases b,
{
    if a < b {
        lemma_pow2_monotonic(a, (b - 1) as nat);
    }
}

/// A number from `2^64` on stays there when rounded to a double.
proof fn lemma_huge(n: nat, d: nat)
    requires
        d > 0,
        n >= 0x1_0000_0000_0000_0000 * d,
    ensures
        double_floor(n, d) > u64::MAX,
{
    let bound = 0x20_0000_0000_0000 * d;
    let i = shift_down(n, bound);
    lemma_shift_down(n, bound);
    reveal_with_fuel(pow2, 13);
    assert(pow2(11) == 2048);
    assert(pow2(12) == 4096);
    if i <= 11 {
        lemma_pow2_monotonic(i, 11);
        let p = pow2(i);
        assert(bound * p <= 0x1_0000_0000_0000_0000 * d) by (nonlinear_arith)
            requires
                bound == 0x20_0000_0000_0000 * d,
                p <= 2048,
        ;
        assert(false);
    }
    lemma_pow2_monotonic(12, i);
    let p = pow2(i);
    let q = n / (d * p);
    assert(n >= 0x10_0000_0000_0000 * (d * p)) by (nonlinear_arith)
        requires
            2 * n >= bound * p,
            bound == 0x20_0000_0000_0000 * d,
    ;
    assert(d * p > 0) by (nonlinear_arith)
        requires
            d > 0,
            p > 0,
    ;
    assert(q >= 0x10_0000_0000_0000) by (nonlinear_arith)
        requires
            q == n / (d * p),
            d * p > 0,
            n >= 0x10_0000_0000_0000 * (d * p),
    ;
    let m = rounded(n, d * p);
    assert(m >= q);
    assert(m * p >= 0x1_0000_0000_0000_0000) by (nonlinear_arith)
        requires
            m >= 0x10_0000_0000_0000,
            p >= 4096,
    ;
}

/// A number under `2^64` whose integer part has more than 53 bits.
fn round_large(d: &Vec<u8>, f: usize, w: u64) -> (r: u64)
    requires
        digits(d@),
        f <= d@.len(),
        w == value(d@.skip(f as int)),
        w >= 0x20_0000_0000_0000,
    ensures
        r == saturated(double_floor(value(d@), pow10(f as nat))),
{
    let ghost n = value(d@);
    let ghost den = pow10(f as nat);
    let ghost low = value(d@.take(f as int));
    let ghost bound = 0x20_0000_0000_0000 * den;
    proof {
        lemma_value_split(d@, f as nat);
        lemma_value_bound(d@.take(f as int));
        assert(n == w * den + low) by (nonlinear_arith)
            requires
                n == low + den * w,
        ;
        assert(n >= bound) by (nonlinear_arith)
            requires
                n == w * den + low,
                w >= 0x20_0000_0000_0000,
                bound == 0x20_0000_0000_0000 * den,
        ;
    }
    let mut p: u64 = 1;
    let ghost mut i: nat = 0;
    let wide: u128 = w as u128;
    assert(bound * 1 == bound) by (nonlinear_arith);
    while 0x20_0000_0000_0000 * (p as u128) <= wide
        invariant
            wide == w,
            1 <= p <= 4096,
            p == pow2(i),
            n == w * den + low,
            low < den,
            bound == 0x20_0000_0000_0000 * den,
            shift_down(n, bound) == i + shift_down(n, bound * (p as nat)),
            i == 0 ==> w >= 0x20_0000_0000_0000,
        decreases 8192 - p,
    {
        proof {
            assert(n >= bound * (p as nat)) by (nonlinear_arith)
                requires
                    n == w * den + low,
                    w >= 0x20_0000_0000_0000 * p,
                    bound == 0x20_0000_0000_0000 * den,
            ;
            assert(bound * (p as nat) > 0) by (nonlinear_arith)
                requires
                    bound == 0x20_0000_0000_0000 * den,
                    den > low,
                    p >= 1,
            ;
            assert(bound * ((2 * p) as nat) == 2 * (bound * (p as nat))) by (nonlinear_arith);
            i = i + 1;
        }
        p = p * 2;
    }
    proof {
        assert(n < bound * (p as nat)) by (nonlinear_arith)
            requires
                n == w * den + low,
                low < den,
                w < 0x20_0000_0000_0000 * p,
                bound == 0x20_0000_0000_0000 * den,
        ;
        assert(shift_down(n, bound) == i);
        if i == 0 {
            assert(p == 1);
            assert(false);
        }
        assert(p % 2 == 0);
    }
    let q: u64 = w / p;
    let part: u64 = w % p;
    let middle: u64 = p / 2;
    let ghost rem = part * den + low;
    let ghost whole_den = den * p;
    proof {
        assert(w == q * p + part) by {
            vstd::arithmetic::div_mod::lemma_fundamental_div_mod(w as int, p as int);
            assert(p * q == q * p) by (nonlinear_arith);
        }
        assert(n == q * whole_den + rem && 0 <= rem < whole_den) by (nonlinear_arith)
            requires
                n == w * den + low,
                w == q * p + part,
                part < p,
                low < den,
                rem == part * den + low,
                whole_den == den * p,
        ;
        lemma_fundamental_div_mod_converse(n as int, whole_den as int, q as int, rem as int);
        assert(n / (whole_den as nat) == q);
        assert(n % (whole_den as nat) == rem);
        if part > middle {
            assert(2 * rem > whole_den) by (nonlinear_arith)
                requires
                    2 * part >= p + 1,
                    rem == part * den + low,
                    whole_den == den * p,
                    den > low,
            ;
        } else if part < middle {
            assert(2 * rem < whole_den) by (nonlinear_arith)
                requires
                    2 * part + 2 <= p,
                    rem == part * den + low,
                    whole_den == den * p,
                    low < den,
            ;
        } else {
            assert(2 * rem == whole_den + 2 * low) by (nonlinear_arith)
                requires
                    2 * part == p,
                    rem == part * den + low,
                    whole_den == den * p,
            ;
        }
    }
    let up = if part > middle {
        true
    } else if part < middle {
        false
    } else if is_zero(d, f) {
        q % 2 == 1
    } else {
        true
    };
    let m: u128 = if up {
        q as u128 + 1
    } else {
        q as u128
    };
    assert(m == rounded(n, (den * pow2(i)) as nat));
    assert(m * p <= 0x1_0000_0000_0000_0000 * 4096) by (nonlinear_arith)
        requires
            m <= 0x1_0000_0000_0000_0000,
            p <= 4096,
    ;
    let total: u128 = m * (p as u128);
    if total > 0xFFFF_FFFF_FFFF_FFFF {
        u64::MAX
    } else {
        total as u64
    }
}

/// A number under `2^53`.
fn round_small(number: Vec<u8>, f: usize) -> (r: u64)
    requires
        digits(number@),
        f <= number@.len(),
        value(number@.skip(f as int)) < 0x20_0000_0000_0000,
    ensures
        r == saturated(double_floor(value(number@), pow10(f as nat))),
{
    let mut d = number;
    let ghost n = value(d@);
    let ghost den = pow10(f as nat);
    let ghost bound = 0x10_0000_0000_0000 * den;
    proof {
        lemma_pow10_positive(f as nat);
        lemma_value_split(d@, f as nat);
        lemma_value_bound(d@.take(f as int));
        let w = value(d@.skip(f as int));
        let low = value(d@.take(f as int));
        assert(n < 0x20_0000_0000_0000 * den) by (nonlinear_arith)
            requires
                n == low + den * w,
                low < den,
                w < 0x20_0000_0000_0000,
        ;
    }
    let size: usize = d.len();
    proof {
        assert(d@.take(size as int) =~= d@);
    }
    if is_zero(&d, size) {
        return 0;
    }
    let mut p: Option<u64> = Some(1);
    let ghost mut j: nat = 0;
    assert(n * 1 == n) by (nonlinear_arith);
    let mut w: u64 = match whole(&d, f) {
        Some(v) => v,
        None => 0,
    };
    while w < 0x10_0000_0000_0000
        invariant
            digits(d@),
            f <= d@.len(),
            n > 0,
            den == pow10(f as nat),
            den > 0,
            bound == 0x10_0000_0000_0000 * den,
            w == value(d@.skip(f as int)),
            w < 0x20_0000_0000_0000,
            value(d@) == n * pow2(j),
            value(d@) > 0,
            shift_up(n, bound) == j + shift_up(value(d@), bound),
            p matches Some(q) ==> q == pow2(j),
            p is None ==> pow2(j) > u64::MAX,
        decreases 2 * bound - value(d@),
    {
        let ghost before = value(d@);
        proof {
            lemma_value_split(d@, f as nat);
            lemma_value_bound(d@.take(f as int));
            let low = value(d@.take(f as int));
            assert(before < bound) by (nonlinear_arith)
                requires
                    before == low + den * w,
                    low < den,
                    w < 0x10_0000_0000_0000,
                    bound == 0x10_0000_0000_0000 * den,
            ;
        }
        double(&mut d);
        proof {
            lemma_value_split(d@, f as nat);
            lemma_value_bound(d@.take(f as int));
            let low = value(d@.take(f as int));
            let v = value(d@.skip(f as int));
            assert(v < 0x20_0000_0000_0000) by (nonlinear_arith)
                requires
                    2 * before == low + den * v,
                    before < bound,
                    bound == 0x10_0000_0000_0000 * den,
                    den > 0,
            ;
            let pj = pow2(j);
            assert(n * (2 * pj) == 2 * (n * pj)) by (nonlinear_arith);
        }
        w = match whole(&d, f) {
            Some(v) => v,
            None => 0,
        };
        p = match p {
            Some(q) => if q <= 0x7FFF_FFFF_FFFF_FFFF {
                Some(q * 2)
            } else {
                None
            },
            None => None,
        };
        proof {
            j = j + 1;
        }
    }
    let ghost scaled = value(d@);
    let ghost low = value(d@.take(f as int));
    proof {
        lemma_value_split(d@, f as nat);
        lemma_value_bound(d@.take(f as int));
        assert(scaled >= bound) by (nonlinear_arith)
            requires
                scaled == low + den * w,
                w >= 0x10_0000_0000_0000,
                bound == 0x10_0000_0000_0000 * den,
        ;
        assert(scaled == w * den + low) by (nonlinear_arith)
            requires
                scaled == low + den * w,
        ;
        lemma_fundamental_div_mod_converse(scaled as int, den as int, w as int, low as int);
        lemma_pow2_positive(j);
    }
    let m: u64 = match half(&d, f) {
        Half::Above => w + 1,
        Half::Below => w,
        Half::At => if w % 2 == 1 {
            w + 1
        } else {
            w
        },
    };
    assert(m == rounded(scaled, den));
    match p {
        Some(q) => {
            assert(m / q <= m) by (nonlinear_arith)
                requires
                    q >= 1,
            ;
            m / q
        },
        None => {
            assert(m as nat / pow2(j) == 0) by {
                vstd::arithmetic::div_mod::lemma_basic_div(m as int, pow2(j) as int);
            }
            0
        },
    }
}

/// The double nearest to the number with `f` decimals, rounded down.
fn nearest(d: Vec<u8>, f: usize) -> (r: u64)
    requires
        digits(d@),
        f <= d@.len(),
    ensures
        r == saturated(double_floor(value(d@), pow10(f as nat))),
{
    match whole(&d, f) {
        Some(w) => if w >= 0x20_0000_0000_0000 {
            round_large(&d, f, w)
        } else {
            round_small(d, f)
        },
        None => {
            proof {
                lemma_value_split(d@, f as nat);
                lemma_pow10_positive(f as nat);
                let w = value(d@.skip(f as int));
                let low = value(d@.take(f as int));
                let den = pow10(f as nat);
                let n = value(d@);
                assert(n >= 0x1_0000_0000_0000_0000 * den) by (nonlinear_arith)
                    requires
                        n == low + den * w,
                        w >= 0x1_0000_0000_0000_0000,
                ;
                lemma_huge(n, den);
            }
            u64::MAX
        },
    }
}

/// How many characters of `s` come before the first one that is neither a digit
/// nor a point.
pub open spec fn number_len(s: Seq<char>) -> nat
    decreases s.len(),
{
    if s.len() > 0 && (text::is_digit(s[0]) || s[0] == '.') {
        1 + number_len(s.drop_first())
    } else {
        0
    }
}

/// How many characters of `s` come before its first point.
pub open spec fn until_point(s: Seq<char>) -> nat
    decreases s.len(),
{
    if s.len() == 0 || s[0] == '.' {
        0
    } else {
        1 + until_point(s.drop_first())
    }
}

/// The decimals of a number: what follows its first point.
pub open spec fn decimals(s: Seq<char>) -> Seq<char> {
    if until_point(s) < s.len() {
        s.skip(until_point(s) as int + 1)
    } else {
        Seq::empty()
    }
}

/// The digits of a number without its first point.
pub open spec fn figures(s: Seq<char>) -> Seq<char> {
    s.take(until_point(s) as int) + decimals(s)
}

/// The power of two that a unit multiplies by.
pub open spec fn unit_bits(unit: Seq<char>) -> Option<nat> {
    if unit == ""@ || unit == "b"@ {
        Some(0)
    } else if unit == "kb"@ || unit == "k"@ {
        Some(10)
    } else if unit == "mb"@ || unit == "m"@ {
        Some(20)
    } else if unit == "gb"@ || unit == "g"@ {
        Some(30)
    } else if unit == "tb"@ || unit == "t"@ {
        Some(40)
    } else {
        None
    }
}

/// The byte count that a size stands for: a number, one digit at least and one
/// point at most, and a unit.
pub open spec fn size_bytes(s: Seq<char>) -> Option<u64> {
    let t = text::trimmed(s);
    let number = t.take(number_len(t) as int);
    let unit = unit_bits(text::ascii_lowered(text::trimmed(t.skip(number_len(t) as int))));
    if text::is_numeral(figures(number)) && unit is Some {
        let n = text::digits_value(figures(number)) * pow2(unit->0);
        Some(saturated(double_floor(n, pow10(decimals(number).len()))))
    } else {
        None
    }
}

proof fn lemma_number_len(s: Seq<char>)
    ensures
        number_len(s) <= s.len(),
    decreases s.len(),
{
    if s.len() > 0 {
        lemma_number_len(s.drop_first());
    }
}

proof fn lemma_until_point(s: Seq<char>)
    ensures
        until_point(s) <= s.len(),
    decreases s.len(),
{
    if s.len() > 0 && s[0] != '.' {
        lemma_until_point(s.drop_first());
    }
}

/// The characters of `s` that come before the first one that is neither a digit
/// nor a point.
fn count_number(s: &Vec<char>) -> (r: usize)
    ensures
        r == number_len(s@),
        r <= s@.len(),
{
    let mut i: usize = 0;
    assert(s@.skip(0) =~= s@);
    while i < s.len() && (('0' <= s[i] && s[i] <= '9') || s[i] == '.')
        invariant
            i <= s@.len(),
            number_len(s@) == i + number_len(s@.skip(i as int)),
        decreases s@.len() - i,
    {
        assert(s@.skip(i as int).drop_first() =~= s@.skip(i + 1));
        i += 1;
    }
    i
}

/// The characters of `s` that come before its first point.
fn count_whole(s: &Vec<char>) -> (r: usize)
    ensures
        r == until_point(s@),
        r <= s@.len(),
{
    let mut i: usize = 0;
    assert(s@.skip(0) =~= s@);
    while i < s.len() && s[i] != '.'
        invariant
            i <= s@.len(),
            until_point(s@) == i + until_point(s@.skip(i as int)),
        decreases s@.len() - i,
    {
        assert(s@.skip(i as int).drop_first() =~= s@.skip(i + 1));
        i += 1;
    }
    i
}

/// The digits of a numeral, the least significant one first.
fn reversed_digits(s: &Vec<char>) -> (r: Option<Vec<u8>>)
    ensures
        r is Some <==> text::is_numeral(s@),
        r matches Some(d) ==> digits(d@) && d@.len() == s@.len() && value(d@) == text::digits_value(
            s@,
        ),
{
    if s.len() == 0 {
        return None;
    }
    let mut out: Vec<u8> = Vec::new();
    let mut i: usize = s.len();
    assert(s@.skip(s@.len() as int) =~= Seq::empty());
    while i > 0
        invariant
            i <= s@.len(),
            out@.len() == s@.len() - i,
            digits(out@),
            forall|k: int| i <= k < s@.len() ==> text::is_digit(#[trigger] s@[k]),
            forall|k: int| 0 <= k < out@.len() ==> #[trigger] out@[k] == s@[s@.len() - 1 - k] as u32
                - '0' as u32,
        decreases i,
    {
        i -= 1;
        let c = s[i];
        if !('0' <= c && c <= '9') {
            assert(!text::is_digit(s@[i as int]));
            return None;
        }
        out.push((c as u8) - ('0' as u8));
    }
    proof {
        lemma_reversed(s@, out@);
    }
    Some(out)
}

proof fn lemma_reversed(s: Seq<char>, d: Seq<u8>)
    requires
        d.len() == s.len(),
        text::all_digits(s),
        forall|k: int| 0 <= k < d.len() ==> #[trigger] d[k] == s[s.len() - 1 - k] as u32 - '0' as u32,
    ensures
        value(d) == text::digits_value(s),
    decreases s.len(),
{
    if s.len() > 0 {
        lemma_value_front(d);
        let rest = s.drop_last();
        assert forall|i: int| 0 <= i < rest.len() implies text::is_digit(#[trigger] rest[i]) by {
            assert(text::is_digit(s[i]));
        }
        assert forall|k: int| 0 <= k < rest.len() implies #[trigger] d.drop_first()[k]
            == rest[rest.len() - 1 - k] as u32 - '0' as u32 by {
            assert(d[k + 1] == s[s.len() - 1 - (k + 1)] as u32 - '0' as u32);
        }
        lemma_reversed(rest, d.drop_first());
        assert(text::is_digit(s[s.len() - 1]));
        assert(d[0] == s[s.len() - 1] as u32 - '0' as u32);
    }
}

/// The power of two that a unit multiplies by.
fn parse_unit(unit: &Vec<char>) -> (r: Option<u32>)
    ensures
        r is Some <==> unit_bits(unit@) is Some,
        r matches Some(b) ==> b == unit_bits(unit@)->0,
{
    let u = unit.as_slice();
    if is_text(u, "") || is_text(u, "b") {
        Some(0)
    } else if is_text(u, "kb") || is_text(u, "k") {
        Some(10)
    } else if is_text(u, "mb") || is_text(u, "m") {
        Some(20)
    } else if is_text(u, "gb") || is_text(u, "g") {
        Some(30)
    } else if is_text(u, "tb") || is_text(u, "t") {
        Some(40)
    } else {
        None
    }
}

/// Parse a number with an optional unit (`kb`/`mb`/`gb`/`tb`, 1024-based).
pub fn parse_size_bytes(s: &str) -> (r: Option<u64>)
    ensures
        r == size_bytes(s@),
{
    let chars = chars_of(s);
    bytes_of(chars.as_slice())
}

/// The byte count that the characters of a size stand for.
fn bytes_of(s: &[char]) -> (r: Option<u64>)
    ensures
        r == size_bytes(s@),
{
    let t = trim(s);
    let split: usize = count_number(&t);
    let number = copy_range(t.as_slice(), 0, split);
    let tail = copy_range(t.as_slice(), split, t.len());
    assert(number@ =~= t@.take(split as int));
    assert(tail@ =~= t@.skip(split as int));
    let point: usize = count_whole(&number);
    let mut figure_chars = copy_range(number.as_slice(), 0, point);
    assert(figure_chars@ =~= number@.take(point as int));
    let from: usize = if point < number.len() {
        point + 1
    } else {
        point
    };
    let places: usize = number.len() - from;
    let rest = copy_range(number.as_slice(), from, number.len());
    assert(rest@ =~= decimals(number@));
    text::append_chars(&mut figure_chars, rest.as_slice());
    assert(figure_chars@ =~= figures(number@));
    let trimmed_tail = trim(tail.as_slice());
    let unit = ascii_lower_chars(trimmed_tail.as_slice());
    match (reversed_digits(&figure_chars), parse_unit(&unit)) {
        (Some(d), Some(bits)) => {
            let mut d = d;
            let ghost start = value(d@);
            let mut k: u32 = 0;
            assert(start * 1 == start) by (nonlinear_arith);
            while k < bits
                invariant
                    k <= bits,
                    digits(d@),
                    places <= d@.len(),
                    value(d@) == start * pow2(k as nat),
                decreases bits - k,
            {
                proof {
                    let p = pow2(k as nat);
                    assert(start * (2 * p) == 2 * (start * p)) by (nonlinear_arith);
                }
                double(&mut d);
                k += 1;
            }
            Some(nearest(d, places))
        },
        _ => None,
    }
}

/// Inclusive byte-size bounds from a `size:` filter.
#[derive(Clone, Copy)]
pub struct SizeFilter {
    pub min: Option<u64>,
    pub max: Option<u64>,
}

/// The bounds that a `size:` value stands for: `>`, `>=`, `<`, `<=` or no
/// operator, and a size. `>` and `<` move the bound by one byte and stop at the
/// ends of the range.
pub open spec fn size_filter(value: Seq<char>) -> Option<SizeFilter> {
    if text::has_prefix(value, ">="@) {
        match size_bytes(value.skip(2)) {
            Some(b) => Some(SizeFilter { min: Some(b), max: None }),
            None => None,
        }
    } else if text::has_prefix(value, "<="@) {
        match size_bytes(value.skip(2)) {
            Some(b) => Some(SizeFilter { min: None, max: Some(b) }),
            None => None,
        }
    } else if text::has_prefix(value, ">"@) {
        match size_bytes(value.skip(1)) {
            Some(b) => Some(SizeFilter { min: Some(saturated((b + 1) as nat)), max: None }),
            None => None,
        }
    } else if text::has_prefix(value, "<"@) {
        match size_bytes(value.skip(1)) {
            Some(b) => Some(
                SizeFilter {
                    min: None,
                    max: Some(
                        if b == 0 {
                            0
                        } else {
                            (b - 1) as u64
                        },
                    ),
                },
            ),
            None => None,
        }
    } else {
        match size_bytes(value) {
            Some(b) => Some(SizeFilter { min: Some(b), max: Some(b) }),
            None => None,
        }
    }
}

/// Parse a `size:` value such as `>100mb`, `<=1gb`, `>=512`, or `4kb`.
pub fn parse_size_filter(value: &str) -> (r: Option<SizeFilter>)
    ensures
        r == size_filter(value@),
{
    proof {
        reveal_strlit(">=");
        reveal_strlit("<=");
        reveal_strlit(">");
        reveal_strlit("<");
    }
    let chars = chars_of(value);
    let v = chars.as_slice();
    if let Some(rest) = strip_prefix(v, ">=") {
        let bytes = bytes_of(rest.as_slice())?;
        Some(SizeFilter { min: Some(bytes), max: None })
    } else if let Some(rest) = strip_prefix(v, "<=") {
        let bytes = bytes_of(rest.as_slice())?;
        Some(SizeFilter { min: None, max: Some(bytes) })
    } else if let Some(rest) = strip_prefix(v, ">") {
        let bytes = bytes_of(rest.as_slice())?;
        Some(SizeFilter { min: Some(bytes.saturating_add(1)), max: None })
    } else if let Some(rest) = strip_prefix(v, "<") {
        let bytes = bytes_of(rest.as_slice())?;
        Some(SizeFilter { min: None, max: Some(bytes.saturating_sub(1)) })
    } else {
        let bytes = bytes_of(v)?;
        Some(SizeFilter { min: Some(bytes), max: Some(bytes) })
    }
}

/// Whether a size lies within the bounds. An unknown size counts as 0.
pub open spec fn in_size(size: Option<u64>, filter: SizeFilter) -> bool {
    let bytes = match size {
        Some(b) => b,
        None => 0,
    };
    &&& filter.min matches Some(m) ==> m <= bytes
    &&& filter.max matches Some(m) ==> bytes <= m
}

/// Whether a size lies within the bounds. An unknown size counts as 0.
pub fn size_within(size: Option<u64>, filter: &SizeFilter) -> (r: bool)
    ensures
        r == in_size(size, *filter),
{
    let bytes: u64 = match size {
        Some(b) => b,
        None => 0,
    };
    if let Some(m) = filter.min {
        if bytes < m {
            return false;
        }
    }
    if let Some(m) = filter.max {
        if bytes > m {
            return false;
        }
    }
    true
}

/// A whole number below `2^53` stands for itself.
pub proof fn law_whole_size(n: nat)
    requires
        n < 0x20_0000_0000_0000,
    ensures
        double_floor(n, 1) == n,
{
    let j = shift_up(n, 0x10_0000_0000_0000);
    lemma_pow2_positive(j);
    let p = pow2(j);
    assert(rounded(n * p, 1) == n * p);
    assert((n * p) / p == n) by (nonlinear_arith)
        requires
            p >= 1,
    ;
}

proof fn lemma_trimmed_end_head(s: Seq<char>)
    requires
        s.len() > 0,
        !text::is_space(s[0]),
    ensures
        text::trimmed_end(s).len() > 0,
        text::trimmed_end(s)[0] == s[0],
    decreases s.len(),
{
    if text::is_space(s.last()) {
        assert(s.len() > 1);
        lemma_trimmed_end_head(s.drop_last());
    }
}

proof fn lemma_size_head(s: Seq<char>)
    requires
        size_bytes(s) is Some,
    ensures
        !text::has_prefix(s, "="@),
{
    reveal_strlit("=");
    if text::has_prefix(s, "="@) {
        assert(s.take(1)[0] == "="@[0]);
        assert(s[0] == '=');
        lemma_trimmed_end_head(s);
        let t = text::trimmed(s);
        assert(number_len(t) == 0);
        assert(t.take(0) =~= Seq::empty());
        assert(figures(t.take(0)).len() == 0);
    }
}

/// `size:>x` accepts exactly what `size:<=x` does not, and `size:<x` exactly what
/// `size:>=x` does not, for a size `x` from 1 byte on and below the largest one.
pub proof fn law_size_complement(x: Seq<char>, size: Option<u64>)
    requires
        size_bytes(x) is Some,
        0 < size_bytes(x)->0 < u64::MAX,
    ensures
        size_filter(">"@ + x) is Some,
        size_filter("<="@ + x) is Some,
        size_filter("<"@ + x) is Some,
        size_filter(">="@ + x) is Some,
        in_size(size, size_filter(">"@ + x)->0) == !in_size(size, size_filter("<="@ + x)->0),
        in_size(size, size_filter("<"@ + x)->0) == !in_size(size, size_filter(">="@ + x)->0),
{
    reveal_strlit(">=");
    reveal_strlit("<=");
    reveal_strlit(">");
    reveal_strlit("<");
    reveal_strlit("=");
    lemma_size_head(x);
    assert forall|p: Seq<char>| #[trigger] (p + x).skip(p.len() as int) == x by {
        assert((p + x).skip(p.len() as int) =~= x);
    }
    let gt = ">"@ + x;
    let ge = ">="@ + x;
    let lt = "<"@ + x;
    let le = "<="@ + x;
    assert(gt.skip(1) == x && lt.skip(1) == x && ge.skip(2) == x && le.skip(2) == x);
    assert(gt.take(1) =~= ">"@);
    assert(lt.take(1) =~= "<"@);
    assert(ge.take(2) =~= ">="@);
    assert(le.take(2) =~= "<="@);
    if x.len() > 0 {
        assert(x[0] != '=') by {
            if x[0] == '=' {
                assert(x.take(1) =~= "="@);
            }
        }
    }
    assert(!text::has_prefix(gt, ">="@)) by {
        if text::has_prefix(gt, ">="@) {
            assert(gt.take(2)[1] == '=');
        }
    }
    assert(!text::has_prefix(gt, "<="@)) by {
        if text::has_prefix(gt, "<="@) {
            assert(gt.take(2)[0] == '<');
        }
    }
    assert(!text::has_prefix(lt, ">="@)) by {
        if text::has_prefix(lt, ">="@) {
            assert(lt.take(2)[0] == '>');
        }
    }
    assert(!text::has_prefix(lt, "<="@)) by {
        if text::has_prefix(lt, "<="@) {
            assert(lt.take(2)[1] == '=');
        }
    }
    assert(!text::has_prefix(lt, ">"@)) by {
        if text::has_prefix(lt, ">"@) {
            assert(lt.take(1)[0] == '>');
        }
    }
    assert(!text::has_prefix(le, ">="@)) by {
        if text::has_prefix(le, ">="@) {
            assert(le.take(2)[0] == '>');
        }
    }
}

} // verus!
