//! Laws of sizes as they are typed.

use crate::size;
use crate::text;
use crate::word_laws;
use vstd::prelude::*;

verus! {

/// The bytes of a unit by its number: one, a kilobyte, a megabyte, a gigabyte and a
/// terabyte, each 1024 of the one before.
pub open spec fn scale(k: int) -> nat {
    if k == 0 {
        1
    } else if k == 1 {
        1024
    } else if k == 2 {
        1_048_576
    } else if k == 3 {
        1_073_741_824
    } else {
        1_099_511_627_776
    }
}

/// Whether a text in lower case names a unit: by its letter, or by that and a `b`; for
/// single bytes the letter may be missing.
pub open spec fn names_unit(s: Seq<char>, k: int) -> bool {
    let letter = if k == 1 {
        'k'
    } else if k == 2 {
        'm'
    } else if k == 3 {
        'g'
    } else {
        't'
    };
    if k == 0 {
        s.len() == 0 || (s.len() == 1 && s[0] == 'b')
    } else {
        (s.len() == 1 && s[0] == letter) || (s.len() == 2 && s[0] == letter && s[1] == 'b')
    }
}

proof fn lemma_scale()
    ensures
        size::pow2(0) == 1,
        size::pow2(10) == 1024,
        size::pow2(20) == 1_048_576,
        size::pow2(30) == 1_073_741_824,
        size::pow2(40) == 1_099_511_627_776,
{
    reveal_with_fuel(size::pow2, 11);
    assert(size::pow2(10) == 1024);
    assert(size::pow2(20) == 1024 * size::pow2(10));
    assert(size::pow2(30) == 1024 * size::pow2(20));
    assert(size::pow2(40) == 1024 * size::pow2(30));
}

proof fn lemma_unit(s: Seq<char>, k: int)
    requires
        0 <= k <= 4,
        names_unit(s, k),
    ensures
        size::unit_bits(s) == Some((10 * k) as nat),
        size::pow2((10 * k) as nat) == scale(k),
{
    reveal_strlit("");
    reveal_strlit("b");
    reveal_strlit("kb");
    reveal_strlit("k");
    reveal_strlit("mb");
    reveal_strlit("m");
    reveal_strlit("gb");
    reveal_strlit("g");
    reveal_strlit("tb");
    reveal_strlit("t");
    lemma_scale();
    if k == 0 {
        assert(s =~= ""@ || s =~= "b"@);
    } else if k == 1 {
        assert(s =~= "kb"@ || s =~= "k"@);
    } else if k == 2 {
        assert(s =~= "mb"@ || s =~= "m"@);
    } else if k == 3 {
        assert(s =~= "gb"@ || s =~= "g"@);
    } else {
        assert(s =~= "tb"@ || s =~= "t"@);
    }
}

/// A text of a kind that trimming keeps.
proof fn lemma_kept(s: Seq<char>)
    requires
        forall|i: int| 0 <= i < s.len() ==> !text::is_space(#[trigger] s[i]),
    ensures
        text::trimmed(s) == s,
{
    if s.len() > 0 {
        assert(!text::is_space(s[0]));
        assert(s.last() == s[s.len() - 1]);
    }
}

proof fn lemma_number_len(n: Seq<char>, u: Seq<char>)
    requires
        forall|i: int| 0 <= i < n.len() ==> text::is_digit(#[trigger] n[i]) || n[i] == '.',
        u.len() > 0 ==> !text::is_digit(u[0]) && u[0] != '.',
    ensures
        size::number_len(n + u) == n.len(),
    decreases n.len(),
{
    let s = n + u;
    if n.len() == 0 {
        assert(s =~= u);
    } else {
        let t = n.drop_first();
        assert forall|i: int| 0 <= i < t.len() implies text::is_digit(#[trigger] t[i]) || t[i]
            == '.' by {
            assert(t[i] == n[i + 1]);
        }
        lemma_number_len(t, u);
        assert(s.drop_first() =~= t + u);
        assert(s[0] == n[0]);
    }
}

proof fn lemma_until_point(d: Seq<char>, f: Seq<char>)
    requires
        forall|i: int| 0 <= i < d.len() ==> text::is_digit(#[trigger] d[i]),
    ensures
        size::until_point(d) == d.len(),
        size::until_point(d + seq!['.'] + f) == d.len(),
    decreases d.len(),
{
    let s = d + seq!['.'] + f;
    if d.len() > 0 {
        let t = d.drop_first();
        assert forall|i: int| 0 <= i < t.len() implies text::is_digit(#[trigger] t[i]) by {
            assert(t[i] == d[i + 1]);
        }
        lemma_until_point(t, f);
        assert(s.drop_first() =~= t + seq!['.'] + f);
        assert(s[0] == d[0]);
        assert(text::is_digit(d[0]));
    }
}

/// A typed size: digits, perhaps a point and more digits, and a unit in either letter
/// case.
#[verifier::rlimit(40)]
proof fn lemma_typed(n: Seq<char>, u: Seq<char>, k: int)
    requires
        forall|i: int| 0 <= i < n.len() ==> text::is_digit(#[trigger] n[i]) || n[i] == '.',
        0 <= k <= 4,
        names_unit(text::ascii_lowered(u), k),
        text::is_numeral(size::figures(n)),
    ensures
        size::size_bytes(n + u) == Some(
            size::saturated(
                size::double_floor(
                    text::digits_value(size::figures(n)) * scale(k),
                    size::pow10(size::decimals(n).len()),
                ),
            ),
        ),
{
    let s = n + u;
    let l = text::ascii_lowered(u);
    assert(l.len() == u.len());
    assert forall|i: int| 0 <= i < u.len() implies l[i] == text::ascii_lower(#[trigger] u[i]) by {}
    assert forall|i: int| 0 <= i < u.len() implies !text::is_space(#[trigger] u[i])
        && !text::is_digit(u[i]) && u[i] != '.' by {
        assert(l[i] == text::ascii_lower(u[i]));
    }
    assert forall|i: int| 0 <= i < s.len() implies !text::is_space(#[trigger] s[i]) by {
        if i < n.len() {
            assert(s[i] == n[i]);
        } else {
            assert(s[i] == u[i - n.len()]);
        }
    }
    lemma_kept(s);
    lemma_kept(u);
    lemma_number_len(n, u);
    assert(s.take(n.len() as int) =~= n);
    assert(s.skip(n.len() as int) =~= u);
    lemma_unit(l, k);
}

/// A whole number and a unit stand for so many times the bytes of the unit, below 2^53.
pub proof fn law_whole_units(d: Seq<char>, u: Seq<char>, k: int)
    requires
        text::is_numeral(d),
        0 <= k <= 4,
        names_unit(text::ascii_lowered(u), k),
        text::digits_value(d) * scale(k) < 0x20_0000_0000_0000,
    ensures
        size::size_bytes(d + u) == Some((text::digits_value(d) * scale(k)) as u64),
{
    lemma_until_point(d, Seq::empty());
    assert(d.take(d.len() as int) + Seq::<char>::empty() =~= d);
    lemma_typed(d, u, k);
    assert(size::pow10(0) == 1);
    size::law_whole_size(text::digits_value(d) * scale(k));
}

/// A number with decimals and a unit stand, below 2^53, for the whole bytes in it, where
/// the nearest double may be a byte more; for exactly its bytes where these are whole.
#[verifier::rlimit(40)]
pub proof fn law_decimal_units(d: Seq<char>, f: Seq<char>, u: Seq<char>, k: int)
    requires
        text::all_digits(d),
        text::all_digits(f),
        d.len() + f.len() > 0,
        0 <= k <= 4,
        names_unit(text::ascii_lowered(u), k),
        text::digits_value(d + f) * scale(k) < 0x20_0000_0000_0000 * size::pow10(f.len()),
    ensures
        size::size_bytes(d + seq!['.'] + f + u) is Some,
        ({
            let n = text::digits_value(d + f) * scale(k);
            let one = size::pow10(f.len());
            let b = size::size_bytes(d + seq!['.'] + f + u)->0;
            &&& n / one <= b <= n / one + 1
            &&& n % one == 0 ==> b == n / one
        }),
{
    let s = d + seq!['.'] + f;
    lemma_until_point(d, f);
    assert(s.skip(d.len() as int + 1) =~= f);
    assert(s.take(d.len() as int) =~= d);
    assert forall|i: int| 0 <= i < s.len() implies text::is_digit(#[trigger] s[i]) || s[i]
        == '.' by {
        if i < d.len() {
            assert(s[i] == d[i]);
        } else if i > d.len() {
            assert(s[i] == f[i - d.len() - 1]);
        }
    }
    assert forall|i: int| 0 <= i < (d + f).len() implies text::is_digit(#[trigger] (d + f)[i]) by {
        if i < d.len() {
            assert((d + f)[i] == d[i]);
        } else {
            assert((d + f)[i] == f[i - d.len()]);
        }
    }
    lemma_typed(s, u, k);
    lemma_pow10(f.len());
    let n = text::digits_value(d + f) * scale(k);
    let one = size::pow10(f.len());
    lemma_near(n, one);
    assert(n / one < 0x20_0000_0000_0000) by (nonlinear_arith)
        requires
            n < 0x20_0000_0000_0000 * one,
            one > 0,
    ;
}

proof fn lemma_pow10(n: nat)
    ensures
        size::pow10(n) >= 1,
    decreases n,
{
    if n > 0 {
        lemma_pow10((n - 1) as nat);
    }
}

proof fn lemma_pow2(n: nat)
    ensures
        size::pow2(n) >= 1,
    decreases n,
{
    if n > 0 {
        lemma_pow2((n - 1) as nat);
    }
}

#[verifier::rlimit(40)]
proof fn lemma_near(n: nat, d: nat)
    requires
        d >= 1,
        n < 0x20_0000_0000_0000 * d,
    ensures
        n / d <= size::double_floor(n, d) <= n / d + 1,
        n % d == 0 ==> size::double_floor(n, d) == n / d,
{
    if n > 0 {
        let j = size::shift_up(n, 0x10_0000_0000_0000 * d);
        lemma_pow2(j);
        let p = size::pow2(j);
        let q = n / d;
        let x = (n * p) / d;
        let y = size::rounded(n * p, d);
        assert(n == d * q + n % d && n % d < d) by (nonlinear_arith)
            requires
                q == n / d,
                d >= 1,
        ;
        let r = n % d;
        assert(x >= q * p && x < (q + 1) * p) by (nonlinear_arith)
            requires
                n == d * q + r,
                0 <= r < d,
                x == (n * p) / d,
                d >= 1,
                p >= 1,
        ;
        assert(y == x || y == x + 1);
        assert(y / p >= q) by (nonlinear_arith)
            requires
                y >= q * p,
                p >= 1,
        ;
        assert(y / p <= q + 1) by (nonlinear_arith)
            requires
                y <= (q + 1) * p,
                p >= 1,
        ;
        if r == 0 {
            assert(n * p == d * (q * p)) by (nonlinear_arith)
                requires
                    n == d * q,
            ;
            let w = (q * p) as nat;
            assert((d * w) / d == w && (d * w) % d == 0) by (nonlinear_arith)
                requires
                    d >= 1,
            ;
            assert(y == w);
            assert(w / p == q) by (nonlinear_arith)
                requires
                    w == q * p,
                    p >= 1,
            ;
        }
    } else {
        assert(0nat / d == 0) by (nonlinear_arith)
            requires
                d >= 1,
        ;
    }
}

/// A number and what is no unit say no size.
pub proof fn law_unknown_unit(d: Seq<char>, u: Seq<char>)
    requires
        text::is_numeral(d),
        forall|i: int| 0 <= i < u.len() ==> !text::is_space(#[trigger] u[i]),
        u.len() > 0 && !text::is_digit(u[0]) && u[0] != '.',
        forall|k: int| 0 <= k <= 4 ==> !#[trigger] names_unit(text::ascii_lowered(u), k),
    ensures
        size::size_bytes(d + u) is None,
{
    let s = d + u;
    let l = text::ascii_lowered(u);
    assert forall|i: int| 0 <= i < s.len() implies !text::is_space(#[trigger] s[i]) by {
        if i < d.len() {
            assert(s[i] == d[i]);
        } else {
            assert(s[i] == u[i - d.len()]);
        }
    }
    lemma_kept(s);
    lemma_kept(u);
    lemma_number_len(d, u);
    assert(s.skip(d.len() as int) =~= u);
    reveal_strlit("");
    reveal_strlit("b");
    reveal_strlit("kb");
    reveal_strlit("k");
    reveal_strlit("mb");
    reveal_strlit("m");
    reveal_strlit("gb");
    reveal_strlit("g");
    reveal_strlit("tb");
    reveal_strlit("t");
    assert(!names_unit(l, 0) && !names_unit(l, 1) && !names_unit(l, 2) && !names_unit(l, 3)
        && !names_unit(l, 4));
}

/// What an operator before a size asks of the bytes of a file: `>` more and `<` fewer, `>=`
/// and `<=` so many too, and none exactly so many. The bounds stay within what a size can
/// be: `<` takes no bytes for fewer than none, and `>` the most for more than that.
#[verifier::rlimit(40)]
pub proof fn law_size_operators(x: Seq<char>, size: u64)
    requires
        x.len() > 0,
        x[0] != '=' && x[0] != '<' && x[0] != '>',
        size::size_bytes(x) is Some,
    ensures
        ({
            let b = size::size_bytes(x)->0;
            let meets = |f: Option<size::SizeFilter>| f is Some && size::in_size(Some(size), f->0);
            &&& meets(size::size_filter(seq!['>', '='] + x)) <==> size >= b
            &&& meets(size::size_filter(seq!['<', '='] + x)) <==> size <= b
            &&& meets(size::size_filter(seq!['>'] + x)) <==> size > b || (size == b && b == u64::MAX)
            &&& meets(size::size_filter(seq!['<'] + x)) <==> size < b || (size == b && b == 0)
            &&& meets(size::size_filter(x)) <==> size == b
        }),
{
    reveal_strlit(">=");
    reveal_strlit("<=");
    reveal_strlit(">");
    reveal_strlit("<");
    let ge = seq!['>', '='];
    let le = seq!['<', '='];
    let gt = seq!['>'];
    let lt = seq!['<'];
    assert(">="@ =~= ge && "<="@ =~= le && ">"@ =~= gt && "<"@ =~= lt);
    word_laws::lemma_prefix(ge, x);
    word_laws::lemma_prefix(le, x);
    word_laws::lemma_prefix(gt, x);
    word_laws::lemma_prefix(lt, x);
    word_laws::lemma_no_prefix(le + x, ge, 0);
    word_laws::lemma_no_prefix(gt + x, ge, 1);
    word_laws::lemma_no_prefix(gt + x, le, 0);
    word_laws::lemma_no_prefix(lt + x, ge, 0);
    word_laws::lemma_no_prefix(lt + x, le, 1);
    word_laws::lemma_no_prefix(lt + x, gt, 0);
    word_laws::lemma_no_prefix(x, ge, 0);
    word_laws::lemma_no_prefix(x, le, 0);
    word_laws::lemma_no_prefix(x, gt, 0);
    word_laws::lemma_no_prefix(x, lt, 0);
}

} // verus!
