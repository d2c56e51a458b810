//! A percentage written without decimals. The number that its bits stand for is rounded to an
//! integer, halves to the even one, and written in decimal digits.
use crate::snapshot::Percent;
use crate::text::join2;
use vstd::arithmetic::div_mod::{lemma_fundamental_div_mod, lemma_fundamental_div_mod_converse};
use vstd::arithmetic::power2::{lemma2_to64, lemma_pow2_adds, lemma_pow2_pos,
    lemma_pow2_strictly_increases, lemma_pow2_unfold, pow2};
use vstd::prelude::*;

verus! {

/// The integer nearest to `x / d`, and of two that are as near the even one.
pub open spec fn nearest(x: int, d: int) -> int {
    let q = x / d;
    let r = x % d;
    if 2 * r > d || (2 * r == d && q % 2 == 1) {
        q + 1
    } else {
        q
    }
}

/// The integer nearest to the absolute value of a finite number.
pub open spec fn nearest_magnitude(p: Percent) -> int {
    nearest(p.magnitude(), pow2(149) as int)
}

/// The character of a decimal digit.
pub open spec fn digit(d: int) -> char {
    ('0' as int + d) as char
}

/// The decimal digits of a number.
pub open spec fn decimal(n: nat) -> Seq<char>
    decreases n,
{
    if n < 10 {
        seq![digit(n as int)]
    } else {
        decimal(n / 10).push(digit((n % 10) as int))
    }
}

/// A percentage written without decimals.
pub open spec fn text_of(p: Percent) -> Seq<char> {
    if p.is_nan() {
        "NaN"@
    } else {
        let size = if p.is_infinite() {
            "inf"@
        } else {
            decimal(nearest_magnitude(p) as nat)
        };
        if p.negative() {
            "-"@ + size
        } else {
            size
        }
    }
}

/// The text of a decimal digit.
fn digit_text(d: u128) -> (r: &'static str)
    requires
        d < 10,
    ensures
        r@ == seq![digit(d as int)],
{
    proof {
        reveal_strlit("0");
        reveal_strlit("1");
        reveal_strlit("2");
        reveal_strlit("3");
        reveal_strlit("4");
        reveal_strlit("5");
        reveal_strlit("6");
        reveal_strlit("7");
        reveal_strlit("8");
        reveal_strlit("9");
    }
    let r = if d == 0 {
        "0"
    } else if d == 1 {
        "1"
    } else if d == 2 {
        "2"
    } else if d == 3 {
        "3"
    } else if d == 4 {
        "4"
    } else if d == 5 {
        "5"
    } else if d == 6 {
        "6"
    } else if d == 7 {
        "7"
    } else if d == 8 {
        "8"
    } else {
        "9"
    };
    assert(r@ =~= seq![digit(d as int)]);
    r
}

/// The decimal digits of a number.
pub fn decimal_text(n: u128) -> (r: String)
    ensures
        r@ == decimal(n as nat),
    decreases n,
{
    if n < 10 {
        digit_text(n).to_owned()
    } else {
        let front = decimal_text(n / 10);
        let last = digit_text(n % 10);
        let r = join2(front.as_str(), last);
        assert(r@ =~= decimal(n as nat));
        r
    }
}

/// A number doubled some times.
pub(crate) fn doubled(m: u128, times: u32) -> (r: u128)
    requires
        m * pow2(times as nat) <= u128::MAX,
    ensures
        r == m * pow2(times as nat),
{
    let mut r: u128 = m;
    let mut i: u32 = 0;
    proof {
        lemma2_to64();
    }
    while i < times
        invariant
            i <= times,
            m * pow2(times as nat) <= u128::MAX,
            r == m * pow2(i as nat),
        decreases times - i,
    {
        proof {
            let (a, b) = (pow2(i as nat) as int, pow2((i + 1) as nat) as int);
            lemma_pow2_unfold((i + 1) as nat);
            assert(b == 2 * a);
            if i + 1 < times {
                lemma_pow2_strictly_increases((i + 1) as nat, times as nat);
            }
            assert(m * b == 2 * (m * a)) by (nonlinear_arith)
                requires
                    b == 2 * a,
            ;
            assert(m * b <= m * pow2(times as nat)) by (nonlinear_arith)
                requires
                    b <= pow2(times as nat),
                    m >= 0,
            ;
        }
        r = r * 2;
        i = i + 1;
    }
    r
}

/// Whole powers of two can be taken out of both numbers before the nearest integer is taken.
proof fn lemma_nearest_scaled(m: int, d: int, x: int)
    requires
        m >= 0,
        d > 0,
        x > 0,
    ensures
        nearest(m * x, d * x) == nearest(m, d),
{
    let (q, r) = (m / d, m % d);
    lemma_fundamental_div_mod(m, d);
    assert(0 <= r < d) by (nonlinear_arith)
        requires
            r == m % d,
            d > 0,
    ;
    assert(m * x == q * (d * x) + r * x) by (nonlinear_arith)
        requires
            m == d * q + r,
    ;
    assert(0 <= r * x < d * x) by (nonlinear_arith)
        requires
            0 <= r < d,
            x > 0,
    ;
    lemma_fundamental_div_mod_converse(m * x, d * x, q, r * x);
    assert((2 * (r * x) > d * x) == (2 * r > d)) by (nonlinear_arith)
        requires
            x > 0,
    ;
    assert((2 * (r * x) == d * x) == (2 * r == d)) by (nonlinear_arith)
        requires
            x > 0,
    ;
}

/// The nearest integer, by the exponent.
proof fn lemma_nearest_magnitude(p: Percent)
    requires
        p.exponent() < 255,
    ensures
        p.exponent() < 126 ==> nearest_magnitude(p) == 0,
        126 <= p.exponent() < 150 ==> nearest_magnitude(p) == nearest(
            0x80_0000 + p.fraction(),
            pow2((150 - p.exponent()) as nat) as int,
        ),
        p.exponent() >= 150 ==> nearest_magnitude(p) == (0x80_0000 + p.fraction()) * pow2(
            (p.exponent() - 150) as nat,
        ),
{
    let (e, f) = (p.exponent(), p.fraction());
    let m = 0x80_0000 + f;
    let one = pow2(149) as int;
    lemma2_to64();
    lemma_pow2_pos(149);
    if e == 0 {
        lemma_pow2_strictly_increases(24, 149);
        lemma_fundamental_div_mod_converse(f, one, 0, f);
    } else if e < 150 {
        let s = (150 - e) as nat;
        let x = pow2((e - 1) as nat) as int;
        lemma_pow2_pos((e - 1) as nat);
        lemma_pow2_pos(s);
        lemma_pow2_adds(s, (e - 1) as nat);
        lemma_nearest_scaled(m, pow2(s) as int, x);
        if e < 126 {
            if s > 25 {
                lemma_pow2_strictly_increases(25, s);
            }
            lemma_fundamental_div_mod_converse(m, pow2(s) as int, 0, m);
        }
    } else {
        let t = (e - 150) as nat;
        let n = m * pow2(t);
        lemma_pow2_adds(149, t);
        assert(m * (one * pow2(t)) == n * one) by (nonlinear_arith)
            requires
                n == m * pow2(t),
        ;
        assert(p.magnitude() == n * one);
        lemma_fundamental_div_mod_converse(p.magnitude(), one, n, 0);
    }
}

/// The integer nearest to the absolute value of a finite number.
fn nearest_integer(p: Percent) -> (r: u128)
    requires
        p.exponent() < 255,
    ensures
        r == nearest_magnitude(p),
{
    let e: u32 = (p.bits / 0x80_0000) % 256;
    let m: u128 = 0x80_0000 + (p.bits % 0x80_0000) as u128;
    proof {
        lemma_nearest_magnitude(p);
        lemma2_to64();
    }
    if e < 126 {
        0
    } else if e < 150 {
        let s: u32 = 150 - e;
        proof {
            lemma_pow2_pos(s as nat);
            if s < 24 {
                lemma_pow2_strictly_increases(s as nat, 24);
            }
        }
        let d: u128 = doubled(1, s);
        let (q, r) = (m / d, m % d);
        assert(q <= m) by (nonlinear_arith)
            requires
                q == m / d,
                d >= 1,
                m >= 0,
        ;
        if 2 * r > d || (2 * r == d && q % 2 == 1) {
            q + 1
        } else {
            q
        }
    } else {
        let t: u32 = e - 150;
        proof {
            lemma_pow2_adds(24, 104);
            lemma_pow2_adds(64, 64);
            lemma_pow2_pos(t as nat);
            if t < 104 {
                lemma_pow2_strictly_increases(t as nat, 104);
            }
            assert(m * pow2(t as nat) <= u128::MAX) by (nonlinear_arith)
                requires
                    m < 0x100_0000,
                    pow2(t as nat) <= pow2(104),
                    0x100_0000 * pow2(104) == pow2(128),
                    pow2(128) == 0x1_0000_0000_0000_0000 * 0x1_0000_0000_0000_0000,
            ;
        }
        doubled(m, t)
    }
}

/// A percentage written without decimals.
pub fn percent_text(p: Percent) -> (r: String)
    ensures
        r@ == text_of(p),
{
    let e: u32 = (p.bits / 0x80_0000) % 256;
    let f: u32 = p.bits % 0x80_0000;
    if e == 255 && f != 0 {
        return "NaN".to_owned();
    }
    let size = if e == 255 {
        "inf".to_owned()
    } else {
        decimal_text(nearest_integer(p))
    };
    if p.bits >= 0x8000_0000 {
        join2("-", size.as_str())
    } else {
        size
    }
}

/// The value of a text of decimal digits.
pub open spec fn value_of(digits: Seq<char>) -> int
    decreases digits.len(),
{
    if digits.len() == 0 {
        0
    } else {
        10 * value_of(digits.drop_last()) + (digits.last() as int - '0' as int)
    }
}

/// The digits of a number stand for it.
pub proof fn law_digits_stand_for_the_number(n: nat)
    ensures
        value_of(decimal(n)) == n,
    decreases n,
{
    if n < 10 {
        assert(decimal(n).drop_last() =~= Seq::empty());
        assert(value_of(Seq::<char>::empty()) == 0);
    } else {
        law_digits_stand_for_the_number(n / 10);
        assert(decimal(n).drop_last() =~= decimal(n / 10));
    }
}

/// The nearest integer to a fraction is no further than one half from it, and where it is one half away
/// it is even.
pub proof fn law_nearest_is_no_further_than_half(x: int, d: int)
    requires
        d > 0,
    ensures
        -d <= 2 * (x - nearest(x, d) * d) <= d,
        2 * (x - nearest(x, d) * d) == d || 2 * (x - nearest(x, d) * d) == -d ==> nearest(x, d) % 2
            == 0,
{
    lemma_fundamental_div_mod(x, d);
    let q = x / d;
    assert(d * q == q * d) by (nonlinear_arith);
    assert((q + 1) * d == q * d + d) by (nonlinear_arith);
    assert(0 <= x % d < d);
}

/// A finite percentage that is not negative is written as the digits of the integer nearest to it; one
/// with the sign bit is written as the same number without it behind a minus sign.
pub proof fn law_text_is_the_nearest_integer(p: Percent)
    requires
        p.bits < 0x7f80_0000,
    ensures
        ({
            let n = value_of(text_of(p));
            let off = 2 * (p.magnitude() - n * pow2(149));
            &&& -pow2(149) <= off <= pow2(149)
            &&& off == pow2(149) || off == -pow2(149) ==> n % 2 == 0
        }),
        forall|i: int| 0 <= i < text_of(p).len() ==> '0' <= #[trigger] text_of(p)[i] <= '9',
        text_of(p).len() > 1 ==> text_of(p)[0] != '0',
        text_of(p).len() > 0,
        text_of(Percent { bits: (p.bits + 0x8000_0000) as u32 }) == "-"@ + text_of(p),
{
    let d = pow2(149) as int;
    lemma_pow2_pos(149);
    let minus = Percent { bits: (p.bits + 0x8000_0000) as u32 };
    assert(minus.exponent() == p.exponent() && minus.fraction() == p.fraction());
    assert(p.exponent() < 255);
    law_nearest_is_no_further_than_half(p.magnitude(), d);
    if p.exponent() > 0 {
        lemma_pow2_pos((p.exponent() - 1) as nat);
        assert((0x80_0000 + p.fraction()) * pow2((p.exponent() - 1) as nat) > 0) by (nonlinear_arith)
            requires
                p.fraction() >= 0,
                pow2((p.exponent() - 1) as nat) > 0,
        ;
    }
    assert(p.magnitude() / d >= 0) by (nonlinear_arith)
        requires
            p.magnitude() >= 0,
            d > 0,
    ;
    let n = nearest_magnitude(p) as nat;
    law_digits_stand_for_the_number(n);
    lemma_decimal_digits(n);
}

proof fn lemma_decimal_digits(n: nat)
    ensures
        decimal(n).len() > 0,
        forall|i: int| 0 <= i < decimal(n).len() ==> '0' <= #[trigger] decimal(n)[i] <= '9',
        n > 0 ==> decimal(n)[0] != '0',
        n < 10 <==> decimal(n).len() == 1,
    decreases n,
{
    if n >= 10 {
        lemma_decimal_digits(n / 10);
    }
}

/// What is no finite number is written by name.
pub proof fn law_other_texts(p: Percent)
    ensures
        0x7f80_0000 < p.bits < 0x8000_0000 || 0xff80_0000 < p.bits ==> text_of(p) == "NaN"@,
        p.bits == 0x7f80_0000 ==> text_of(p) == "inf"@,
        p.bits == 0xff80_0000 ==> text_of(p) == "-"@ + "inf"@,
{
}

} // verus!
