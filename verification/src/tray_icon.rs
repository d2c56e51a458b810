//! The color of the tray icon's ring, and the figure by which it is known whether the icon has to be
//! drawn anew. Percentages are floating-point numbers held by their bits; what is said of them is
//! said of the numbers.
use crate::percent_text::doubled;
use crate::snapshot::Percent;
use vstd::arithmetic::div_mod::lemma_div_multiples_vanish_quotient;
use vstd::arithmetic::power2::{lemma2_to64, lemma_pow2_adds, lemma_pow2_pos,
    lemma_pow2_strictly_increases, pow2};
use vstd::prelude::*;

verus! {

pub const GREEN: (u8, u8, u8) = (74, 222, 128);

pub const AMBER: (u8, u8, u8) = (251, 191, 36);

pub const RED: (u8, u8, u8) = (239, 68, 68);

pub const GRAY: (u8, u8, u8) = (148, 163, 184);

/// From how many percent on the ring is amber.
pub const AMBER_THRESHOLD: u32 = 60;

/// From how many percent on the ring is red.
pub const RED_THRESHOLD: u32 = 85;

/// The bits of 60.
pub const AMBER_BITS: u32 = 0x4270_0000;

/// The bits of 85.
pub const RED_BITS: u32 = 0x42aa_0000;

/// The bits of 100.
pub const HUNDRED_BITS: u32 = 0x42c8_0000;

/// The bits of one half.
pub const HALF_BITS: u32 = 0x3f00_0000;

/// The bits of infinity.
pub const INFINITE_BITS: u32 = 0x7f80_0000;

impl Percent {
    /// Whether the sign bit is set.
    pub open spec fn negative(self) -> bool {
        self.bits >= 0x8000_0000
    }

    /// The bits of the exponent.
    pub open spec fn exponent(self) -> int {
        (self.bits as int / 0x80_0000) % 256
    }

    /// The bits of the fraction.
    pub open spec fn fraction(self) -> int {
        self.bits as int % 0x80_0000
    }

    /// Whether the bits are those of no number.
    pub open spec fn is_nan(self) -> bool {
        self.exponent() == 255 && self.fraction() != 0
    }

    /// Whether the number is infinite.
    pub open spec fn is_infinite(self) -> bool {
        self.exponent() == 255 && self.fraction() == 0
    }

    /// The absolute value of a finite number, in units of the smallest positive one: 2 to the power
    /// of -149.
    pub open spec fn magnitude(self) -> int {
        if self.exponent() == 0 {
            self.fraction()
        } else {
            (0x80_0000 + self.fraction()) * pow2((self.exponent() - 1) as nat)
        }
    }

    /// Whether the number is `n` or more, for an `n` above zero.
    pub open spec fn at_least(self, n: int) -> bool {
        &&& !self.is_nan()
        &&& !self.negative()
        &&& self.is_infinite() || self.magnitude() >= n * pow2(149)
    }

    /// Whether the number is more than `n`.
    pub open spec fn above(self, n: int) -> bool {
        &&& !self.is_nan()
        &&& !self.negative()
        &&& self.is_infinite() || self.magnitude() > n * pow2(149)
    }

    /// Whether the number is less than zero.
    pub open spec fn below_zero(self) -> bool {
        &&& !self.is_nan()
        &&& self.negative()
        &&& self.is_infinite() || self.magnitude() > 0
    }

    /// The absolute value of a finite number rounded to an integer, halves upwards.
    pub open spec fn rounded_magnitude(self) -> int {
        (2 * self.magnitude() + pow2(149)) / pow2(150) as int
    }

    /// The number rounded to an integer, halves away from zero, and brought into the range of a
    /// byte; zero where it is no number.
    pub open spec fn rounded(self) -> int {
        if self.is_nan() {
            0
        } else if self.negative() {
            if self.is_infinite() || self.rounded_magnitude() > 128 {
                -128
            } else {
                -self.rounded_magnitude()
            }
        } else if self.is_infinite() || self.rounded_magnitude() > 127 {
            127
        } else {
            self.rounded_magnitude()
        }
    }
}

/// One in the units of the magnitude, taken apart at an exponent.
proof fn lemma_scale(e: nat)
    requires
        1 <= e <= 149,
    ensures
        pow2(149) == pow2((e - 1) as nat) * pow2((150 - e) as nat),
{
    lemma_pow2_adds((e - 1) as nat, (150 - e) as nat);
}

/// The magnitude grows with the bits.
pub proof fn lemma_magnitude_grows(a: Percent, b: Percent)
    requires
        a.bits < b.bits < INFINITE_BITS,
    ensures
        a.magnitude() < b.magnitude(),
{
    let (ea, eb) = (a.exponent(), b.exponent());
    let (fa, fb) = (a.fraction(), b.fraction());
    assert(ea == a.bits as int / 0x80_0000);
    assert(eb == b.bits as int / 0x80_0000);
    assert(ea < eb || (ea == eb && fa < fb));
    if ea == eb {
        if ea > 0 {
            let p = pow2((ea - 1) as nat) as int;
            lemma_pow2_pos((ea - 1) as nat);
            assert((0x80_0000 + fa) * p < (0x80_0000 + fb) * p) by (nonlinear_arith)
                requires
                    fa < fb,
                    p > 0,
            ;
        }
    } else {
        let q = pow2((eb - 1) as nat) as int;
        lemma_pow2_pos((eb - 1) as nat);
        assert((0x80_0000 + fb) * q >= 0x80_0000 * q) by (nonlinear_arith)
            requires
                fb >= 0,
                q > 0,
        ;
        if ea == 0 {
            assert(0x80_0000 * q >= 0x80_0000) by (nonlinear_arith)
                requires
                    q >= 1,
            ;
        } else {
            let p = pow2((ea - 1) as nat) as int;
            lemma_pow2_pos((ea - 1) as nat);
            lemma_pow2_adds(1, (ea - 1) as nat);
            lemma2_to64();
            if ea < eb - 1 {
                lemma_pow2_strictly_increases(ea as nat, (eb - 1) as nat);
            }
            assert(q >= 2 * p);
            assert((0x80_0000 + fa) * p < 0x80_0000 * q) by (nonlinear_arith)
                requires
                    0 <= fa < 0x80_0000,
                    p > 0,
                    q >= 2 * p,
            ;
        }
    }
}

/// The magnitudes of the numbers that are compared with.
pub proof fn lemma_bounds()
    ensures
        (Percent { bits: AMBER_BITS }).magnitude() == 60 * pow2(149),
        (Percent { bits: RED_BITS }).magnitude() == 85 * pow2(149),
        (Percent { bits: HUNDRED_BITS }).magnitude() == 100 * pow2(149),
{
    lemma2_to64();
    lemma_scale(132);
    lemma_scale(133);
    let p = pow2(131) as int;
    let q = pow2(132) as int;
    assert((Percent { bits: AMBER_BITS }).exponent() == 132);
    assert((Percent { bits: AMBER_BITS }).fraction() == 0x70_0000);
    assert((Percent { bits: RED_BITS }).exponent() == 133);
    assert((Percent { bits: RED_BITS }).fraction() == 0x2a_0000);
    assert((Percent { bits: HUNDRED_BITS }).exponent() == 133);
    assert((Percent { bits: HUNDRED_BITS }).fraction() == 0x48_0000);
    assert(0xf0_0000 * p == 60 * (p * 0x4_0000)) by (nonlinear_arith);
    assert(0xaa_0000 * q == 85 * (q * 0x2_0000)) by (nonlinear_arith);
    assert(0xc8_0000 * q == 100 * (q * 0x2_0000)) by (nonlinear_arith);
}

/// A number is at least another one exactly if its bits are those of no lower one.
pub proof fn lemma_at_least(p: Percent, bound: Percent, n: int)
    requires
        bound.bits < INFINITE_BITS,
        bound.magnitude() == n * pow2(149),
    ensures
        p.at_least(n) == (bound.bits <= p.bits <= INFINITE_BITS),
        p.above(n) == (bound.bits < p.bits <= INFINITE_BITS),
{
    if p.bits < INFINITE_BITS {
        if p.bits < bound.bits {
            lemma_magnitude_grows(p, bound);
        } else if bound.bits < p.bits {
            lemma_magnitude_grows(bound, p);
        }
        assert(p.exponent() < 255);
    } else if p.bits < 0x8000_0000 {
        assert(p.exponent() == 255);
    }
}

/// The color of the ring for a percentage; gray where none is known.
pub open spec fn color_of(pct: Option<Percent>) -> (u8, u8, u8) {
    match pct {
        None => GRAY,
        Some(p) => if p.at_least(RED_THRESHOLD as int) {
            RED
        } else if p.at_least(AMBER_THRESHOLD as int) {
            AMBER
        } else {
            GREEN
        },
    }
}

/// The color of the ring for a percentage; gray where none is known.
pub fn ring_color(pct: Option<Percent>) -> (r: (u8, u8, u8))
    ensures
        r == color_of(pct),
{
    match pct {
        None => GRAY,
        Some(p) => {
            proof {
                lemma_bounds();
                lemma_at_least(p, Percent { bits: RED_BITS }, RED_THRESHOLD as int);
                lemma_at_least(p, Percent { bits: AMBER_BITS }, AMBER_THRESHOLD as int);
            }
            if RED_BITS <= p.bits && p.bits <= INFINITE_BITS {
                RED
            } else if AMBER_BITS <= p.bits && p.bits <= INFINITE_BITS {
                AMBER
            } else {
                GREEN
            }
        },
    }
}

/// A percentage brought into the range from 0 to 100; what is no number stays as it is.
pub open spec fn clamped(p: Percent) -> Percent {
    if p.below_zero() {
        Percent { bits: 0 }
    } else if p.above(100) {
        Percent { bits: 0x42c8_0000 }
    } else {
        p
    }
}

/// A percentage brought into the range from 0 to 100.
pub fn clamp_percent(p: Percent) -> (r: Percent)
    ensures
        r == clamped(p),
{
    proof {
        lemma_bounds();
        lemma_at_least(p, Percent { bits: HUNDRED_BITS }, 100);
        lemma_below_zero(p);
    }
    if 0x8000_0000 < p.bits && p.bits <= 0xff80_0000 {
        Percent { bits: 0 }
    } else if HUNDRED_BITS < p.bits && p.bits <= INFINITE_BITS {
        Percent { bits: HUNDRED_BITS }
    } else {
        p
    }
}

/// A number is below zero exactly if its bits are those of a negative number other than zero.
pub proof fn lemma_below_zero(p: Percent)
    ensures
        p.below_zero() == (0x8000_0000 < p.bits <= 0xff80_0000),
{
    if p.bits >= 0x8000_0000 {
        let e = p.exponent();
        assert(e == (p.bits - 0x8000_0000) as int / 0x80_0000);
        if e > 0 {
            lemma_pow2_pos((e - 1) as nat);
            assert((0x80_0000 + p.fraction()) * pow2((e - 1) as nat) > 0) by (nonlinear_arith)
                requires
                    p.fraction() >= 0,
                    pow2((e - 1) as nat) > 0,
            ;
        }
    }
}

/// Bringing a percentage into range does not change its color.
pub proof fn law_clamping_keeps_the_color(p: Percent)
    ensures
        color_of(Some(clamped(p))) == color_of(Some(p)),
{
    let hundred = Percent { bits: HUNDRED_BITS };
    let zero = Percent { bits: 0 };
    lemma_bounds();
    lemma_at_least(p, hundred, 100);
    lemma_below_zero(p);
    lemma_at_least(p, Percent { bits: RED_BITS }, 85);
    lemma_at_least(hundred, Percent { bits: RED_BITS }, 85);
    lemma_at_least(p, Percent { bits: AMBER_BITS }, 60);
    lemma_at_least(zero, Percent { bits: RED_BITS }, 85);
    lemma_at_least(zero, Percent { bits: AMBER_BITS }, 60);
}

/// A percentage brought into range is from 0 to 100, unless it is no number.
pub proof fn law_clamped_is_in_range(p: Percent)
    requires
        !p.is_nan(),
    ensures
        !clamped(p).is_nan(),
        !clamped(p).below_zero(),
        !clamped(p).above(100),
{
    let hundred = Percent { bits: HUNDRED_BITS };
    lemma_bounds();
    lemma_at_least(hundred, hundred, 100);
    lemma_at_least(Percent { bits: 0 }, hundred, 100);
}

/// How urgent a color is.
pub open spec fn urgency(color: (u8, u8, u8)) -> int {
    if color == RED {
        2
    } else if color == AMBER {
        1
    } else {
        0
    }
}

/// A higher percentage never has a less urgent color.
pub proof fn law_color_grows_with_the_percentage(a: Percent, b: Percent)
    requires
        !a.is_nan(),
        !b.is_nan(),
        !b.negative(),
        b.is_infinite() || (!a.is_infinite() && a.magnitude() <= b.magnitude()),
    ensures
        urgency(color_of(Some(a))) <= urgency(color_of(Some(b))),
{
}

/// The part of the ring that is drawn in color: up to a percentage from 0 to 100.
#[derive(Debug, Clone, Copy, PartialEq, Eq)]
pub struct RingArc {
    pub pct: Percent,
    pub color: (u8, u8, u8),
}

/// Whether the number is more than one half.
pub open spec fn above_half(p: Percent) -> bool {
    &&& !p.is_nan()
    &&& !p.negative()
    &&& p.is_infinite() || 2 * p.magnitude() > pow2(149)
}

/// The part of the ring that is drawn in color; none for half a percent or less, and none where no
/// percentage is known.
pub open spec fn arc_of(pct: Option<Percent>) -> Option<RingArc> {
    match pct {
        Some(p) => if above_half(clamped(p)) {
            Some(RingArc { pct: clamped(p), color: color_of(Some(clamped(p))) })
        } else {
            None
        },
        None => None,
    }
}

/// The part of the ring that is drawn in color.
pub fn ring_arc(pct: Option<Percent>) -> (r: Option<RingArc>)
    ensures
        r == arc_of(pct),
{
    match pct {
        Some(p) => {
            let c = clamp_percent(p);
            proof {
                lemma_above_half(c);
            }
            if HALF_BITS < c.bits && c.bits <= INFINITE_BITS {
                Some(RingArc { pct: c, color: ring_color(Some(c)) })
            } else {
                None
            }
        },
        None => None,
    }
}

/// A number is above one half exactly if its bits are those of a higher one.
pub proof fn lemma_above_half(p: Percent)
    ensures
        above_half(p) == (HALF_BITS < p.bits <= INFINITE_BITS),
{
    let half = Percent { bits: HALF_BITS };
    assert(half.exponent() == 126);
    assert(half.fraction() == 0);
    lemma2_to64();
    lemma_pow2_adds(23, 125);
    lemma_pow2_adds(1, 148);
    assert(2 * half.magnitude() == pow2(149));
    if p.bits < INFINITE_BITS {
        if p.bits < HALF_BITS {
            lemma_magnitude_grows(p, half);
        } else if HALF_BITS < p.bits {
            lemma_magnitude_grows(half, p);
        }
        assert(p.exponent() < 255);
    } else if p.bits < 0x8000_0000 {
        assert(p.exponent() == 255);
    }
}

/// The rounded magnitude, by the exponent.
pub proof fn lemma_rounded(p: Percent)
    requires
        p.exponent() < 255,
    ensures
        p.exponent() < 126 ==> p.rounded_magnitude() == 0,
        p.exponent() >= 134 ==> p.rounded_magnitude() >= 128,
        126 <= p.exponent() <= 133 ==> {
            let s = (150 - p.exponent()) as nat;
            p.rounded_magnitude() == (0x80_0000 + p.fraction() + pow2((s - 1) as nat)) / (pow2(
                s,
            ) as int)
        },
{
    let e = p.exponent();
    let f = p.fraction();
    lemma2_to64();
    lemma_pow2_pos(149);
    lemma_pow2_adds(1, 149);
    if e == 0 {
        lemma_pow2_strictly_increases(24, 149);
        assert((2 * f + pow2(149)) / (pow2(150) as int) == 0) by (nonlinear_arith)
            requires
                0 <= f,
                2 * f + pow2(149) < pow2(150),
        ;
    } else {
        let m = 0x80_0000 + f;
        let x = pow2(e as nat) as int;
        lemma_pow2_pos(e as nat);
        lemma_pow2_adds(1, (e - 1) as nat);
        assert(2 * (m * pow2((e - 1) as nat)) == m * x) by (nonlinear_arith)
            requires
                x == 2 * pow2((e - 1) as nat),
        ;
        assert(2 * p.magnitude() == m * x);
        if e < 126 {
            if e < 125 {
                lemma_pow2_strictly_increases(e as nat, 125);
            }
            lemma_pow2_adds(24, 125);
            assert(m * x < pow2(149)) by (nonlinear_arith)
                requires
                    0 <= m < 0x100_0000,
                    0 < x <= pow2(125),
                    pow2(149) == 0x100_0000 * pow2(125),
            ;
            assert(0 <= m * x) by (nonlinear_arith)
                requires
                    0 <= m,
                    0 < x,
            ;
            assert((m * x + pow2(149)) / (pow2(150) as int) == 0) by (nonlinear_arith)
                requires
                    0 <= m * x,
                    m * x + pow2(149) < pow2(150),
            ;
        } else if e >= 134 {
            if e > 134 {
                lemma_pow2_strictly_increases(134, e as nat);
            }
            lemma_pow2_adds(16, 134);
            assert(m * x >= 128 * pow2(150)) by (nonlinear_arith)
                requires
                    m >= 0x80_0000,
                    x >= pow2(134),
                    pow2(150) == 0x1_0000 * pow2(134),
            ;
            assert((m * x + pow2(149)) / (pow2(150) as int) >= 128) by (nonlinear_arith)
                requires
                    m * x + pow2(149) >= 128 * pow2(150),
                    pow2(150) > 0,
            ;
        } else {
            let s = (150 - e) as nat;
            lemma_pow2_adds(e as nat, s);
            lemma_pow2_adds(e as nat, (s - 1) as nat);
            lemma_pow2_pos(s);
            lemma_pow2_pos((s - 1) as nat);
            let h = pow2((s - 1) as nat) as int;
            assert(m * x + pow2(149) == x * (m + h)) by (nonlinear_arith)
                requires
                    pow2(149) == x * h,
            ;
            lemma_div_multiples_vanish_quotient(x, m + h, pow2(s) as int);
        }
    }
}

/// A rounded percentage is in the range of a byte.
pub proof fn lemma_rounded_in_range(p: Percent)
    ensures
        -128 <= p.rounded() <= 127,
{
    if p.exponent() > 0 {
        lemma_pow2_pos((p.exponent() - 1) as nat);
    }
    lemma_pow2_pos(149);
    lemma_pow2_pos(150);
    assert(p.magnitude() >= 0) by (nonlinear_arith)
        requires
            p.exponent() == 0 ==> p.magnitude() == p.fraction(),
            p.exponent() != 0 ==> p.magnitude() == (0x80_0000 + p.fraction()) * pow2(
                (p.exponent() - 1) as nat,
            ),
            p.fraction() >= 0,
            p.exponent() != 0 ==> pow2((p.exponent() - 1) as nat) > 0,
    ;
    assert(p.rounded_magnitude() >= 0) by (nonlinear_arith)
        requires
            p.magnitude() >= 0,
            p.rounded_magnitude() == (2 * p.magnitude() + pow2(149)) / pow2(150) as int,
            pow2(150) > 0,
    ;
}

/// The percentage rounded to an integer, halves away from zero, and brought into the range of a
/// byte; zero where it is no number.
pub fn rounded_percent(p: Percent) -> (r: i8)
    ensures
        r == p.rounded(),
{
    let negative = p.bits >= 0x8000_0000;
    let e: u32 = (p.bits / 0x80_0000) % 256;
    let f: u32 = p.bits % 0x80_0000;
    if e == 255 {
        return if f != 0 {
            0
        } else if negative {
            -128
        } else {
            127
        };
    }
    proof {
        lemma_rounded(p);
    }
    if e < 126 {
        return 0;
    }
    if e >= 134 {
        return if negative {
            -128
        } else {
            127
        };
    }
    let s: u32 = 150 - e;
    proof {
        lemma_pow2_adds(1, (s - 1) as nat);
        lemma2_to64();
        if s < 24 {
            lemma_pow2_strictly_increases(s as nat, 24);
        }
        if s > 17 {
            lemma_pow2_strictly_increases(17, s as nat);
        }
    }
    let half: u32 = doubled(1, s - 1) as u32;
    let whole: u32 = doubled(1, s) as u32;
    let n: u32 = (0x80_0000 + f + half) / whole;
    assert(n <= 128) by (nonlinear_arith)
        requires
            n == (0x80_0000 + f + half) / whole as int,
            f < 0x80_0000,
            half <= whole,
            whole >= 0x2_0000,
    ;
    if negative {
        -(n as i16) as i8
    } else if n > 127 {
        127
    } else {
        n as i8
    }
}

/// What the bits stand for: up to twice the smallest normal number they count in the smallest unit, and
/// above that one more in the exponent doubles the number. The sign changes nothing of its size.
pub proof fn law_exponent_doubles(p: Percent)
    ensures
        p.bits <= 0x100_0000 ==> p.magnitude() == p.bits,
        0x80_0000 <= p.bits < 0x7f00_0000 ==> (Percent {
            bits: (p.bits + 0x80_0000) as u32,
        }).magnitude() == 2 * p.magnitude(),
        p.bits < 0x8000_0000 ==> (Percent { bits: (p.bits + 0x8000_0000) as u32 }).magnitude()
            == p.magnitude(),
        p.is_nan() <==> 0x7f80_0000 < p.bits < 0x8000_0000 || 0xff80_0000 < p.bits,
        p.is_infinite() <==> p.bits == 0x7f80_0000 || p.bits == 0xff80_0000,
{
    lemma2_to64();
    assert(pow2(0) == 1 && pow2(1) == 2);
    if p.bits < 0x80_0000 {
        assert(p.exponent() == 0 && p.fraction() == p.bits);
    } else if p.bits < 0x100_0000 {
        assert(p.exponent() == 1 && p.fraction() == p.bits - 0x80_0000);
        assert((0x80_0000 + p.fraction()) * 1 == p.bits);
    } else if p.bits == 0x100_0000 {
        assert(p.exponent() == 2 && p.fraction() == 0);
        assert((0x80_0000 + 0) * 2 == p.bits);
    }
    if p.bits < 0x8000_0000 {
        let minus = Percent { bits: (p.bits + 0x8000_0000) as u32 };
        assert(minus.exponent() == p.exponent() && minus.fraction() == p.fraction());
    }
    if 0x80_0000 <= p.bits < 0x7f00_0000 {
        let more = Percent { bits: (p.bits + 0x80_0000) as u32 };
        let e = p.exponent();
        assert(more.exponent() == e + 1);
        assert(more.fraction() == p.fraction());
        lemma_pow2_adds(1, (e - 1) as nat);
        assert((0x80_0000 + p.fraction()) * (2 * pow2((e - 1) as nat)) == 2 * ((0x80_0000
            + p.fraction()) * pow2((e - 1) as nat))) by (nonlinear_arith);
    }
}

/// The ring is red from 85 percent on and amber from 60 percent on, by the bits of the percentage; what
/// is below, negative or no number is green, and an unknown percentage gray.
pub proof fn law_colors_by_the_bits(p: Percent)
    ensures
        color_of(None) == (148u8, 163u8, 184u8),
        0x42aa_0000 <= p.bits <= 0x7f80_0000 ==> color_of(Some(p)) == (239u8, 68u8, 68u8),
        0x4270_0000 <= p.bits < 0x42aa_0000 ==> color_of(Some(p)) == (251u8, 191u8, 36u8),
        p.bits < 0x4270_0000 || p.bits > 0x7f80_0000 ==> color_of(Some(p)) == (
            74u8,
            222u8,
            128u8,
        ),
        (Percent { bits: 0x4270_0000 }).magnitude() == 60 * pow2(149),
        (Percent { bits: 0x42aa_0000 }).magnitude() == 85 * pow2(149),
{
    lemma_bounds();
    lemma_at_least(p, Percent { bits: RED_BITS }, 85);
    lemma_at_least(p, Percent { bits: AMBER_BITS }, 60);
}

/// Bringing into range, by the bits: what is below zero becomes zero, what is above a hundred becomes a
/// hundred, and everything else stays as it is.
pub proof fn law_clamping_by_the_bits(p: Percent)
    ensures
        0x8000_0000 < p.bits <= 0xff80_0000 ==> clamped(p).bits == 0,
        0x42c8_0000 < p.bits <= 0x7f80_0000 ==> clamped(p).bits == 0x42c8_0000,
        p.bits <= 0x42c8_0000 || 0x7f80_0000 < p.bits <= 0x8000_0000 || 0xff80_0000 < p.bits
            ==> clamped(p) == p,
        (Percent { bits: 0x42c8_0000 }).magnitude() == 100 * pow2(149),
{
    lemma_bounds();
    lemma_at_least(p, Percent { bits: HUNDRED_BITS }, 100);
    lemma_below_zero(p);
}

/// The colored part of the ring, by the bits: there is one exactly above half a percent, it goes up to
/// the percentage or to a hundred, and its color is that of the percentage.
pub proof fn law_arc_by_the_bits(p: Percent)
    ensures
        arc_of(None) is None,
        arc_of(Some(p)) is Some <==> 0x3f00_0000 < p.bits <= 0x7f80_0000,
        arc_of(Some(p)) matches Some(arc) ==> arc.color == color_of(Some(p)) && (if p.bits
            <= 0x42c8_0000 {
            arc.pct == p
        } else {
            arc.pct.bits == 0x42c8_0000
        }),
{
    law_clamping_by_the_bits(p);
    law_clamping_keeps_the_color(p);
    lemma_above_half(clamped(p));
}

/// A rounded percentage is the nearest integer: it is no further than one half from the number, and a
/// number halfway between two goes to the one further from zero. A number that is out of the range of a
/// byte becomes the end of the range, and what is no number becomes zero.
pub proof fn law_rounded_is_the_nearest(p: Percent)
    ensures
        p.is_nan() ==> p.rounded() == 0,
        p.bits == 0x7f80_0000 ==> p.rounded() == 127,
        p.bits == 0xff80_0000 ==> p.rounded() == -128,
        p.bits < 0x7f80_0000 && p.rounded() < 127 ==> (2 * p.rounded() - 1) * pow2(149) <= 2
            * p.magnitude() < (2 * p.rounded() + 1) * pow2(149),
        p.bits < 0x7f80_0000 && p.rounded() >= 127 ==> p.rounded() == 127 && 253 * pow2(149) <= 2
            * p.magnitude(),
        0x8000_0000 <= p.bits < 0xff80_0000 && p.rounded() > -128 ==> (-2 * p.rounded() - 1) * pow2(
            149,
        ) <= 2 * p.magnitude() < (-2 * p.rounded() + 1) * pow2(149),
        0x8000_0000 <= p.bits < 0xff80_0000 && p.rounded() <= -128 ==> p.rounded() == -128 && 255
            * pow2(149) <= 2 * p.magnitude(),
{
    lemma2_to64();
    lemma_pow2_pos(149);
    lemma_pow2_adds(1, 149);
    let d = pow2(149) as int;
    let m = p.magnitude();
    let n = p.rounded_magnitude();
    assert((2 * n - 1) * d <= 2 * m < (2 * n + 1) * d) by (nonlinear_arith)
        requires
            n == (2 * m + d) / (2 * d),
            d > 0,
    ;
    lemma_rounded_in_range(p);
    if n > 127 {
        assert((2 * n - 1) * d >= 253 * d) by (nonlinear_arith)
            requires
                n > 127,
                d > 0,
        ;
    }
    if n > 128 {
        assert((2 * n - 1) * d >= 255 * d) by (nonlinear_arith)
            requires
                n > 128,
                d > 0,
        ;
    }
    if p.bits >= 0x8000_0000 {
        assert((2 * n - 1) == -2 * (-n) - 1 && 2 * n + 1 == -2 * (-n) + 1);
    }
}

} // verus!
