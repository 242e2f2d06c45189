//! Numbers in the binary64 format of IEEE 754, held as their bits: order, and printing with one
//! decimal place.

use vstd::prelude::*;
use vstd::arithmetic::power2::*;
use crate::text;

verus! {

/// A binary64 number.
#[derive(Debug, Clone, Copy)]
pub struct Real64 {
    /// The sign in the highest bit, then the exponent in 11 bits, then the fraction in 52.
    pub bits: u64,
}

impl View for Real64 {
    type V = Real64;

    open spec fn view(&self) -> Real64 {
        *self
    }
}

/// The number zero.
pub open spec fn zero() -> Real64 {
    Real64 { bits: 0 }
}

/// The nearest whole number to `n / d`, the even one where two are equally near.
pub open spec fn round_half_even(n: nat, d: nat) -> nat {
    let q = n / d;
    let r = n % d;
    if 2 * r < d {
        q
    } else if 2 * r > d {
        q + 1
    } else if q % 2 == 0 {
        q
    } else {
        q + 1
    }
}

/// A number of tenths, with one decimal place.
pub open spec fn tenths_text(t: nat) -> Seq<char> {
    text::dec(t / 10) + "."@ + text::dec(t % 10)
}

impl Real64 {
    /// Whether the sign bit is set.
    pub open spec fn negative(self) -> bool {
        self.bits >= 0x8000_0000_0000_0000
    }

    /// The bits without the sign.
    pub open spec fn unsigned_bits(self) -> nat {
        (self.bits % 0x8000_0000_0000_0000) as nat
    }

    /// The exponent field.
    pub open spec fn exponent(self) -> nat {
        self.unsigned_bits() / 0x10_0000_0000_0000
    }

    /// The fraction field.
    pub open spec fn fraction(self) -> nat {
        self.unsigned_bits() % 0x10_0000_0000_0000
    }

    /// Whether it is not a number.
    pub open spec fn is_nan(self) -> bool {
        self.exponent() == 2047 && self.fraction() != 0
    }

    /// Whether it is an infinity.
    pub open spec fn is_infinite(self) -> bool {
        self.exponent() == 2047 && self.fraction() == 0
    }

    /// The significand.
    pub open spec fn significand(self) -> nat {
        if self.exponent() == 0 {
            self.fraction()
        } else {
            0x10_0000_0000_0000 + self.fraction()
        }
    }

    /// The power of two, above 2^-1074, that the significand is multiplied with.
    pub open spec fn shift(self) -> nat {
        if self.exponent() == 0 {
            0
        } else {
            (self.exponent() - 1) as nat
        }
    }

    /// The absolute value in units of 2^-1074. An infinity lies above every number.
    pub open spec fn magnitude(self) -> nat {
        self.significand() * pow2(self.shift())
    }

    /// The value in units of 2^-1074.
    pub open spec fn scaled(self) -> int {
        if self.negative() {
            -(self.magnitude() as int)
        } else {
            self.magnitude() as int
        }
    }

    /// Whether `self >= other`; false where one of the two is not a number.
    pub open spec fn ge(self, other: Real64) -> bool {
        !self.is_nan() && !other.is_nan() && self.scaled() >= other.scaled()
    }

    /// The number with one decimal place, rounded to the nearest tenth and to the even one of two
    /// that are equally near.
    pub open spec fn one_decimal(self) -> Seq<char> {
        if self.is_nan() {
            "NaN"@
        } else {
            let sign = if self.negative() {
                "-"@
            } else {
                ""@
            };
            if self.is_infinite() {
                sign + "inf"@
            } else {
                sign + tenths_text(round_half_even(10 * self.magnitude(), pow2(1074)))
            }
        }
    }

    /// The sign-magnitude bits as a number that orders as the values do.
    pub open spec fn key(self) -> int {
        if self.negative() {
            -(self.unsigned_bits() as int)
        } else {
            self.unsigned_bits() as int
        }
    }

    /// The magnitude grows with the unsigned bits.
    proof fn lemma_magnitude_grows(self, other: Real64)
        requires
            self.unsigned_bits() < other.unsigned_bits(),
        ensures
            self.magnitude() < other.magnitude(),
    {
        let e1 = self.exponent();
        let e2 = other.exponent();
        lemma_pow2_pos(self.shift());
        lemma_pow2_pos(other.shift());
        let p1 = pow2(self.shift());
        let p2 = pow2(other.shift());
        let m1 = self.significand();
        let m2 = other.significand();
        if e1 == e2 {
            assert(m1 < m2);
            assert(m1 * p1 < m2 * p1) by (nonlinear_arith)
                requires
                    m1 < m2,
                    p1 > 0,
            ;
        } else {
            assert(e1 < e2);
            if e1 == 0 {
                assert(p1 == 1) by {
                    lemma2_to64();
                }
                assert(m1 < m2);
                assert(m1 * p1 < m2 * p2) by (nonlinear_arith)
                    requires
                        m1 < m2,
                        p1 == 1,
                        p2 > 0,
                ;
            } else {
                // m1 < 2^53, m2 >= 2^52, and the power has at least doubled.
                lemma_pow2_adds(self.shift(), (other.shift() - self.shift()) as nat);
                let g = pow2((other.shift() - self.shift()) as nat);
                assert(g >= 2) by {
                    lemma2_to64();
                    if other.shift() - self.shift() > 1 {
                        lemma_pow2_strictly_increases(1, (other.shift() - self.shift()) as nat);
                    }
                }
                assert(p2 == p1 * g);
                assert(m1 * p1 < m2 * p2) by (nonlinear_arith)
                    requires
                        m1 < 0x20_0000_0000_0000,
                        m2 >= 0x10_0000_0000_0000,
                        p1 > 0,
                        g >= 2,
                        p2 == p1 * g,
                ;
            }
        }
    }

    /// The order of the keys is the order of the values.
    pub proof fn law_key_order(self, other: Real64)
        ensures
            (self.key() >= other.key()) == (self.scaled() >= other.scaled()),
    {
        if self.unsigned_bits() < other.unsigned_bits() {
            self.lemma_magnitude_grows(other);
        } else if other.unsigned_bits() < self.unsigned_bits() {
            other.lemma_magnitude_grows(self);
        } else {
            assert(self.exponent() == other.exponent());
            assert(self.magnitude() == other.magnitude());
        }
        self.lemma_zero();
        other.lemma_zero();
    }

    /// Only the bits of zero have magnitude 0.
    proof fn lemma_zero(self)
        ensures
            self.magnitude() == 0 <==> self.unsigned_bits() == 0,
    {
        lemma_pow2_pos(self.shift());
        if self.unsigned_bits() == 0 {
            assert(0 * pow2(self.shift()) == 0);
        } else {
            let m = self.significand();
            let p = pow2(self.shift());
            assert(m > 0);
            assert(m * p > 0) by (nonlinear_arith)
                requires
                    m > 0,
                    p > 0,
            ;
        }
    }

    /// Whether it is not a number.
    pub fn nan(&self) -> (r: bool)
        ensures
            r == self.is_nan(),
    {
        let u: u64 = self.bits % 0x8000_0000_0000_0000;
        u / 0x10_0000_0000_0000 == 2047 && u % 0x10_0000_0000_0000 != 0
    }

    /// Whether this number is at least the other.
    pub fn at_least(&self, other: &Real64) -> (r: bool)
        ensures
            r == self.ge(*other),
    {
        if self.nan() || other.nan() {
            return false;
        }
        proof {
            self.law_key_order(*other);
        }
        self.signed_key() >= other.signed_key()
    }

    /// Whether this number lies at or above the other in the order of the keys.
    pub fn key_at_least(&self, other: &Real64) -> (r: bool)
        ensures
            r == (self.scaled() >= other.scaled()),
    {
        proof {
            self.law_key_order(*other);
        }
        self.signed_key() >= other.signed_key()
    }

    /// The key.
    fn signed_key(&self) -> (k: i64)
        ensures
            k == self.key(),
    {
        let u: u64 = self.bits % 0x8000_0000_0000_0000;
        if self.bits >= 0x8000_0000_0000_0000 {
            -(u as i64)
        } else {
            u as i64
        }
    }
}

/// Rounding a fraction does not depend on a common factor.
proof fn lemma_round_common_factor(a: nat, b: nat, c: nat)
    requires
        b > 0,
        c > 0,
    ensures
        round_half_even(a * c, b * c) == round_half_even(a, b),
{
    let q = a / b;
    let r = a % b;
    vstd::arithmetic::div_mod::lemma_fundamental_div_mod(a as int, b as int);
    assert(a == b * q + r);
    assert(b * c > 0) by (nonlinear_arith)
        requires
            b > 0,
            c > 0,
    ;
    assert(a * c == q * (b * c) + r * c) by (nonlinear_arith)
        requires
            a == b * q + r,
    ;
    assert(0 <= r * c < b * c) by (nonlinear_arith)
        requires
            0 <= r < b,
            c > 0,
    ;
    vstd::arithmetic::div_mod::lemma_fundamental_div_mod_converse(
        (a * c) as int,
        (b * c) as int,
        q as int,
        (r * c) as int,
    );
    assert(2 * r < b <==> 2 * (r * c) < b * c) by (nonlinear_arith)
        requires
            c > 0,
    ;
    assert(2 * r > b <==> 2 * (r * c) > b * c) by (nonlinear_arith)
        requires
            c > 0,
    ;
}

/// `n / d` rounded to the nearest whole number, to the even one of two.
pub fn rounded(n: u128, d: u128) -> (r: u128)
    requires
        0 < d < 0x8000_0000_0000_0000_0000_0000_0000_0000,
        n < 0x8000_0000_0000_0000_0000_0000_0000_0000,
    ensures
        r == round_half_even(n as nat, d as nat),
        r <= n / d + 1,
        r <= n + 1,
{
    let q: u128 = n / d;
    let r: u128 = n % d;
    assert(q <= n) by (nonlinear_arith)
        requires
            q == n as int / d as int,
            d > 0,
            n >= 0,
    ;
    if r < d - r {
        q
    } else if r > d - r {
        q + 1
    } else if q % 2 == 0 {
        q
    } else {
        q + 1
    }
}

/// 2 to the power of `k < 64`.
fn power_of_two(k: u64) -> (r: u128)
    requires
        k < 64,
    ensures
        r == pow2(k as nat),
        0 < r < 0x1_0000_0000_0000_0000,
{
    let mut p: u128 = 1;
    let mut i: u64 = 0;
    proof {
        lemma2_to64();
        lemma2_to64_rest();
    }
    while i < k
        invariant
            i <= k < 64,
            p == pow2(i as nat),
            pow2(64) == 0x1_0000_0000_0000_0000,
            p < 0x1_0000_0000_0000_0000,
        decreases k - i,
    {
        proof {
            lemma_pow2_unfold((i + 1) as nat);
            lemma_pow2_strictly_increases((i + 1) as nat, 64);
        }
        p = p * 2;
        i = i + 1;
    }
    proof {
        lemma_pow2_pos(k as nat);
    }
    p
}

/// The tenths of `m / 2^k`, rounded.
fn tenths_below_one_unit(m: u64, k: u64) -> (t: u128)
    requires
        m < 0x20_0000_0000_0000,
        0 < k,
    ensures
        t == round_half_even((10 * m) as nat, pow2(k as nat)),
        t <= 0x140_0000_0000_0000,
{
    let n: u128 = m as u128 * 10;
    if k < 64 {
        let d: u128 = power_of_two(k);
        rounded(n, d)
    } else {
        proof {
            lemma2_to64();
            lemma2_to64_rest();
            if k > 64 {
                lemma_pow2_strictly_increases(64, k as nat);
            }
            vstd::arithmetic::div_mod::lemma_basic_div(n as int, pow2(k as nat) as int);
            vstd::arithmetic::div_mod::lemma_small_mod(n as nat, pow2(k as nat));
        }
        0
    }
}

/// The number that decimal digits write, the lowest first.
spec fn digits_number(ds: Seq<u8>) -> nat
    decreases ds.len(),
{
    if ds.len() == 0 {
        0
    } else {
        ds[0] as nat + 10 * digits_number(ds.drop_first())
    }
}

/// Digits below ten, the highest of which is not zero.
spec fn proper_digits(ds: Seq<u8>) -> bool {
    &&& ds.len() > 0
    &&& forall|i: int| 0 <= i < ds.len() ==> ds[i] < 10
    &&& ds.last() > 0
}

/// Proper digits are those that the number is printed with.
proof fn lemma_proper_digits(ds: Seq<u8>)
    requires
        proper_digits(ds),
    ensures
        digits_number(ds) > 0,
        text::dec(digits_number(ds)) == Seq::new(
            ds.len(),
            |i: int| text::digit(ds[ds.len() - 1 - i] as nat),
        ),
    decreases ds.len(),
{
    let n = digits_number(ds);
    let all = Seq::new(ds.len(), |i: int| text::digit(ds[ds.len() - 1 - i] as nat));
    let rest = ds.drop_first();
    if ds.len() == 1 {
        assert(digits_number(rest) == 0);
        assert(text::dec(n) =~= all);
    } else {
        assert(rest.last() == ds.last());
        lemma_proper_digits(rest);
        assert(n / 10 == digits_number(rest) && n % 10 == ds[0] as nat);
        assert(text::dec(n) =~= all);
    }
}

/// Replacing digits of a suffix.
proof fn lemma_digits_split(ds: Seq<u8>, i: int)
    requires
        0 <= i <= ds.len(),
    ensures
        digits_number(ds) == digits_number(ds.take(i)) + vstd::arithmetic::power::pow(10, i as nat)
            * digits_number(ds.skip(i)),
    decreases i,
{
    broadcast use vstd::arithmetic::power::lemma_pow_positive;

    if i == 0 {
        assert(ds.skip(0) =~= ds);
        vstd::arithmetic::power::lemma_pow0(10);
        assert(digits_number(ds.take(0)) == 0);
        let one = vstd::arithmetic::power::pow(10, 0);
        let x = digits_number(ds);
        assert(one * x == x) by (nonlinear_arith)
            requires
                one == 1,
        ;
    } else {
        let rest = ds.drop_first();
        lemma_digits_split(rest, i - 1);
        assert(ds.take(i).drop_first() =~= rest.take(i - 1));
        assert(ds.skip(i) =~= rest.skip(i - 1));
        vstd::arithmetic::power::lemma_pow_adds(10, 1, (i - 1) as nat);
        vstd::arithmetic::power::lemma_pow1(10);
        let p = vstd::arithmetic::power::pow(10, (i - 1) as nat);
        let x = digits_number(rest.skip(i - 1));
        let q = vstd::arithmetic::power::pow(10, i as nat);
        assert(q * x == 10 * (p * x)) by (nonlinear_arith)
            requires
                q == 10 * p,
        ;
        assert(ds.take(i)[0] == ds[0]);
    }
}

/// The digits of `m`, the lowest first.
fn digits_of(m: u64) -> (ds: Vec<u8>)
    requires
        m > 0,
    ensures
        proper_digits(ds@),
        digits_number(ds@) == m,
    decreases m,
{
    if m < 10 {
        let mut ds: Vec<u8> = Vec::new();
        ds.push(m as u8);
        assert(ds@.drop_first() =~= Seq::<u8>::empty());
        assert(digits_number(ds@.drop_first()) == 0);
        ds
    } else {
        let mut ds = digits_of(m / 10);
        let ghost high = ds@;
        ds.insert(0, (m % 10) as u8);
        assert(ds@.drop_first() =~= high);
        assert(ds@.last() == high.last());
        ds
    }
}

/// The digits of twice the number.
fn doubled(ds: &Vec<u8>) -> (r: Vec<u8>)
    requires
        proper_digits(ds@),
    ensures
        proper_digits(r@),
        digits_number(r@) == 2 * digits_number(ds@),
{
    let mut r: Vec<u8> = Vec::new();
    let mut carry: u8 = 0;
    let mut i: usize = 0;
    assert(ds@.take(0) =~= Seq::<u8>::empty());
    proof {
        vstd::arithmetic::power::lemma_pow0(10);
    }
    while i < ds.len()
        invariant
            i <= ds.len(),
            r@.len() == i,
            carry <= 1,
            proper_digits(ds@),
            forall|k: int| 0 <= k < i ==> r@[k] < 10,
            i > 0 ==> r@[i - 1] + 10 * carry == 2 * ds@[i - 1] || r@[i - 1] + 10 * carry == 2
                * ds@[i - 1] + 1,
            digits_number(r@) + vstd::arithmetic::power::pow(10, i as nat) * carry == 2
                * digits_number(ds@.take(i as int)),
        decreases ds.len() - i,
    {
        let ghost before = r@;
        let ghost c0 = carry as int;
        let ghost p = vstd::arithmetic::power::pow(10, i as nat);
        assert(ds@[i as int] < 10);
        let d: u8 = ds[i];
        let v: u8 = 2 * d + carry;
        r.push(v % 10);
        carry = v / 10;
        proof {
            lemma_digits_split(r@, i as int);
            assert(r@.take(i as int) =~= before);
            let top = r@.skip(i as int);
            assert(top =~= seq![(v % 10) as u8]);
            assert(top.drop_first() =~= Seq::<u8>::empty());
            assert(digits_number(top.drop_first()) == 0);
            assert(digits_number(top) == v % 10);
            let low = ds@.take(i + 1);
            lemma_digits_split(low, i as int);
            assert(low.take(i as int) =~= ds@.take(i as int));
            let ltop = low.skip(i as int);
            assert(ltop =~= seq![d]);
            assert(ltop.drop_first() =~= Seq::<u8>::empty());
            assert(digits_number(ltop.drop_first()) == 0);
            assert(digits_number(ltop) == d);
            vstd::arithmetic::power::lemma_pow_adds(10, i as nat, 1);
            vstd::arithmetic::power::lemma_pow1(10);
            let x = (v % 10) as int;
            let y = carry as int;
            assert(x + 10 * y == 2 * d + c0);
            assert(p * x + (p * 10) * y == 2 * (p * d) + p * c0) by (nonlinear_arith)
                requires
                    x + 10 * y == 2 * d + c0,
            ;
        }
        i = i + 1;
    }
    assert(ds@.take(i as int) =~= ds@);
    if carry > 0 {
        let ghost before = r@;
        r.push(carry);
        proof {
            lemma_digits_split(r@, i as int);
            assert(r@.take(i as int) =~= before);
            let top = r@.skip(i as int);
            assert(top =~= seq![carry]);
            assert(top.drop_first() =~= Seq::<u8>::empty());
            assert(digits_number(top.drop_first()) == 0);
        }
    } else {
        assert(ds@.last() > 0);
        assert(r@.last() > 0);
    }
    r
}

/// Prints `m * 2^j` in decimal.
fn print_shifted(m: u64, j: u64) -> (s: String)
    requires
        m > 0,
    ensures
        s@ == text::dec(m as nat * pow2(j as nat)),
{
    let mut ds = digits_of(m);
    let mut i: u64 = 0;
    proof {
        lemma2_to64();
    }
    while i < j
        invariant
            i <= j,
            proper_digits(ds@),
            digits_number(ds@) == m as nat * pow2(i as nat),
        decreases j - i,
    {
        ds = doubled(&ds);
        proof {
            lemma_pow2_unfold((i + 1) as nat);
            let p = pow2(i as nat);
            assert(2 * (m as nat * p) == m as nat * (2 * p)) by (nonlinear_arith);
        }
        i = i + 1;
    }
    proof {
        lemma_proper_digits(ds@);
    }
    let mut s = String::new();
    let mut k: usize = ds.len();
    while k > 0
        invariant
            k <= ds.len(),
            proper_digits(ds@),
            s@ == Seq::new(
                (ds@.len() - k) as nat,
                |q: int| text::digit(ds@[ds@.len() - 1 - q] as nat),
            ),
        decreases k,
    {
        let c = text::digit_char(ds[k - 1]);
        s.push(c);
        k = k - 1;
        assert(s@ =~= Seq::new(
            (ds@.len() - k) as nat,
            |q: int| text::digit(ds@[ds@.len() - 1 - q] as nat),
        ));
    }
    s
}

/// Prints a number of tenths with one decimal place.
pub fn print_tenths(t: u128) -> (s: String)
    requires
        t / 10 <= u64::MAX,
    ensures
        s@ == tenths_text(t as nat),
{
    let mut s = text::print_u64((t / 10) as u64);
    s.append(".");
    let d = text::print_u64((t % 10) as u64);
    s.append(d.as_str());
    s
}

impl Real64 {
    /// Prints the number with one decimal place.
    pub fn print_one_decimal(&self) -> (s: String)
        ensures
            s@ == self.one_decimal(),
    {
        if self.nan() {
            return "NaN".to_owned();
        }
        let u: u64 = self.bits % 0x8000_0000_0000_0000;
        let mut s: String = if self.bits >= 0x8000_0000_0000_0000 {
            "-".to_owned()
        } else {
            "".to_owned()
        };
        let e: u64 = u / 0x10_0000_0000_0000;
        let f: u64 = u % 0x10_0000_0000_0000;
        if e == 2047 {
            s.append("inf");
            return s;
        }
        let m: u64 = if e == 0 {
            f
        } else {
            0x10_0000_0000_0000 + f
        };
        let shift: u64 = if e == 0 {
            0
        } else {
            e - 1
        };
        if shift < 1074 {
            let t: u128 = tenths_below_one_unit(m, 1074 - shift);
            proof {
                let p = pow2(shift as nat);
                let k = pow2((1074 - shift) as nat);
                lemma_pow2_adds((1074 - shift) as nat, shift as nat);
                lemma_pow2_pos(shift as nat);
                lemma_pow2_pos((1074 - shift) as nat);
                lemma_round_common_factor((10 * m) as nat, k, p);
                assert(10 * (m * p) == (10 * m) * p) by (nonlinear_arith);
            }
            let d = print_tenths(t);
            s.append(d.as_str());
        } else {
            let d = print_shifted(m, shift - 1074);
            let ghost whole = m as nat * pow2((shift - 1074) as nat);
            proof {
                let p = pow2((shift - 1074) as nat);
                let k = pow2(1074);
                lemma_pow2_adds((shift - 1074) as nat, 1074);
                lemma_pow2_pos(1074);
                assert(10 * (m * (p * k)) == (10 * whole) * k) by (nonlinear_arith)
                    requires
                        whole == m as nat * p,
                ;
                vstd::arithmetic::div_mod::lemma_fundamental_div_mod_converse(
                    ((10 * whole) * k) as int,
                    k as int,
                    (10 * whole) as int,
                    0,
                );
            }
            let ghost before = s@;
            s.append(d.as_str());
            s.append(".");
            s.append("0");
            proof {
                reveal_strlit("0");
                assert("0"@ =~= text::dec(0));
                assert(before + (text::dec(whole) + "."@ + text::dec(0)) =~= before + text::dec(
                    whole,
                ) + "."@ + "0"@);
            }
        }
        s
    }
}

/// The distance of the binary64 numbers around `n`.
pub open spec fn spacing(n: nat) -> nat
    decreases n,
{
    if n < 0x20_0000_0000_0000 {
        1
    } else {
        2 * spacing(n / 2)
    }
}

/// The binary64 number nearest to `n`, the one with the even significand of two.
pub open spec fn nearest(n: nat) -> nat {
    round_half_even(n, spacing(n)) * spacing(n)
}

/// The binary64 number nearest to `n`.
pub fn nearest_real(n: u64) -> (r: u128)
    ensures
        r == nearest(n as nat),
        r <= 0x1_0000_0000_0000_1000,
{
    let mut u: u128 = 1;
    let mut x: u64 = n;
    while x >= 0x20_0000_0000_0000
        invariant
            u >= 1,
            u * x <= n,
            u <= 0x1000,
            spacing(n as nat) == u * spacing(x as nat),
        decreases x,
    {
        assert(u <= 0x7ff) by (nonlinear_arith)
            requires
                u * x <= n,
                n <= u64::MAX,
                x >= 0x20_0000_0000_0000,
        ;
        let ghost u0 = u;
        let ghost x0 = x;
        x = x / 2;
        u = u * 2;
        proof {
            let half = spacing(x as nat);
            assert(u * half == u0 * (2 * half)) by (nonlinear_arith)
                requires
                    u == u0 * 2,
            ;
            assert(u * x <= u0 * x0) by (nonlinear_arith)
                requires
                    u == u0 * 2,
                    2 * x <= x0,
            ;
        }
    }
    assert(spacing(x as nat) == 1);
    assert(u * 1 == u);
    let q: u128 = rounded(n as u128, u);
    proof {
        let d = n as int / u as int;
        vstd::arithmetic::div_mod::lemma_fundamental_div_mod(n as int, u as int);
        assert(u * d <= n);
        assert(q * u <= u * d + u) by (nonlinear_arith)
            requires
                0 <= q <= d + 1,
                u > 0,
        ;
    }
    q * u
}

} // verus!
