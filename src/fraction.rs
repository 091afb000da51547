//! Exact non-negative fractions in lowest terms.
use vstd::prelude::*;
use vstd::arithmetic::div_mod::{lemma_fundamental_div_mod, lemma_mod_multiples_basic};
use vstd::arithmetic::mul::{lemma_mul_is_associative, lemma_mul_inequality, lemma_mul_is_distributive_sub};
use crate::text::{find_char, parse_u32, trim, decimal_u32, is_trim_of, is_space};

verus! {

/// Greatest common divisor, by Euclid's rule.
pub open spec fn gcd(a: nat, b: nat) -> nat
    decreases b,
{
    if b == 0 {
        a
    } else {
        gcd(b, a % b)
    }
}

/// `d` divides `x`.
pub open spec fn divides(d: int, x: int) -> bool {
    exists|k: int| x == #[trigger] (k * d)
}

proof fn lemma_divides_mod(a: nat, b: nat, d: int)
    requires
        b > 0,
        divides(d, a as int),
        divides(d, b as int),
    ensures
        divides(d, (a % b) as int),
{
    let ka = choose|k: int| a == #[trigger] (k * d);
    let kb = choose|k: int| b == #[trigger] (k * d);
    let q = (a / b) as int;
    lemma_fundamental_div_mod(a as int, b as int);
    assert(a % b == a - b * q);
    assert(b * q == (kb * d) * q);
    lemma_mul_is_associative(kb, d, q);
    assert((kb * d) * q == (kb * q) * d) by (nonlinear_arith);
    lemma_mul_is_distributive_sub(d, ka, kb * q);
    assert((a % b) as int == (ka - kb * q) * d) by (nonlinear_arith)
        requires
            (a % b) as int == a - (kb * d) * q,
            a == ka * d,
    ;
}

proof fn lemma_divides_from_mod(a: nat, b: nat, d: int)
    requires
        b > 0,
        divides(d, b as int),
        divides(d, (a % b) as int),
    ensures
        divides(d, a as int),
{
    let kb = choose|k: int| b == #[trigger] (k * d);
    let kr = choose|k: int| (a % b) as int == #[trigger] (k * d);
    let q = (a / b) as int;
    lemma_fundamental_div_mod(a as int, b as int);
    assert(a as int == (q * kb + kr) * d) by (nonlinear_arith)
        requires
            a as int == b * q + (a % b) as int,
            b == kb * d,
            (a % b) as int == kr * d,
    ;
}

/// `gcd(a, b)` divides both arguments.
pub proof fn lemma_gcd_divides(a: nat, b: nat)
    ensures
        divides(gcd(a, b) as int, a as int),
        divides(gcd(a, b) as int, b as int),
    decreases b,
{
    if b == 0 {
        assert(a as int == 1 * a);
        assert(0int == 0 * a);
    } else {
        lemma_gcd_divides(b, a % b);
        lemma_divides_from_mod(a, b, gcd(a, b) as int);
    }
}

/// Every common divisor of `a` and `b` divides `gcd(a, b)`.
pub proof fn lemma_common_divisor_divides_gcd(a: nat, b: nat, d: int)
    requires
        divides(d, a as int),
        divides(d, b as int),
    ensures
        divides(d, gcd(a, b) as int),
    decreases b,
{
    if b != 0 {
        lemma_divides_mod(a, b, d);
        lemma_common_divisor_divides_gcd(b, a % b, d);
    }
}

/// `gcd(a, b)` is zero only when both are.
pub proof fn lemma_gcd_positive(a: nat, b: nat)
    requires
        b > 0,
    ensures
        gcd(a, b) > 0,
{
    lemma_gcd_divides(a, b);
    let k = choose|k: int| b as int == #[trigger] (k * gcd(a, b));
    if gcd(a, b) == 0 {
        assert(k * 0 == 0);
    }
}

/// Dividing both arguments by their gcd leaves them coprime.
pub proof fn lemma_divided_by_gcd_coprime(a: nat, b: nat)
    requires
        b > 0,
    ensures
        gcd(a, b) > 0,
        gcd(a / gcd(a, b), b / gcd(a, b)) == 1,
        (a / gcd(a, b)) * gcd(a, b) == a,
        (b / gcd(a, b)) * gcd(a, b) == b,
{
    let g = gcd(a, b);
    lemma_gcd_positive(a, b);
    lemma_gcd_divides(a, b);
    let ka = choose|k: int| a as int == #[trigger] (k * g);
    let kb = choose|k: int| b as int == #[trigger] (k * g);
    lemma_exact_div(a, g, ka);
    lemma_exact_div(b, g, kb);
    let a2 = a / g;
    let b2 = b / g;
    assert(b2 > 0) by {
        if b2 == 0 {
            assert(b2 * g == 0) by (nonlinear_arith)
                requires
                    b2 == 0,
            ;
        }
    }
    let c = gcd(a2, b2);
    lemma_gcd_positive(a2, b2);
    lemma_gcd_divides(a2, b2);
    let ja = choose|k: int| a2 as int == #[trigger] (k * c);
    let jb = choose|k: int| b2 as int == #[trigger] (k * c);
    assert(a as int == ja * (c * g)) by (nonlinear_arith)
        requires
            a as int == a2 * g,
            a2 as int == ja * c,
    ;
    assert(b as int == jb * (c * g)) by (nonlinear_arith)
        requires
            b as int == b2 * g,
            b2 as int == jb * c,
    ;
    lemma_common_divisor_divides_gcd(a, b, (c * g) as int);
    let m = choose|k: int| g as int == #[trigger] (k * (c * g));
    assert(c == 1) by (nonlinear_arith)
        requires
            g as int == m * (c * g),
            g > 0,
            c > 0,
    ;
}

proof fn lemma_exact_div(x: nat, g: nat, k: int)
    requires
        g > 0,
        x as int == k * g,
    ensures
        (x / g) * g == x,
        (x / g) as int == k,
{
    lemma_fundamental_div_mod(x as int, g as int);
    lemma_mod_multiples_basic(k, g as int);
    assert(k * g == g * k) by (nonlinear_arith);
    assert(x as int == g * (x / g) as int);
    assert((x / g) as int == k) by (nonlinear_arith)
        requires
            g * (x / g) as int == g * k,
            g > 0,
    ;
}

/// `(k*a) mod (k*b) == k * (a mod b)`.
proof fn lemma_mod_scale(a: nat, b: nat, k: nat)
    requires
        b > 0,
        k > 0,
    ensures
        (k * a) % (k * b) == k * (a % b),
{
    let q = (a / b) as int;
    let r = (a % b) as int;
    lemma_fundamental_div_mod(a as int, b as int);
    assert(k * b > 0) by (nonlinear_arith)
        requires
            k > 0,
            b > 0,
    ;
    assert((k * a) as int == (k * b) * q + k * r) by (nonlinear_arith)
        requires
            a as int == b * q + r,
    ;
    assert(0 <= k * r < k * b) by (nonlinear_arith)
        requires
            0 <= r < b,
            k > 0,
    ;
    vstd::arithmetic::div_mod::lemma_fundamental_div_mod_converse_mod((k * a) as int, (k * b) as int, q, k * r);
}

/// Scaling both arguments scales the gcd.
pub proof fn lemma_gcd_scale(a: nat, b: nat, k: nat)
    ensures
        gcd(k * a, k * b) == k * gcd(a, b),
    decreases b,
{
    if k == 0 {
        assert(k * a == 0 && k * b == 0);
        reveal_with_fuel(gcd, 2);
    } else if b == 0 {
        assert(k * b == 0);
    } else {
        assert(k * b > 0) by (nonlinear_arith)
            requires
                k > 0,
                b > 0,
        ;
        lemma_mod_scale(a, b, k);
        lemma_gcd_scale(b, a % b, k);
    }
}

/// A fraction in lowest terms is the lowest-terms form of every pair with its value.
pub proof fn lemma_lowest_unique(f: Fraction, n: nat, d: nat)
    requires
        f.wf(),
        d > 0,
        f.num * d == n * f.den,
    ensures
        lowest(n, d) == (f.num as nat, f.den as nat),
        reduced_of(n, d) == Some(f),
{
    let g = gcd(n, d);
    lemma_divided_by_gcd_coprime(n, d);
    let n2 = n / g;
    let d2 = d / g;
    let a = f.num as nat;
    let b = f.den as nat;
    assert(a * d2 == n2 * b) by (nonlinear_arith)
        requires
            a * d == n * b,
            n2 * g == n,
            d2 * g == d,
            g > 0,
    ;
    lemma_gcd_scale(a, b, d2);
    lemma_gcd_scale(n2, d2, b);
    assert(d2 * a == b * n2) by (nonlinear_arith)
        requires
            a * d2 == n2 * b,
    ;
    assert(d2 * b == b * d2) by (nonlinear_arith);
    assert(d2 * 1 == d2);
    assert(d2 == b);
    assert(n2 == a) by (nonlinear_arith)
        requires
            a * d2 == n2 * b,
            d2 == b,
            b > 0,
    ;
}

/// Lowest-terms form of `n / d`.
pub open spec fn lowest(n: nat, d: nat) -> (nat, nat) {
    (n / gcd(n, d), d / gcd(n, d))
}

/// An exact non-negative fraction `num / den`.
#[derive(Debug, Clone, Copy, PartialEq, Eq, Structural)]
pub struct Fraction {
    pub num: u32,
    pub den: u32,
}

/// The lowest-terms fraction for `n / d`, where it fits 32-bit parts.
pub open spec fn reduced_of(n: nat, d: nat) -> Option<Fraction> {
    let (a, b) = lowest(n, d);
    if a <= u32::MAX && b <= u32::MAX {
        Some(Fraction { num: a as u32, den: b as u32 })
    } else {
        None
    }
}

/// What parsing a fraction literal gives, from the text without surrounding
/// white space: `n` or `n/d` with `d > 0`, each part a 32-bit decimal.
pub open spec fn fraction_literal(t: Seq<char>) -> Option<Fraction> {
    if exists|i: int| 0 <= i < t.len() && t[i] == '/' {
        let i = choose|i: int| 0 <= i < t.len() && t[i] == '/' && forall|j: int| 0 <= j < i ==> t[j] != '/';
        match (decimal_u32(t.subrange(0, i)), decimal_u32(t.subrange(i + 1, t.len() as int))) {
            (Some(n), Some(d)) => if d > 0 {
                reduced_of(n as nat, d as nat)
            } else {
                None
            },
            _ => None,
        }
    } else {
        match decimal_u32(t) {
            Some(n) => Some(Fraction { num: n, den: 1 }),
            None => None,
        }
    }
}

/// The parse of a fraction literal, surrounding white space allowed.
pub open spec fn fraction_text(s: Seq<char>) -> Option<Fraction> {
    fraction_literal(choose|t: Seq<char>| is_trim_of(s, t))
}

impl Fraction {
    /// Denominator positive and the fraction in lowest terms.
    pub open spec fn wf(self) -> bool {
        self.den >= 1 && gcd(self.num as nat, self.den as nat) == 1
    }

    /// The rational value, as a pair over the integers.
    pub open spec fn same_value(self, n: int, d: int) -> bool {
        self.num * d == n * self.den
    }

    pub open spec fn spec_zero() -> Fraction {
        Fraction { num: 0, den: 1 }
    }

    pub open spec fn spec_one() -> Fraction {
        Fraction { num: 1, den: 1 }
    }

    pub fn zero() -> (r: Fraction)
        ensures
            r == Self::spec_zero(),
            r.wf(),
    {
        proof {
            reveal_with_fuel(gcd, 2);
        }
        Fraction { num: 0, den: 1 }
    }

    pub fn one() -> (r: Fraction)
        ensures
            r == Self::spec_one(),
            r.wf(),
    {
        proof {
            reveal_with_fuel(gcd, 2);
        }
        Fraction { num: 1, den: 1 }
    }

    /// Greatest common divisor.
    pub fn gcd(a: u128, b: u128) -> (r: u128)
        ensures
            r == gcd(a as nat, b as nat),
    {
        let mut x = a;
        let mut y = b;
        while y != 0
            invariant
                gcd(x as nat, y as nat) == gcd(a as nat, b as nat),
            decreases y,
        {
            let t = y;
            y = x % y;
            x = t;
        }
        x
    }

    /// Lowest-terms form of `num / den`; `None` where it does not fit 32-bit parts.
    pub fn reduce(num: u128, den: u128) -> (r: Option<Fraction>)
        requires
            den > 0,
        ensures
            r == reduced_of(num as nat, den as nat),
            r matches Some(f) ==> f.wf() && f.same_value(num as int, den as int),
    {
        let g = Self::gcd(num, den);
        proof {
            lemma_divided_by_gcd_coprime(num as nat, den as nat);
        }
        let n = num / g;
        let d = den / g;
        if n > 0xffff_ffff || d > 0xffff_ffff {
            return None;
        }
        let f = Fraction { num: n as u32, den: d as u32 };
        proof {
            assert(d >= 1) by {
                if d == 0 {
                    assert(d * g == 0) by (nonlinear_arith)
                        requires
                            d == 0,
                    ;
                }
            }
            assert(n * den == num * d) by (nonlinear_arith)
                requires
                    n * g == num,
                    d * g == den,
            ;
        }
        Some(f)
    }

    /// Sum in lowest terms: `(a.n*b.d + b.n*a.d) / (a.d*b.d)`, reduced;
    /// `None` where the reduced parts do not fit 32 bits.
    pub fn add(&self, other: &Fraction) -> (r: Option<Fraction>)
        requires
            self.den > 0,
            other.den > 0,
        ensures
            r == reduced_of(
                (self.num * other.den + other.num * self.den) as nat,
                (self.den * other.den) as nat,
            ),
            r matches Some(f) ==> f.wf() && f.same_value(
                self.num * other.den + other.num * self.den,
                self.den * other.den,
            ),
    {
        let a = self.num as u128;
        let b = self.den as u128;
        let c = other.num as u128;
        let d = other.den as u128;
        proof {
            lemma_product_bound(a, d);
            lemma_product_bound(c, b);
            lemma_product_bound(b, d);
        }
        assert(b * d > 0) by (nonlinear_arith)
            requires
                b > 0,
                d > 0,
        ;
        Self::reduce(a * d + c * b, b * d)
    }

    /// Product in lowest terms: `(a.n*b.n) / (a.d*b.d)`, reduced;
    /// `None` where the reduced parts do not fit 32 bits.
    pub fn mul(&self, other: &Fraction) -> (r: Option<Fraction>)
        requires
            self.den > 0,
            other.den > 0,
        ensures
            r == reduced_of((self.num * other.num) as nat, (self.den * other.den) as nat),
            r matches Some(f) ==> f.wf() && f.same_value(self.num * other.num, self.den * other.den),
    {
        let a = self.num as u128;
        let b = self.den as u128;
        let c = other.num as u128;
        let d = other.den as u128;
        proof {
            lemma_product_bound(a, c);
            lemma_product_bound(b, d);
        }
        assert(b * d > 0) by (nonlinear_arith)
            requires
                b > 0,
                d > 0,
        ;
        Self::reduce(a * c, b * d)
    }

    /// Parses `"n"` or `"n/d"` (`d > 0`), surrounding white space allowed,
    /// and reduces to lowest terms.
    pub fn parse(s: &str) -> (r: Result<Fraction, String>)
        ensures
            r matches Ok(f) ==> f.wf(),
            r matches Ok(f) ==> fraction_text(s@) == Some(f),
            r is Err <==> fraction_text(s@) is None,
    {
        let t = trim(s);
        proof {
            lemma_trim_unique(s@, t@);
        }
        match find_char(t, '/') {
            Some(i) => {
                let n = t.unicode_len();
                let num_str = t.substring_char(0, i);
                let den_str = t.substring_char(i + 1, n);
                proof {
                    assert(exists|k: int| 0 <= k < t@.len() && t@[k] == '/') by {
                        assert(t@[i as int] == '/');
                    }
                    let c = choose|k: int| 0 <= k < t@.len() && t@[k] == '/' && forall|j: int| 0 <= j < k ==> t@[j] != '/';
                    assert(c == i) by {
                        if c < i {
                            assert(t@[c] != '/');
                        }
                        if c > i {
                            assert(t@[i as int] != '/');
                        }
                    }
                }
                let num = match parse_u32(num_str) {
                    Some(v) => v,
                    None => return Err(String::from_str("invalid numerator")),
                };
                let den = match parse_u32(den_str) {
                    Some(v) => v,
                    None => return Err(String::from_str("invalid denominator")),
                };
                if den == 0 {
                    return Err(String::from_str("denominator cannot be zero"));
                }
                match Self::reduce(num as u128, den as u128) {
                    Some(f) => Ok(f),
                    None => Err(String::from_str("fraction out of range")),
                }
            },
            None => {
                match parse_u32(t) {
                    Some(v) => {
                        proof {
                            lemma_gcd_one_den(v as nat);
                        }
                        Ok(Fraction { num: v, den: 1 })
                    },
                    None => Err(String::from_str("invalid number")),
                }
            },
        }
    }
}

proof fn lemma_product_bound(a: u128, b: u128)
    requires
        a <= 0xffff_ffff,
        b <= 0xffff_ffff,
    ensures
        a * b <= 0xffff_fffe_0000_0001,
{
    assert(a * b <= 0xffff_ffff * 0xffff_ffff) by (nonlinear_arith)
        requires
            a <= 0xffff_ffff,
            b <= 0xffff_ffff,
    ;
}

/// `gcd(n, 1) == 1`.
pub proof fn lemma_gcd_one_den(n: nat)
    ensures
        gcd(n, 1) == 1,
{
    reveal_with_fuel(gcd, 3);
    assert(n % 1 == 0);
}

/// The trimmed form of a string is unique.
proof fn lemma_trim_unique(s: Seq<char>, t: Seq<char>)
    requires
        is_trim_of(s, t),
    ensures
        (choose|u: Seq<char>| is_trim_of(s, u)) == t,
{
    let u = choose|u: Seq<char>| is_trim_of(s, u);
    let (a1, b1) = choose|a: int, b: int|
        0 <= a <= b <= s.len() && t == s.subrange(a, b) && (forall|i: int| 0 <= i < a ==> is_space(s[i]))
            && (forall|i: int| b <= i < s.len() ==> is_space(s[i])) && (a < b ==> !is_space(s[a])
            && !is_space(s[b - 1])) && (a == b ==> forall|i: int| 0 <= i < s.len() ==> is_space(s[i]));
    let (a2, b2) = choose|a: int, b: int|
        0 <= a <= b <= s.len() && u == s.subrange(a, b) && (forall|i: int| 0 <= i < a ==> is_space(s[i]))
            && (forall|i: int| b <= i < s.len() ==> is_space(s[i])) && (a < b ==> !is_space(s[a])
            && !is_space(s[b - 1])) && (a == b ==> forall|i: int| 0 <= i < s.len() ==> is_space(s[i]));
    if a1 < b1 && a2 < b2 {
        if a1 < a2 {
            assert(is_space(s[a1]));
        }
        if a2 < a1 {
            assert(is_space(s[a2]));
        }
        if b1 < b2 {
            assert(is_space(s[b2 - 1]));
        }
        if b2 < b1 {
            assert(is_space(s[b1 - 1]));
        }
        assert(t =~= u);
    } else if a1 < b1 {
        assert(is_space(s[a1]));
    } else if a2 < b2 {
        assert(is_space(s[a2]));
    } else {
        assert(t =~= u);
    }
}

} // verus!
