//! Exact JSON numbers.
//!
//! Every number a JSON document can carry here (an unsigned or signed 64-bit
//! integer, or a finite double) is a dyadic rational `± mant * 2^exp`.
//! Numbers are compared by value; `JsonNumber::new` also brings them to a
//! normal form (odd mantissa, or zero as `+0 * 2^0`) in which equal values
//! have equal fields.

use vstd::prelude::*;
use vstd::arithmetic::power2::*;

verus! {

broadcast use {lemma_pow2_adds, lemma_pow2_pos};

/// A number `(-1)^neg * mant * 2^exp`.
#[derive(Clone, Copy, Debug, PartialEq, Eq, Structural)]
pub struct JsonNumber {
    pub neg: bool,
    pub mant: u64,
    pub exp: i32,
}

/// The value of `n` as an integer multiple of `2^base` (for `base <= n.exp`).
pub open spec fn scaled(n: JsonNumber, base: int) -> int
    recommends
        base <= n.exp,
{
    let m = n.mant * pow2((n.exp - base) as nat);
    if n.neg {
        -m
    } else {
        m
    }
}

pub open spec fn min_exp(a: JsonNumber, b: JsonNumber) -> int {
    if a.exp <= b.exp {
        a.exp as int
    } else {
        b.exp as int
    }
}

/// The value of `a` is strictly below the value of `b`.
pub open spec fn num_lt(a: JsonNumber, b: JsonNumber) -> bool {
    scaled(a, min_exp(a, b)) < scaled(b, min_exp(a, b))
}

/// `a` and `b` have the same value.
pub open spec fn num_same(a: JsonNumber, b: JsonNumber) -> bool {
    scaled(a, min_exp(a, b)) == scaled(b, min_exp(a, b))
}

impl JsonNumber {
    /// Normal form: zero is `+0 * 2^0`, any other mantissa is odd.
    pub open spec fn wf(self) -> bool {
        if self.mant == 0 {
            !self.neg && self.exp == 0
        } else {
            self.mant % 2 == 1
        }
    }

    /// The number `(-1)^neg * mant * 2^exp`, in normal form.
    pub fn new(neg: bool, mant: u64, exp: i32) -> (r: JsonNumber)
        requires
            exp <= i32::MAX - 64,
        ensures
            r.wf(),
            num_same(r, JsonNumber { neg, mant, exp }),
    {
        if mant == 0 {
            proof {
                lemma_scaled_nonneg(0, exp, exp as int);
                lemma_scaled_nonneg(0, 0, if exp <= 0 { exp as int } else { 0 });
            }
            return JsonNumber { neg: false, mant: 0, exp: 0 };
        }
        let mut m: u64 = mant;
        let mut e: i32 = exp;
        let mut k: u32 = 0;
        proof {
            lemma2_to64();
            lemma2_to64_rest();
        }
        while k < 64 && m % 2 == 0
            invariant
                0 < m,
                k <= 64,
                e == exp + k,
                exp <= i32::MAX - 64,
                m * pow2(k as nat) == mant,
                mant < 0x1_0000_0000_0000_0000,
            decreases 64 - k,
        {
            proof {
                lemma_pow2_unfold((k + 1) as nat);
            }
            assert((m / 2) * pow2((k + 1) as nat) == mant) by (nonlinear_arith)
                requires
                    m % 2 == 0,
                    pow2((k + 1) as nat) == 2 * pow2(k as nat),
                    m * pow2(k as nat) == mant,
            ;
            m = m / 2;
            e = e + 1;
            k = k + 1;
        }
        if k == 64 {
            assert(pow2(64) == 0x1_0000_0000_0000_0000);
            assert(m * pow2(64) >= pow2(64)) by (nonlinear_arith)
                requires
                    m >= 1,
            ;
            assert(false);
        }
        let r = JsonNumber { neg, mant: m, exp: e };
        let ghost orig = JsonNumber { neg, mant, exp };
        assert(min_exp(r, orig) == exp);
        assert(scaled(r, exp as int) == scaled(orig, exp as int)) by {
            assert(mant * pow2(0) == mant);
        }
        r
    }

    /// The integer `i`.
    pub fn from_i64(i: i64) -> (r: JsonNumber)
        ensures
            r.wf(),
            num_same(r, JsonNumber { neg: i < 0, mant: abs_i64(i), exp: 0 }),
    {
        let mag: u64 = if i >= 0 {
            i as u64
        } else if i == i64::MIN {
            0x8000_0000_0000_0000u64
        } else {
            (-i) as u64
        };
        JsonNumber::new(i < 0, mag, 0)
    }

    /// The integer `u`.
    pub fn from_u64(u: u64) -> (r: JsonNumber)
        ensures
            r.wf(),
            num_same(r, JsonNumber { neg: false, mant: u, exp: 0 }),
    {
        JsonNumber::new(false, u, 0)
    }

    /// Whether the value of `self` is strictly below the value of `other`.
    pub fn less_than(&self, other: &JsonNumber) -> (r: bool)
        ensures
            r == num_lt(*self, *other),
    {
        let a = *self;
        let b = *other;
        let ghost base = min_exp(a, b);
        let c = compare_magnitudes(a.mant, a.exp, b.mant, b.exp);
        proof {
            lemma_scaled_nonneg(a.mant, a.exp, base);
            lemma_scaled_nonneg(b.mant, b.exp, base);
        }
        let a_neg = a.neg && a.mant != 0;
        let b_neg = b.neg && b.mant != 0;
        if a_neg && !b_neg {
            proof {
                lemma_scaled_positive(a.mant, a.exp, base);
            }
            true
        } else if !a_neg && b_neg {
            proof {
                lemma_scaled_positive(b.mant, b.exp, base);
            }
            false
        } else if a_neg {
            c > 0
        } else {
            c < 0
        }
    }
}

/// Two numbers in normal form with the same value have the same fields.
pub proof fn lemma_normal_form_unique(a: JsonNumber, b: JsonNumber)
    requires
        a.wf(),
        b.wf(),
        num_same(a, b),
    ensures
        a == b,
{
    let base = min_exp(a, b);
    lemma_scaled_nonneg(a.mant, a.exp, base);
    lemma_scaled_nonneg(b.mant, b.exp, base);
    if a.mant == 0 || b.mant == 0 {
        if a.mant != 0 {
            lemma_scaled_positive(a.mant, a.exp, base);
        }
        if b.mant != 0 {
            lemma_scaled_positive(b.mant, b.exp, base);
        }
    } else {
        lemma_scaled_positive(a.mant, a.exp, base);
        lemma_scaled_positive(b.mant, b.exp, base);
        if a.exp != b.exp {
            let (x, y) = if a.exp < b.exp {
                (a, b)
            } else {
                (b, a)
            };
            let d = (y.exp - x.exp) as nat;
            lemma_pow2_unfold(d);
            lemma2_to64();
            let p = pow2((d - 1) as nat);
            assert(x.mant * pow2(0) == x.mant);
            let q = y.mant * p;
            assert(y.mant * (2 * p) == q * 2) by (nonlinear_arith)
                requires
                    q == y.mant * p,
            ;
            vstd::arithmetic::div_mod::lemma_mod_multiples_basic(q, 2);
            assert(x.mant == y.mant * (2 * p));
        }
        assert(a.exp == b.exp);
        lemma2_to64();
        assert(a.mant * pow2(0) == a.mant);
        assert(b.mant * pow2(0) == b.mant);
    }
}

/// `|i|` as an unsigned integer.
pub open spec fn abs_i64(i: i64) -> u64 {
    if i >= 0 {
        i as u64
    } else {
        (-(i as int)) as u64
    }
}

proof fn lemma_scaled_nonneg(m: u64, e: i32, base: int)
    requires
        base <= e,
    ensures
        m * pow2((e - base) as nat) >= 0,
        m == 0 ==> m * pow2((e - base) as nat) == 0,
{
    assert(m * pow2((e - base) as nat) >= 0) by (nonlinear_arith);
}

proof fn lemma_scaled_positive(m: u64, e: i32, base: int)
    requires
        base <= e,
        m != 0,
    ensures
        m * pow2((e - base) as nat) > 0,
{
    let p = pow2((e - base) as nat);
    assert(m * p > 0) by (nonlinear_arith)
        requires
            m > 0,
            p > 0,
    ;
}

/// `x * 2^d`, for a shift small enough to fit.
fn shift_left(x: u64, d: u32) -> (r: u128)
    requires
        d < 64,
    ensures
        r == x * pow2(d as nat),
{
    let mut r: u128 = x as u128;
    let mut i: u32 = 0;
    proof {
        lemma2_to64();
    }
    while i < d
        invariant
            i <= d < 64,
            r == x * pow2(i as nat),
        decreases d - i,
    {
        proof {
            lemma_pow2_unfold((i + 1) as nat);
            lemma_pow2_strictly_increases(i as nat, 63);
            lemma2_to64_rest();
            let p = pow2(i as nat);
            assert(x * p < 0x1_0000_0000_0000_0000 * 0x8000_0000_0000_0000) by (nonlinear_arith)
                requires
                    x < 0x1_0000_0000_0000_0000,
                    p < 0x8000_0000_0000_0000,
                    p > 0,
            ;
            assert(2 * (x * p) == x * (2 * p)) by (nonlinear_arith);
        }
        r = r * 2;
        i = i + 1;
    }
    r
}

/// Compares `am * 2^ae` with `bm * 2^be`: negative, zero or positive as the
/// first is below, equal to or above the second.
fn compare_magnitudes(am: u64, ae: i32, bm: u64, be: i32) -> (c: i8)
    ensures
        ({
            let base = if ae <= be {
                ae as int
            } else {
                be as int
            };
            let x = am * pow2((ae - base) as nat);
            let y = bm * pow2((be - base) as nat);
            &&& c < 0 <==> x < y
            &&& c == 0 <==> x == y
            &&& c > 0 <==> x > y
        }),
    decreases
            if ae >= be {
                0int
            } else {
                1int
            },
{
    proof {
        lemma2_to64();
    }
    if ae >= be {
        let d: i64 = ae as i64 - be as i64;
        let ghost p = pow2(d as nat);
        assert(bm * pow2(0) == bm);
        if am == 0 {
            assert(am * p == 0);
            if bm == 0 {
                0
            } else {
                -1
            }
        } else if d >= 64 {
            proof {
                lemma2_to64();
                lemma2_to64_rest();
                if d > 64 {
                    lemma_pow2_strictly_increases(64, d as nat);
                }
                assert(am * p >= p) by (nonlinear_arith)
                    requires
                        am >= 1,
                        p > 0,
                ;
            }
            1
        } else {
            let x = shift_left(am, d as u32);
            let y = bm as u128;
            if x < y {
                -1
            } else if x == y {
                0
            } else {
                1
            }
        }
    } else {
        let c = compare_magnitudes(bm, be, am, ae);
        if c < 0 {
            1
        } else if c == 0 {
            0
        } else {
            -1
        }
    }
}

} // verus!
