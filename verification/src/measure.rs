//! Measures: 64-bit floating-point numbers, by their bits.
use vstd::arithmetic::power2::pow2;
use vstd::prelude::*;

use crate::json::{Json, JsonTree};

verus! {

/// The bits of a number without its sign.
pub open spec fn magnitude(bits: u64) -> nat {
    (bits % 0x8000_0000_0000_0000) as nat
}

/// The number is negative, or a negative zero.
pub open spec fn is_negative(bits: u64) -> bool {
    bits >= 0x8000_0000_0000_0000
}

/// The bits are those of no number.
pub open spec fn is_nan(bits: u64) -> bool {
    magnitude(bits) > 0x7ff0_0000_0000_0000
}

/// The bits are those of a finite number.
pub open spec fn is_finite(bits: u64) -> bool {
    magnitude(bits) < 0x7ff0_0000_0000_0000
}

/// A place among all numbers, the infinite ones included: of two numbers the
/// smaller has the smaller rank, and the two zeros have one.
pub open spec fn rank(bits: u64) -> int {
    if is_negative(bits) {
        -magnitude(bits)
    } else {
        magnitude(bits) as int
    }
}

/// The exponent field of a number.
pub open spec fn exponent_field(bits: u64) -> nat {
    magnitude(bits) / 0x10_0000_0000_0000
}

/// The significand of a finite number: the number is this times two to the
/// `exponent`, with its sign.
pub open spec fn significand(bits: u64) -> nat {
    let fraction = magnitude(bits) % 0x10_0000_0000_0000;
    if exponent_field(bits) == 0 {
        fraction
    } else {
        fraction + 0x10_0000_0000_0000
    }
}

/// The binary exponent of a finite number.
pub open spec fn exponent(bits: u64) -> int {
    if exponent_field(bits) == 0 {
        -1074
    } else {
        exponent_field(bits) - 1075
    }
}

/// A finite number times two to the 1074, which is a whole number.
pub open spec fn scaled(bits: u64) -> int {
    let size = significand(bits) * pow2((exponent(bits) + 1074) as nat);
    if is_negative(bits) {
        -size
    } else {
        size as int
    }
}

/// The size of a finite number, where that is whole.
pub open spec fn whole_size(bits: u64) -> Option<nat> {
    let e = exponent(bits);
    if e >= 0 {
        Some(significand(bits) * pow2(e as nat))
    } else if significand(bits) % pow2((-e) as nat) == 0 {
        Some(significand(bits) / pow2((-e) as nat))
    } else {
        None
    }
}

/// A finite number, where it is whole.
pub open spec fn whole_value(bits: u64) -> Option<int> {
    match whole_size(bits) {
        Some(n) => Some(
            if is_negative(bits) {
                -n
            } else {
                n as int
            },
        ),
        None => None,
    }
}

/// The sizes of finite numbers grow with their bits.
proof fn lemma_size_grows(a: u64, b: u64)
    requires
        is_finite(a),
        is_finite(b),
        magnitude(a) < magnitude(b),
    ensures
        significand(a) * pow2((exponent(a) + 1074) as nat) < significand(b) * pow2(
            (exponent(b) + 1074) as nat,
        ),
{
    let x = exponent_field(a);
    let y = exponent_field(b);
    let p = pow2((exponent(a) + 1074) as nat);
    let q = pow2((exponent(b) + 1074) as nat);
    let s = significand(a);
    let t = significand(b);
    assert(x <= y);
    vstd::arithmetic::power2::lemma_pow2_pos((exponent(a) + 1074) as nat);
    vstd::arithmetic::power2::lemma_pow2_pos((exponent(b) + 1074) as nat);
    if x == y {
        assert(s < t);
        assert(s * p < t * p) by (nonlinear_arith)
            requires
                s < t,
                p > 0,
        ;
    } else if x == 0 {
        vstd::arithmetic::power2::lemma2_to64();
        assert(pow2(0) == 1);
        assert(p == 1);
        assert(s < 0x10_0000_0000_0000);
        assert(t >= 0x10_0000_0000_0000);
        assert(s * p < t * q) by (nonlinear_arith)
            requires
                s < 0x10_0000_0000_0000,
                t >= 0x10_0000_0000_0000,
                p == 1,
                q > 0,
        ;
    } else {
        let m = (exponent(a) + 1074) as nat;
        let n = (exponent(b) + 1074) as nat;
        assert(m < n);
        vstd::arithmetic::power2::lemma_pow2_unfold(m + 1);
        assert(pow2(m + 1) == 2 * p);
        if m + 1 < n {
            vstd::arithmetic::power2::lemma_pow2_strictly_increases(m + 1, n);
        }
        assert(2 * p <= q);
        assert(s < 0x20_0000_0000_0000);
        assert(t >= 0x10_0000_0000_0000);
        assert(s * p < t * q) by (nonlinear_arith)
            requires
                s < 0x20_0000_0000_0000,
                t >= 0x10_0000_0000_0000,
                2 * p <= q,
                p > 0,
        ;
    }
}

/// Of two finite numbers the smaller has the smaller rank.
pub proof fn law_rank_orders_numbers(a: u64, b: u64)
    requires
        is_finite(a),
        is_finite(b),
    ensures
        rank(a) < rank(b) <==> scaled(a) < scaled(b),
{
    lemma_size_sign(a);
    lemma_size_sign(b);
    if magnitude(a) < magnitude(b) {
        lemma_size_grows(a, b);
    } else if magnitude(b) < magnitude(a) {
        lemma_size_grows(b, a);
    } else {
        assert(exponent_field(a) == exponent_field(b));
        assert(significand(a) == significand(b));
        assert(exponent(a) == exponent(b));
    }
}

/// Only zero has no size.
proof fn lemma_size_sign(bits: u64)
    requires
        is_finite(bits),
    ensures
        significand(bits) * pow2((exponent(bits) + 1074) as nat) >= 0,
        magnitude(bits) == 0 <==> significand(bits) * pow2((exponent(bits) + 1074) as nat) == 0,
{
    let s = significand(bits);
    let p = pow2((exponent(bits) + 1074) as nat);
    vstd::arithmetic::power2::lemma_pow2_pos((exponent(bits) + 1074) as nat);
    assert(s * p >= 0 && (s == 0 <==> s * p == 0)) by (nonlinear_arith)
        requires
            p > 0,
            s >= 0,
    ;
    assert(s == 0 <==> magnitude(bits) == 0);
}

/// Whether the bits are those of a finite number.
pub fn finite(bits: u64) -> (r: bool)
    ensures
        r == is_finite(bits),
{
    bits % 0x8000_0000_0000_0000 < 0x7ff0_0000_0000_0000
}

/// One number is less than another; nothing is less than what is no number, nor
/// is that less than anything.
pub open spec fn less(a: u64, b: u64) -> bool {
    !is_nan(a) && !is_nan(b) && rank(a) < rank(b)
}

/// Whether one number is less than another.
pub fn is_less(a: u64, b: u64) -> (r: bool)
    ensures
        r == less(a, b),
{
    let x: u64 = a % 0x8000_0000_0000_0000;
    let y: u64 = b % 0x8000_0000_0000_0000;
    if x > 0x7ff0_0000_0000_0000 || y > 0x7ff0_0000_0000_0000 {
        return false;
    }
    if a >= 0x8000_0000_0000_0000 {
        if b >= 0x8000_0000_0000_0000 {
            y < x
        } else {
            x > 0 || y > 0
        }
    } else {
        b < 0x8000_0000_0000_0000 && x < y
    }
}

/// Two to a power.
fn power_of_two(n: u64) -> (r: u64)
    requires
        n < 64,
    ensures
        r == pow2(n as nat),
{
    let mut r: u64 = 1;
    let mut i: u64 = 0;
    proof {
        vstd::arithmetic::power2::lemma2_to64();
    }
    while i < n
        invariant
            i <= n < 64,
            r == pow2(i as nat),
        decreases n - i,
    {
        proof {
            vstd::arithmetic::power2::lemma_pow2_unfold((i + 1) as nat);
            vstd::arithmetic::power2::lemma2_to64_rest();
            if i + 1 < 63 {
                vstd::arithmetic::power2::lemma_pow2_strictly_increases((i + 1) as nat, 63);
            }
        }
        r = r * 2;
        i += 1;
    }
    r
}

/// The size of a finite number, where that is whole and at most two to the 63.
fn whole_size_of(bits: u64) -> (r: Option<u64>)
    requires
        is_finite(bits),
    ensures
        match r {
            Some(n) => whole_size(bits) == Some(n as nat) && n <= 0x8000_0000_0000_0000,
            None => match whole_size(bits) {
                Some(n) => n > 0x8000_0000_0000_0000,
                None => true,
            },
        },
{
    let size: u64 = bits % 0x8000_0000_0000_0000;
    let field: u64 = size / 0x10_0000_0000_0000;
    let fraction: u64 = size % 0x10_0000_0000_0000;
    assert(field == exponent_field(bits));
    if field == 0 {
        proof {
            vstd::arithmetic::power2::lemma2_to64();
            vstd::arithmetic::power2::lemma2_to64_rest();
            vstd::arithmetic::power2::lemma_pow2_strictly_increases(63, 1074);
            let p = pow2(1074);
            assert(fraction < p);
            vstd::arithmetic::div_mod::lemma_small_mod(fraction as nat, p);
            vstd::arithmetic::div_mod::lemma_basic_div(fraction as int, p as int);
        }
        return if fraction == 0 {
            Some(0)
        } else {
            None
        };
    }
    let whole: u64 = fraction + 0x10_0000_0000_0000;
    assert(whole == significand(bits));
    if field >= 1075 {
        let shift: u64 = field - 1075;
        assert(exponent(bits) == shift);
        if shift > 11 {
            proof {
                vstd::arithmetic::power2::lemma2_to64();
                vstd::arithmetic::power2::lemma_pow2_strictly_increases(11, shift as nat);
                let p = pow2(shift as nat);
                assert(p > 2048);
                assert(whole * p > 0x8000_0000_0000_0000) by (nonlinear_arith)
                    requires
                        whole >= 0x10_0000_0000_0000,
                        p > 2048,
                ;
            }
            return None;
        }
        let p = power_of_two(shift);
        proof {
            vstd::arithmetic::power2::lemma2_to64();
            if shift < 11 {
                vstd::arithmetic::power2::lemma_pow2_strictly_increases(shift as nat, 11);
            }
            assert(p <= 2048);
            assert(whole * p <= 0x1f_ffff_ffff_ffff * 2048) by (nonlinear_arith)
                requires
                    whole <= 0x1f_ffff_ffff_ffff,
                    p <= 2048,
            ;
        }
        let n: u64 = whole * p;
        if n <= 0x8000_0000_0000_0000 {
            Some(n)
        } else {
            None
        }
    } else {
        let shift: u64 = 1075 - field;
        assert(exponent(bits) == -(shift as int));
        if shift > 52 {
            proof {
                vstd::arithmetic::power2::lemma2_to64_rest();
                if shift > 53 {
                    vstd::arithmetic::power2::lemma_pow2_strictly_increases(53, shift as nat);
                }
                let p = pow2(shift as nat);
                assert(pow2(53) == 0x20_0000_0000_0000);
                assert(whole < p);
                vstd::arithmetic::div_mod::lemma_small_mod(whole as nat, p);
            }
            return None;
        }
        let p = power_of_two(shift);
        proof {
            vstd::arithmetic::power2::lemma_pow2_pos(shift as nat);
        }
        if whole % p == 0 {
            proof {
                vstd::arithmetic::div_mod::lemma_div_is_ordered_by_denominator(
                    whole as int,
                    1,
                    p as int,
                );
            }
            Some(whole / p)
        } else {
            None
        }
    }
}

/// The `i64` nearest to a whole number, for those from the least `i64` to two to
/// the 63.
pub open spec fn nearest_i64(bits: u64) -> Option<int> {
    match whole_value(bits) {
        Some(n) => if -0x8000_0000_0000_0000 <= n < 0x8000_0000_0000_0000 {
            Some(n)
        } else if n == 0x8000_0000_0000_0000 {
            Some(n - 1)
        } else {
            None
        },
        None => None,
    }
}

/// The `i64` nearest to a whole number.
pub fn whole_i64(bits: u64) -> (r: Option<i64>)
    requires
        is_finite(bits),
    ensures
        (match r {
            Some(n) => Some(n as int),
            None => None,
        }) == nearest_i64(bits),
{
    match whole_size_of(bits) {
        None => None,
        Some(n) => if bits >= 0x8000_0000_0000_0000 {
            Some((-(n as i128)) as i64)
        } else if n == 0x8000_0000_0000_0000 {
            Some(i64::MAX)
        } else {
            Some(n as i64)
        },
    }
}

/// A finite measure, with how it is written: as a number in JSON, and as text.
#[derive(Debug)]
pub struct Measure {
    bits: u64,
    written: serde_json::Number,
    text: String,
}

impl Measure {
    #[verifier::type_invariant]
    spec fn is_number(self) -> bool {
        is_finite(self.bits)
    }

    /// The bits of the number.
    pub closed spec fn value(self) -> u64 {
        self.bits
    }

    /// The number in JSON, as the number that it is, and not as a whole one.
    pub closed spec fn number_tree(self) -> JsonTree {
        JsonTree::Number(crate::json::number_text(self.written))
    }

    /// The number as text.
    pub closed spec fn words(self) -> Seq<char> {
        self.text@
    }

    /// A measure, from the bits of a finite number and how it is written.
    pub fn new(bits: u64, written: serde_json::Number, text: String) -> (r: Option<Measure>)
        ensures
            match r {
                Some(measure) => {
                    &&& is_finite(bits)
                    &&& measure.value() == bits
                    &&& measure.number_tree() == JsonTree::Number(
                        crate::json::number_text(written),
                    )
                    &&& measure.words() == text@
                },
                None => !is_finite(bits),
            },
    {
        if finite(bits) {
            Some(Measure { bits, written, text })
        } else {
            None
        }
    }

    /// The bits of the number.
    pub fn bits(&self) -> (r: u64)
        ensures
            r == self.value(),
            is_finite(r),
    {
        proof {
            use_type_invariant(self);
        }
        self.bits
    }

    /// The number as text.
    pub fn text(&self) -> (r: &str)
        ensures
            r@ == self.words(),
    {
        self.text.as_str()
    }

    /// The number in JSON.
    pub fn json(&self) -> (r: Json)
        ensures
            r.tree() == self.number_tree(),
    {
        Json::Number(crate::json::number_copy(&self.written))
    }
}

/// A measure is a whole number exactly where its value is one: then it is that
/// number.
pub proof fn law_whole_value_is_the_number(bits: u64)
    requires
        is_finite(bits),
    ensures
        whole_value(bits) matches Some(n) ==> scaled(bits) == n * pow2(1074),
        whole_value(bits) matches Some(n) ==> (-0x8000_0000_0000_0000 <= n < 0x8000_0000_0000_0000
            ==> nearest_i64(bits) == Some(n)),
        whole_value(bits) is None ==> nearest_i64(bits) is None,
{
    let s = significand(bits);
    let e = exponent(bits);
    let p = pow2((e + 1074) as nat);
    if e >= 0 {
        vstd::arithmetic::power2::lemma_pow2_adds(e as nat, 1074);
        let q = pow2(e as nat);
        let t = pow2(1074);
        assert(s * p == (s * q) * t) by (nonlinear_arith)
            requires
                p == q * t,
        ;
        let n = s * q;
        assert((-(n as int)) * t == -(n * t)) by (nonlinear_arith);
    } else if s % pow2((-e) as nat) == 0 {
        let d = pow2((-e) as nat);
        let t = pow2(1074);
        let n = s / d;
        vstd::arithmetic::power2::lemma_pow2_adds((-e) as nat, (e + 1074) as nat);
        vstd::arithmetic::power2::lemma_pow2_pos((-e) as nat);
        vstd::arithmetic::div_mod::lemma_fundamental_div_mod(s as int, d as int);
        assert(s * p == n * t) by (nonlinear_arith)
            requires
                s == d * n,
                t == d * p,
        ;
        assert((-(n as int)) * t == -(n * t)) by (nonlinear_arith);
    }
}

/// What the bits of a whole number are: those of a power of two hold its exponent,
/// and those of a number between two to the 52 and two to the 53 hold how far it is
/// from the first; the highest bit is the sign.
pub proof fn law_bits_hold_whole_numbers(k: nat, f: nat, bits: u64)
    requires
        k <= 62,
        f < 0x10_0000_0000_0000,
    ensures
        whole_value(((1023 + k) * 0x10_0000_0000_0000) as u64) == Some(pow2(k) as int),
        whole_value((1075 * 0x10_0000_0000_0000 + f) as u64) == Some(
            0x10_0000_0000_0000 + f as int,
        ),
        bits < 0x8000_0000_0000_0000 && whole_value(bits) is Some ==> whole_value(
            (bits + 0x8000_0000_0000_0000) as u64,
        ) == Some(-(whole_value(bits)->Some_0)),
        whole_value(0) == Some(0int),
{
    vstd::arithmetic::power2::lemma2_to64();
    vstd::arithmetic::power2::lemma2_to64_rest();
    let hidden: nat = 0x10_0000_0000_0000;
    let power = ((1023 + k) * 0x10_0000_0000_0000) as u64;
    assert(power == (1023 + k) * 0x10_0000_0000_0000);
    assert(magnitude(power) == power && exponent_field(power) == 1023 + k);
    assert(significand(power) == hidden && exponent(power) == k - 52);
    assert(pow2(52) == hidden);
    if k >= 52 {
        vstd::arithmetic::power2::lemma_pow2_adds(52, (k - 52) as nat);
    } else {
        let d = pow2((52 - k) as nat);
        vstd::arithmetic::power2::lemma_pow2_adds(k, (52 - k) as nat);
        vstd::arithmetic::power2::lemma_pow2_pos((52 - k) as nat);
        vstd::arithmetic::div_mod::lemma_fundamental_div_mod_converse(
            hidden as int,
            d as int,
            pow2(k) as int,
            0,
        );
    }
    let between = (1075 * 0x10_0000_0000_0000 + f) as u64;
    assert(between == 1075 * 0x10_0000_0000_0000 + f);
    assert(exponent_field(between) == 1075 && significand(between) == hidden + f);
    let size = significand(between);
    let one = pow2(0);
    assert(one == 1 && exponent(between) == 0);
    assert(size * one == size) by (nonlinear_arith)
        requires
            one == 1,
    ;
    if bits < 0x8000_0000_0000_0000 {
        let other = (bits + 0x8000_0000_0000_0000) as u64;
        assert(magnitude(other) == magnitude(bits));
    }
    assert(significand(0) == 0);
    vstd::arithmetic::power2::lemma_pow2_pos(1074);
    vstd::arithmetic::div_mod::lemma_small_mod(0, pow2(1074));
    vstd::arithmetic::div_mod::lemma_div_basics(pow2(1074) as int);
}

/// The bits of no number have the highest exponent and a fraction; no number comes
/// before or after them, and zero has no sign in the order.
pub proof fn law_no_number_has_a_place(a: u64, b: u64)
    ensures
        is_finite(a) <==> exponent_field(a) < 2047,
        is_nan(a) <==> exponent_field(a) == 2047 && magnitude(a) % 0x10_0000_0000_0000 != 0,
        is_nan(a) ==> !less(a, b) && !less(b, a),
        is_finite(a) && is_finite(b) ==> (less(a, b) <==> scaled(a) < scaled(b)),
        !less(0, 0x8000_0000_0000_0000) && !less(0x8000_0000_0000_0000, 0),
{
    if is_finite(a) && is_finite(b) {
        law_rank_orders_numbers(a, b);
    }
}

/// The number that is just above the greatest one is taken as the greatest, and
/// what is farther away is none.
pub proof fn law_nearest_is_in_range(bits: u64)
    ensures
        nearest_i64(bits) matches Some(n) ==> i64::MIN <= n <= i64::MAX,
        whole_value(bits) == Some(i64::MAX + 1) ==> nearest_i64(bits) == Some(i64::MAX as int),
        whole_value(bits) matches Some(n) ==> (n > i64::MAX + 1 || n < i64::MIN ==> nearest_i64(
            bits,
        ) is None),
{
}

} // verus!
