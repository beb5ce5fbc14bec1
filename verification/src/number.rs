//! Double-precision numbers as plain integers: a number is its IEEE-754 bit
//! pattern, from which its order and its integral value are read, together
//! with the text of its shortest decimal form.

use vstd::arithmetic::power2::*;
use vstd::prelude::*;
use vstd::string::StringExecFns;

use crate::order::Order;
use crate::text::{decimal, push_decimal};

verus! {

/// Weight of the sign bit.
pub const SIGN: u64 = 0x8000_0000_0000_0000;

/// Weight of the lowest exponent bit, which is also the weight of the implicit
/// leading bit of a significand.
pub const HIDDEN_BIT: u64 = 0x0010_0000_0000_0000;

/// The magnitude of the infinities; a greater one is not a number.
pub const INFINITE: u64 = 0x7ff0_0000_0000_0000;

/// Numbers of this magnitude and above are not shown as whole numbers.
pub const WHOLE_LIMIT: u64 = 1_000_000_000_000_000;

/// A double-precision number: its bit pattern and the text of its shortest
/// decimal form.
#[derive(Debug)]
pub struct Number {
    pub bits: u64,
    pub text: String,
}

/// The bit pattern without its sign.
pub open spec fn magnitude(bits: u64) -> int {
    bits as int % SIGN as int
}

/// Does the pattern carry a minus sign?
pub open spec fn is_negative(bits: u64) -> bool {
    bits >= SIGN
}

/// Is the pattern one of those that stand for no number?
pub open spec fn is_nan(bits: u64) -> bool {
    magnitude(bits) > INFINITE
}

/// The position of a pattern in the order of the numbers. Both zeros share
/// position 0.
pub open spec fn rank(bits: u64) -> int {
    if is_negative(bits) {
        -magnitude(bits)
    } else {
        magnitude(bits)
    }
}

/// The order of two numbers; a pattern that stands for no number counts as
/// equal to everything.
pub open spec fn number_order(a: u64, b: u64) -> Order {
    if is_nan(a) || is_nan(b) {
        Order::Same
    } else {
        Order::of(rank(a), rank(b))
    }
}

/// The biased exponent of a pattern.
pub open spec fn exponent(bits: u64) -> int {
    magnitude(bits) / HIDDEN_BIT as int
}

/// The integral significand of a pattern, leading bit included.
pub open spec fn significand(bits: u64) -> int {
    let fraction = magnitude(bits) % HIDDEN_BIT as int;
    if exponent(bits) == 0 {
        fraction
    } else {
        HIDDEN_BIT + fraction
    }
}

/// The weight of the significand's lowest bit is 2 to the power of `scale`
/// minus 1075.
pub open spec fn scale(bits: u64) -> int {
    if exponent(bits) == 0 {
        1
    } else {
        exponent(bits)
    }
}

/// Is the pattern that of a finite number whose absolute value is exactly `m`?
pub open spec fn is_whole(bits: u64, m: nat) -> bool {
    &&& exponent(bits) < 2047
    &&& if scale(bits) >= 1075 {
        m == significand(bits) * pow2((scale(bits) - 1075) as nat)
    } else {
        m * pow2((1075 - scale(bits)) as nat) == significand(bits)
    }
}

/// Is the pattern that of a whole number of absolute value `m` that is small
/// enough to be shown without a fraction or an exponent?
pub open spec fn is_short_whole(bits: u64, m: nat) -> bool {
    is_whole(bits, m) && m < WHOLE_LIMIT
}

/// The text that shows a number: a short whole number in plain digits, any
/// other by its shortest decimal form.
pub open spec fn number_text(n: Number) -> Seq<char> {
    if exists|m: nat| is_short_whole(n.bits, m) {
        let m = choose|m: nat| is_short_whole(n.bits, m);
        if is_negative(n.bits) && m > 0 {
            "-"@ + decimal(m)
        } else {
            decimal(m)
        }
    } else {
        n.text@
    }
}

/// A pattern has at most one whole value.
proof fn lemma_whole_unique(bits: u64, a: nat, b: nat)
    requires
        is_whole(bits, a),
        is_whole(bits, b),
    ensures
        a == b,
{
    if scale(bits) < 1075 {
        let d = pow2((1075 - scale(bits)) as nat);
        lemma_pow2_pos((1075 - scale(bits)) as nat);
        assert(a == b) by (nonlinear_arith)
            requires
                a * d == b * d,
                d > 0,
        ;
    }
}

/// Two to the power of `e`.
fn power_of_two(e: u64) -> (r: u64)
    requires
        e <= 52,
    ensures
        r == pow2(e as nat),
        r <= HIDDEN_BIT,
    decreases e,
{
    proof {
        lemma2_to64();
        lemma2_to64_rest();
        if e < 52 {
            lemma_pow2_strictly_increases(e as nat, 52);
        }
    }
    if e == 0 {
        1
    } else {
        proof {
            lemma_pow2_unfold(e as nat);
        }
        let half: u64 = power_of_two(e - 1);
        2 * half
    }
}

/// The absolute value of a short whole number, `None` of any other pattern.
pub fn short_whole(bits: u64) -> (r: Option<u64>)
    ensures
        (match r {
            Some(m) => is_short_whole(bits, m as nat),
            None => forall|m: nat| !is_short_whole(bits, m),
        }),
{
    let mag: u64 = bits % SIGN;
    let exp: u64 = mag / HIDDEN_BIT;
    let fraction: u64 = mag % HIDDEN_BIT;
    proof {
        lemma2_to64();
        lemma2_to64_rest();
    }
    if exp == 0 {
        if fraction == 0 {
            assert(is_whole(bits, 0)) by {
                assert(0 * pow2(1074) == 0);
            }
            return Some(0);
        }
        assert forall|m: nat| !is_short_whole(bits, m) by {
            if is_whole(bits, m) {
                lemma_pow2_strictly_increases(52, 1074);
                let d = pow2(1074);
                assert(m == 0 || m * d >= d) by (nonlinear_arith)
                    requires
                        d > 0,
                ;
                assert(m != 0 || m * d == 0);
            }
        }
        return None;
    }
    let sig: u64 = HIDDEN_BIT + fraction;
    if exp < 1023 {
        assert forall|m: nat| !is_short_whole(bits, m) by {
            if is_whole(bits, m) {
                let d = pow2((1075 - exp) as nat);
                lemma_pow2_strictly_increases(52, (1075 - exp) as nat);
                lemma_pow2_unfold(53);
                if exp < 1022 {
                    lemma_pow2_strictly_increases(53, (1075 - exp) as nat);
                }
                assert(m == 0 || m * d >= d) by (nonlinear_arith)
                    requires
                        d > 0,
                ;
                assert(m != 0 || m * d == 0);
            }
        }
        return None;
    }
    if exp > 1072 {
        assert forall|m: nat| !is_short_whole(bits, m) by {
            if is_whole(bits, m) {
                if exp >= 1075 {
                    let d = pow2((exp - 1075) as nat);
                    lemma_pow2_pos((exp - 1075) as nat);
                    assert(m == sig * d);
                    assert(sig * d >= sig) by (nonlinear_arith)
                        requires
                            d >= 1,
                            sig >= 0,
                    ;
                } else if exp == 1074 {
                    assert(m * pow2(1) == sig);
                } else {
                    assert(m * pow2(2) == sig);
                }
                assert(m >= WHOLE_LIMIT);
            }
        }
        return None;
    }
    let d: u64 = power_of_two(1075 - exp);
    let m: u64 = sig / d;
    proof {
        lemma_pow2_pos((1075 - exp) as nat);
        assert forall|k: nat| is_whole(bits, k) implies k == m && sig % d == 0 by {
            vstd::arithmetic::div_mod::lemma_fundamental_div_mod_converse(
                sig as int,
                d as int,
                k as int,
                0,
            );
        }
        vstd::arithmetic::div_mod::lemma_fundamental_div_mod(sig as int, d as int);
        assert(m * d == d * m) by (nonlinear_arith);
    }
    if sig % d == 0 && m < WHOLE_LIMIT {
        assert(is_whole(bits, m as nat));
        Some(m)
    } else {
        None
    }
}

/// The text that shows `n`: `42` rather than `42.0`, and the shortest decimal
/// form of what is no short whole number.
pub fn format_number(n: &Number) -> (r: String)
    ensures
        r@ == number_text(*n),
{
    match short_whole(n.bits) {
        Some(m) => {
            assert(is_short_whole(n.bits, m as nat));
            proof {
                lemma_whole_unique(
                    n.bits,
                    m as nat,
                    choose|k: nat| is_short_whole(n.bits, k),
                );
            }
            let mut out = String::new();
            if n.bits >= SIGN && m > 0 {
                out.append("-");
            }
            push_decimal(&mut out, m);
            assert(out@ =~= number_text(*n));
            out
        },
        None => n.text.clone(),
    }
}

/// The order of two numbers given by their bit patterns.
pub fn compare_numbers(a: u64, b: u64) -> (r: Order)
    ensures
        r == number_order(a, b),
{
    let ma: u64 = a % SIGN;
    let mb: u64 = b % SIGN;
    if ma > INFINITE || mb > INFINITE {
        Order::Same
    } else if a >= SIGN {
        if b >= SIGN {
            if ma > mb {
                Order::Before
            } else if ma < mb {
                Order::After
            } else {
                Order::Same
            }
        } else if ma == 0 && mb == 0 {
            Order::Same
        } else {
            Order::Before
        }
    } else if b >= SIGN {
        if ma == 0 && mb == 0 {
            Order::Same
        } else {
            Order::After
        }
    } else if ma < mb {
        Order::Before
    } else if ma > mb {
        Order::After
    } else {
        Order::Same
    }
}

impl Clone for Number {
    fn clone(&self) -> (r: Self)
        ensures
            r == *self,
    {
        Number { bits: self.bits, text: self.text.clone() }
    }
}

/// Two numbers are equal when neither is greater; a pattern that stands for no
/// number equals nothing, itself included.
impl PartialEq for Number {
    fn eq(&self, other: &Self) -> (r: bool) {
        let ma: u64 = self.bits % SIGN;
        let mb: u64 = other.bits % SIGN;
        ma <= INFINITE && mb <= INFINITE && ma == mb && (ma == 0 || (self.bits >= SIGN) == (
        other.bits >= SIGN))
    }
}

impl vstd::std_specs::cmp::PartialEqSpecImpl for Number {
    open spec fn obeys_eq_spec() -> bool {
        true
    }

    open spec fn eq_spec(&self, other: &Self) -> bool {
        !is_nan(self.bits) && !is_nan(other.bits) && rank(self.bits) == rank(other.bits)
    }
}

} // verus!
