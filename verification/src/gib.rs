//! The amount of a request: a binary64 number of GiB, taken as its 64 bits.
//!
//! A binary64 number is a sign bit, an eleven-bit exponent field and a
//! fifty-two-bit fraction field. Its value is read here as an integer
//! significand times a power of two, so every rule on it is integer arithmetic.

use vstd::arithmetic::power2::*;
use vstd::bits::*;
use vstd::prelude::*;

verus! {

/// The most GiB that one request may ask for.
///
/// The limit guards the process. With overcommit an oversized reservation may
/// succeed on paper and have the process killed while its pages are written.
pub const MAX_GIB: u64 = 6;

/// The number of bytes in one GiB.
pub const GIB: u64 = 1_073_741_824;

/// The power of two that `GIB` is.
pub const GIB_POWER: u64 = 30;

/// The number of values of the fraction field.
const FRACTION_SPAN: u64 = 0x10_0000_0000_0000;

/// The number of values of the exponent field.
const EXPONENT_SPAN: u64 = 2048;

/// The exponent field of the infinities and of every not-a-number.
const EXPONENT_SPECIAL: u64 = 2047;

/// The lowest pattern with the sign bit set.
const SIGN_SPAN: u64 = 0x8000_0000_0000_0000;

/// The exponent field of the numbers from 4 up to, but without, 8.
const EXPONENT_OF_FOUR: u64 = 1025;

/// What one whole GiB adds to the significand of a number in that range.
const UNIT_AT_FOUR: u64 = 0x4_0000_0000_0000;

/// The exponent field at which one unit of the significand is one byte.
const WHOLE_BYTES_FIELD: u64 = 1045;

/// Whether the sign bit is set.
pub open spec fn sign_bit(bits: u64) -> bool {
    bits >= 0x8000_0000_0000_0000
}

/// The eleven-bit exponent field.
pub open spec fn exponent_field(bits: u64) -> nat {
    ((bits / 0x10_0000_0000_0000) % 2048) as nat
}

/// The fifty-two-bit fraction field.
pub open spec fn fraction_field(bits: u64) -> nat {
    (bits % 0x10_0000_0000_0000) as nat
}

/// Whether the pattern is a number, neither infinite nor not-a-number.
pub open spec fn is_finite(bits: u64) -> bool {
    exponent_field(bits) != 2047
}

/// The integer significand of a finite number.
pub open spec fn significand(bits: u64) -> nat {
    if exponent_field(bits) == 0 {
        fraction_field(bits)
    } else {
        fraction_field(bits) + 0x10_0000_0000_0000
    }
}

/// The power of two that scales the significand of a finite number: its
/// magnitude is `significand(bits)` times two to the power `scale(bits)`.
pub open spec fn scale(bits: u64) -> int {
    if exponent_field(bits) == 0 {
        -1074
    } else {
        exponent_field(bits) - 1075
    }
}

/// Whether a finite number is below zero. Negative zero is not.
pub open spec fn is_negative(bits: u64) -> bool {
    sign_bit(bits) && significand(bits) > 0
}

/// Whether the magnitude of a finite number is at most `n`.
pub open spec fn at_most(bits: u64, n: nat) -> bool {
    if scale(bits) >= 0 {
        significand(bits) * pow2(scale(bits) as nat) <= n
    } else {
        significand(bits) <= n * pow2((-scale(bits)) as nat)
    }
}

/// The whole part of `m` times two to the power `e`.
pub open spec fn scaled_floor(m: nat, e: int) -> nat {
    if e >= 0 {
        m * pow2(e as nat)
    } else {
        m / pow2((-e) as nat)
    }
}

/// Whether a request for this many GiB is taken: a finite number from 0 to
/// `MAX_GIB`, both included.
pub open spec fn is_acceptable(bits: u64) -> bool {
    is_finite(bits) && !is_negative(bits) && at_most(bits, MAX_GIB as nat)
}

/// The bytes that a request for this many GiB stands for: the whole part of
/// the number times `GIB`.
pub open spec fn bytes_of(bits: u64) -> nat {
    scaled_floor(significand(bits), scale(bits) + GIB_POWER)
}

/// A number of 8 or more is past the limit.
proof fn lemma_eight_or_more(bits: u64)
    requires
        EXPONENT_OF_FOUR < exponent_field(bits) < EXPONENT_SPECIAL,
    ensures
        !at_most(bits, MAX_GIB as nat),
{
    let m = significand(bits);
    let e = scale(bits);
    lemma2_to64();
    lemma2_to64_rest();
    if e >= 0 {
        lemma_pow2_pos(e as nat);
        assert(m * pow2(e as nat) >= m) by (nonlinear_arith)
            requires
                pow2(e as nat) >= 1,
        ;
    } else if e > -49 {
        lemma_pow2_strictly_increases((-e) as nat, 49);
    }
}

/// A number below 4 is within the limit.
proof fn lemma_below_four(bits: u64)
    requires
        exponent_field(bits) < EXPONENT_OF_FOUR,
    ensures
        at_most(bits, MAX_GIB as nat),
{
    let e = scale(bits);
    lemma2_to64_rest();
    if e < -51 {
        lemma_pow2_strictly_increases(51, (-e) as nat);
    }
}

/// The bytes of an accepted request are a shift of its significand.
proof fn lemma_bytes_as_quotient(bits: u64)
    requires
        is_acceptable(bits),
    ensures
        scale(bits) <= -50,
        bytes_of(bits) == significand(bits) / pow2((-(scale(bits) + GIB_POWER)) as nat),
{
    if exponent_field(bits) > EXPONENT_OF_FOUR {
        lemma_eight_or_more(bits);
    }
}

/// No accepted request stands for more than `MAX_GIB` GiB.
pub proof fn law_bytes_within_limit(bits: u64)
    requires
        is_acceptable(bits),
    ensures
        bytes_of(bits) <= MAX_GIB * GIB,
{
    lemma_bytes_as_quotient(bits);
    let m = significand(bits);
    let k = (-(scale(bits) + GIB_POWER)) as nat;
    let d = pow2(k);
    lemma2_to64();
    lemma_pow2_pos(k);
    lemma_pow2_adds(GIB_POWER as nat, k);
    assert(GIB_POWER + k == -scale(bits));
    assert(m / d <= MAX_GIB * GIB) by (nonlinear_arith)
        requires
            d > 0,
            m <= MAX_GIB * (GIB * d),
    ;
}

/// An accepted request stands for the whole bytes in it: the number times
/// `GIB` lies at or above the bytes and less than one byte above them. Both
/// sides are scaled by the same power of two to stay in whole numbers.
pub proof fn law_bytes_are_whole_part(bits: u64)
    requires
        is_acceptable(bits),
    ensures
        scale(bits) + GIB_POWER < 0,
        bytes_of(bits) * pow2((-(scale(bits) + GIB_POWER)) as nat) <= significand(bits),
        significand(bits) < (bytes_of(bits) + 1) * pow2((-(scale(bits) + GIB_POWER)) as nat),
{
    lemma_bytes_as_quotient(bits);
    let m = significand(bits);
    let k = (-(scale(bits) + GIB_POWER)) as nat;
    let d = pow2(k);
    lemma_pow2_pos(k);
    assert((m / d) * d <= m < (m / d + 1) * d) by (nonlinear_arith)
        requires
            d > 0,
    ;
}

/// The patterns that read as numbers but are none, the infinities and every
/// not-a-number, are refused.
pub proof fn law_special_is_refused(bits: u64)
    requires
        exponent_field(bits) == 2047,
    ensures
        !is_acceptable(bits),
{
}

/// Zero of either sign is accepted and stands for no bytes.
pub proof fn law_zero_is_release(bits: u64)
    requires
        exponent_field(bits) == 0,
        fraction_field(bits) == 0,
    ensures
        is_acceptable(bits),
        bytes_of(bits) == 0,
{
    lemma_below_four(bits);
    lemma_pow2_pos((-(scale(bits) + GIB_POWER)) as nat);
    vstd::arithmetic::div_mod::lemma_basic_div(0, pow2((-(scale(bits) + GIB_POWER)) as nat) as int);
}

/// A pattern is its sign, exponent and fraction side by side.
proof fn lemma_fields(bits: u64)
    ensures
        exponent_field(bits) < EXPONENT_SPAN,
        fraction_field(bits) < FRACTION_SPAN,
        bits == (if sign_bit(bits) { SIGN_SPAN as int } else { 0 }) + exponent_field(bits)
            * FRACTION_SPAN + fraction_field(bits),
{
    let q = bits / FRACTION_SPAN;
    assert(bits == q * FRACTION_SPAN + bits % FRACTION_SPAN);
    assert(q < 4096);
}

/// The patterns that are accepted are those from that of 0 to that of 6, and that of
/// negative 0. In particular no other pattern with the sign bit is.
pub proof fn law_accepted_patterns(bits: u64)
    ensures
        is_acceptable(bits) <==> bits <= 0x4018_0000_0000_0000 || bits == 0x8000_0000_0000_0000,
{
    lemma_fields(bits);
    let e = exponent_field(bits);
    lemma2_to64_rest();
    if e < EXPONENT_OF_FOUR {
        lemma_below_four(bits);
    } else if EXPONENT_OF_FOUR < e && e < EXPONENT_SPECIAL {
        lemma_eight_or_more(bits);
    }
}

/// An accepted pattern without the sign bit stands for at least `c` bytes exactly
/// where it is at or above the pattern of `c` bytes, which for a `c` from two to the
/// power `p` up to twice that has the exponent field `993 + p`.
#[verifier::spinoff_prover]
proof fn lemma_at_least(bits: u64, c: nat, p: nat)
    requires
        is_acceptable(bits),
        !sign_bit(bits),
        p <= 52,
        pow2(p) <= c < pow2(p + 1),
    ensures
        c <= bytes_of(bits) <==> (993 + p) * 0x10_0000_0000_0000 + (c - pow2(p)) * pow2(
            (52 - p) as nat,
        ) <= bits,
{
    lemma_fields(bits);
    lemma_bytes_as_quotient(bits);
    let e = exponent_field(bits);
    let m = significand(bits);
    let k = (-(scale(bits) + GIB_POWER)) as nat;
    let d = pow2(k);
    let low = pow2(p);
    let rest = pow2((52 - p) as nat);
    lemma_pow2_pos(k);
    lemma_pow2_pos((52 - p) as nat);
    lemma_pow2_adds(p, (52 - p) as nat);
    lemma_pow2_unfold(p + 1);
    lemma2_to64_rest();
    assert(low * rest == FRACTION_SPAN);
    assert(c <= m / d <==> c * d <= m) by (nonlinear_arith)
        requires
            d > 0,
    ;
    assert((c - low) * rest == c * rest - low * rest) by (nonlinear_arith);
    assert((c - low) * rest < low * rest) by (nonlinear_arith)
        requires
            0 <= c - low < low,
            rest > 0,
    ;
    assert((c - low) * rest >= 0) by (nonlinear_arith)
        requires
            c >= low,
            rest >= 0,
    ;
    if e == 993 + p {
        assert(k == 52 - p);
    } else if e > 993 + p {
        assert(k < 52 - p);
        lemma_pow2_strictly_increases(k, (52 - p) as nat);
        lemma_pow2_unfold((k + 1) as nat);
        if k + 1 < 52 - p {
            lemma_pow2_strictly_increases((k + 1) as nat, (52 - p) as nat);
        }
        assert(c * d < low * rest) by (nonlinear_arith)
            requires
                c < 2 * low,
                2 * d <= rest,
                d > 0,
        ;
    } else {
        assert(k > 52 - p);
        lemma_pow2_unfold((53 - p) as nat);
        if k > 53 - p {
            lemma_pow2_strictly_increases((53 - p) as nat, k);
        }
        assert(c * d >= 2 * (low * rest)) by (nonlinear_arith)
            requires
                c >= low,
                d >= 2 * rest,
        ;
    }
}

/// What a request stands for counts up along the patterns. Where a pattern without
/// the sign bit is accepted, it stands for at least `c` bytes exactly where it is at
/// or above the pattern of `c` bytes: for a `c` from two to the power `p` up to twice
/// that, the one with the exponent field `993 + p` and the fraction field of
/// `c / pow2(p)`.
pub proof fn law_bytes_count_up(bits: u64, bytes: u64, c: nat, p: nat)
    requires
        call_ensures(requested_bytes, (bits,), Some(bytes)),
        bits < 0x8000_0000_0000_0000,
        p <= 52,
        pow2(p) <= c < pow2(p + 1),
    ensures
        c <= bytes <==> (993 + p) * 0x10_0000_0000_0000 + (c - pow2(p)) * pow2((52 - p) as nat)
            <= bits,
{
    lemma_at_least(bits, c, p);
}

/// Each number of bytes from 1 to 6 GiB can be asked for: its own pattern stands for
/// exactly that many.
#[verifier::spinoff_prover]
pub proof fn law_each_size_has_its_pattern(bits: u64, bytes: Option<u64>, c: nat, p: nat)
    requires
        call_ensures(requested_bytes, (bits,), bytes),
        pow2(p) <= c < pow2(p + 1),
        c <= 6 * 1_073_741_824,
        bits == (993 + p) * 0x10_0000_0000_0000 + (c - pow2(p)) * pow2((52 - p) as nat),
    ensures
        bytes == Some(c as u64),
{
    lemma2_to64();
    lemma2_to64_rest();
    if p > 32 {
        lemma_pow2_strictly_increases(32, p);
        if p > 33 {
            lemma_pow2_strictly_increases(33, p);
        }
    }
    let low = pow2(p);
    let rest = pow2((52 - p) as nat);
    lemma_pow2_adds(p, (52 - p) as nat);
    lemma_pow2_unfold(p + 1);
    lemma_pow2_unfold(p + 2);
    lemma_pow2_pos((52 - p) as nat);
    lemma_pow2_pos((51 - p) as nat);
    assert((c - low) * rest == c * rest - low * rest) by (nonlinear_arith);
    assert((c + 1 - low) * rest == c * rest - low * rest + rest) by (nonlinear_arith);
    assert((c - low) * rest <= low * rest - rest) by (nonlinear_arith)
        requires
            c - low <= low - 1,
            rest >= 0,
    ;
    assert((c - low) * rest >= 0) by (nonlinear_arith)
        requires
            c >= low,
            rest >= 0,
    ;
    if p == 32 {
        assert((c - low) * rest <= 0x8000_0000 * 0x10_0000) by (nonlinear_arith)
            requires
                0 <= c - low <= 0x8000_0000,
                rest == 0x10_0000,
        ;
    }
    assert(low * rest == FRACTION_SPAN);
    law_accepted_patterns(bits);
    assert(bits <= 0x4018_0000_0000_0000);
    lemma_at_least(bits, c, p);
    if c + 1 < pow2(p + 1) {
        lemma_at_least(bits, c + 1, p);
    } else {
        let over = c + 1 - pow2(p + 1);
        let unit = pow2((51 - p) as nat);
        assert(over * unit == 0) by (nonlinear_arith)
            requires
                over == 0,
        ;
        lemma_at_least(bits, c + 1, p + 1);
    }
}

/// The power of two that a positive number lies at or above, and below the double of.
proof fn lemma_has_power(c: nat) -> (p: nat)
    requires
        c > 0,
    ensures
        pow2(p) <= c < pow2(p + 1),
    decreases c,
{
    lemma2_to64();
    if c == 1 {
        0
    } else {
        let q = lemma_has_power(c / 2);
        lemma_pow2_unfold(q + 1);
        lemma_pow2_unfold(q + 2);
        q + 1
    }
}

/// A request that is refused has no bytes, one of either zero has 0, and of two that
/// are accepted the one with the higher pattern stands for no fewer bytes.
#[verifier::spinoff_prover]
pub proof fn law_more_gib_is_no_fewer_bytes(
    bits: u64,
    bytes: Option<u64>,
    higher: u64,
    more: Option<u64>,
)
    requires
        call_ensures(requested_bytes, (bits,), bytes),
        call_ensures(requested_bytes, (higher,), more),
        bits <= higher,
    ensures
        bytes is Some <==> bits <= 0x4018_0000_0000_0000 || bits == 0x8000_0000_0000_0000,
        bits == 0 || bits == 0x8000_0000_0000_0000 ==> bytes == Some(0u64),
        higher <= 0x4018_0000_0000_0000 ==> bytes is Some && more is Some && bytes->Some_0
            <= more->Some_0,
{
    law_accepted_patterns(bits);
    law_accepted_patterns(higher);
    lemma_fields(bits);
    if bits == 0 || bits == 0x8000_0000_0000_0000 {
        law_zero_is_release(bits);
    }
    if higher <= 0x4018_0000_0000_0000 && bytes_of(bits) > 0 {
        let c = bytes_of(bits);
        law_bytes_within_limit(bits);
        let p = lemma_has_power(c);
        lemma2_to64();
        lemma2_to64_rest();
        if p > 52 {
            lemma_pow2_strictly_increases(52, p);
        }
        lemma_at_least(bits, c, p);
        lemma_at_least(higher, c, p);
    }
}

/// The bytes that a request for this many GiB stands for, or `None` where the
/// request is refused.
pub fn requested_bytes(bits: u64) -> (bytes: Option<u64>)
    ensures
        bytes is Some <==> is_acceptable(bits),
        bytes is Some <==> bits <= 0x4018_0000_0000_0000 || bits == 0x8000_0000_0000_0000,
        bytes matches Some(n) ==> n == bytes_of(bits) && n <= MAX_GIB * GIB,
{
    proof {
        law_accepted_patterns(bits);
    }
    let exponent: u64 = (bits / FRACTION_SPAN) % EXPONENT_SPAN;
    let fraction: u64 = bits % FRACTION_SPAN;
    if exponent == EXPONENT_SPECIAL {
        return None;
    }
    let m: u64 = if exponent == 0 { fraction } else { fraction + FRACTION_SPAN };
    if bits >= SIGN_SPAN && m > 0 {
        return None;
    }
    if exponent > EXPONENT_OF_FOUR {
        proof {
            lemma_eight_or_more(bits);
        }
        return None;
    }
    proof {
        lemma2_to64_rest();
    }
    if exponent == EXPONENT_OF_FOUR && m > MAX_GIB * UNIT_AT_FOUR {
        return None;
    }
    proof {
        if exponent < EXPONENT_OF_FOUR {
            lemma_below_four(bits);
        }
        lemma_bytes_as_quotient(bits);
        law_bytes_within_limit(bits);
    }
    let field: u64 = if exponent == 0 { 1 } else { exponent };
    let places: u64 = WHOLE_BYTES_FIELD - field;
    if places < 64 {
        proof {
            lemma_u64_shr_is_div(m, places);
        }
        Some(m >> places)
    } else {
        proof {
            lemma_pow2_strictly_increases(53, places as nat);
            vstd::arithmetic::div_mod::lemma_basic_div(m as int, pow2(places as nat) as int);
        }
        Some(0)
    }
}

} // verus!
