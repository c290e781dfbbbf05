use vstd::prelude::*;

verus! {

/// The sign bit of an IEEE-754 double.
pub const SIGN_BIT: u64 = 0x8000_0000_0000_0000;

/// Whether the sign bit of a double's bit pattern is set.
pub open spec fn is_negative_pattern(bits: u64) -> bool {
    bits & SIGN_BIT != 0
}

/// The integer key of a double's bit pattern: negative patterns are
/// complemented, the others get their sign bit set.
pub open spec fn spec_order_key(bits: u64) -> u64 {
    if is_negative_pattern(bits) {
        !bits
    } else {
        bits | SIGN_BIT
    }
}

/// Maps the bit pattern of a double to an unsigned key that orders like the
/// double itself, so that bounding boxes can be sorted with integer keys.
pub fn order_key(bits: u64) -> (r: u64)
    ensures
        r == spec_order_key(bits),
{
    if bits & SIGN_BIT != 0 {
        !bits
    } else {
        bits | SIGN_BIT
    }
}

/// The magnitude bits (exponent and fraction) of a double's bit pattern.
pub open spec fn magnitude(bits: u64) -> u64 {
    bits & !SIGN_BIT
}

/// How IEEE-754 orders two doubles that are not NaN, read off their bit
/// patterns: among non-negative ones a larger magnitude is larger, among
/// negative ones it is smaller, and every negative one is smaller than every
/// non-negative one except that -0 equals +0.
pub open spec fn pattern_less(a: u64, b: u64) -> bool {
    if !is_negative_pattern(a) && !is_negative_pattern(b) {
        magnitude(a) < magnitude(b)
    } else if is_negative_pattern(a) && is_negative_pattern(b) {
        magnitude(a) > magnitude(b)
    } else if is_negative_pattern(a) {
        !(magnitude(a) == 0 && magnitude(b) == 0)
    } else {
        false
    }
}

/// Order keys keep the order of the doubles: a smaller double gets a smaller
/// key, a smaller key never belongs to a larger double, and distinct patterns
/// get distinct keys.
pub proof fn lemma_order_key_keeps_order(a: u64, b: u64)
    ensures
        pattern_less(a, b) ==> spec_order_key(a) < spec_order_key(b),
        spec_order_key(a) < spec_order_key(b) ==> !pattern_less(b, a),
        spec_order_key(a) == spec_order_key(b) ==> a == b,
{
    assert(pattern_less(a, b) ==> spec_order_key(a) < spec_order_key(b)) by (bit_vector);
    assert(spec_order_key(a) < spec_order_key(b) ==> !pattern_less(b, a)) by (bit_vector);
    assert(spec_order_key(a) == spec_order_key(b) ==> a == b) by (bit_vector);
}

} // verus!
