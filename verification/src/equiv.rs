//! `=` and `hash` on scalar host values, by category. Booleans, integers,
//! floats, ratios and decimals are distinct categories that never compare
//! equal to one another, and each category hashes in its own way, so that
//! `(= 1 1.0)` and `(= 1 true)` are false and `1`, `1.0` and `true` do not
//! share a hash.

use vstd::prelude::*;
use crate::murmur3::{hash_long, spec_hash_long};

verus! {

/// The equality category of a scalar host value.
#[derive(Clone, Copy, Debug, PartialEq, Eq, Structural)]
pub enum Category {
    Bool,
    Int,
    Float,
    Ratio,
    Decimal,
}

/// Whether a value of category `target` can equal a value of category
/// `other` (`None`: a value of no scalar category). Where it can, host
/// equality decides; where it cannot, the answer is `false`. A boolean only
/// ever equals a boolean; any other category equals its own category and
/// leaves values of no category to host equality.
pub open spec fn spec_equiv_defers(target: Category, other: Option<Category>) -> bool {
    match other {
        Some(c) => c == target,
        None => target != Category::Bool,
    }
}

/// Whether host equality is consulted when a `target` value is compared
/// with an `other` value; `false` means the two are not equal.
pub fn equiv_defers(target: Category, other: Option<Category>) -> (r: bool)
    ensures
        r == spec_equiv_defers(target, other),
{
    match other {
        Some(c) => c == target,
        None => match target {
            Category::Bool => false,
            _ => true,
        },
    }
}

/// The answer of `=` for a `target` value against an `other` value, given
/// what host equality says of the pair (`host_eq`, only looked at where the
/// categories let host equality decide).
pub fn equiv_result(target: Category, other: Option<Category>, host_eq: bool) -> (r: bool)
    ensures
        r == (spec_equiv_defers(target, other) && host_eq),
{
    equiv_defers(target, other) && host_eq
}

/// Characters equal characters with the same code point and nothing else.
pub fn char_equiv(code_point: u32, other: Option<u32>) -> (r: bool)
    ensures
        r == (other == Some(code_point)),
{
    match other {
        Some(c) => c == code_point,
        None => false,
    }
}

/// Between two categorized values the rule is symmetric, and host equality
/// is consulted exactly when both are of the same category.
pub proof fn law_equiv_symmetric(a: Category, b: Category)
    ensures
        spec_equiv_defers(a, Some(b)) == spec_equiv_defers(b, Some(a)),
        spec_equiv_defers(a, Some(b)) <==> a == b,
{
}

/// Values of different categories are never equal, whatever host equality
/// says of them.
pub proof fn law_categories_never_cross(a: Category, b: Category, host_eq: bool)
    requires
        a != b,
    ensures
        !(spec_equiv_defers(a, Some(b)) && host_eq),
{
}

/// `(hash true)` is 1231 and `(hash false)` is 1237.
pub fn hash_bool(b: bool) -> (r: i64)
    ensures
        r == if b { 1231int } else { 1237int },
{
    if b { 1231 } else { 1237 }
}

/// The hash of an integer: Murmur3 of the value where it fits in 64 bits
/// (`small`), else the host's own hash of it, cut to 32 bits.
pub fn hash_integer(small: Option<i64>, host_hash: i64) -> (r: i64)
    ensures
        r == match small {
            Some(v) => spec_hash_long(v) as int,
            None => (host_hash as i32) as int,
        },
{
    match small {
        Some(v) => hash_long(v) as i64,
        None => (host_hash as i32) as i64,
    }
}

/// The bit pattern of the float `-0.0`.
pub const NEG_ZERO_BITS: u64 = 0x8000_0000_0000_0000u64;

/// The hash of a float given by its IEEE-754 bit pattern: the two 32-bit
/// halves exclusive-or'ed, read as a signed 32-bit number, with `-0.0`
/// hashed as `0.0`.
pub open spec fn spec_hash_double_bits(bits: u64) -> i32 {
    let b: u64 = if bits == NEG_ZERO_BITS { 0u64 } else { bits };
    ((b ^ (b >> 32u64)) as u32) as i32
}

/// The hash of a float given by its bit pattern.
pub fn hash_double_bits(bits: u64) -> (r: i64)
    ensures
        r == spec_hash_double_bits(bits) as int,
{
    let b: u64 = if bits == NEG_ZERO_BITS { 0 } else { bits };
    ((b ^ (b >> 32u64)) as u32) as i32 as i64
}

/// The hash of a character is its code point.
pub fn hash_char(code_point: u32) -> (r: i64)
    ensures
        r == code_point as int,
{
    code_point as i64
}

/// `0.0` and `-0.0` hash alike.
pub proof fn law_zero_hashes_alike()
    ensures
        spec_hash_double_bits(NEG_ZERO_BITS) == spec_hash_double_bits(0u64),
{
}

/// Every float but `-0.0` hashes to its low 32-bit word exclusive-or'ed
/// with its high 32-bit word, read as a 32-bit pattern.
pub proof fn law_hash_double_is_xor_of_words(bits: u64)
    requires
        bits != NEG_ZERO_BITS,
    ensures
        spec_hash_double_bits(bits) as u32 == (bits as u32) ^ ((bits >> 32u64) as u32),
{
    let b: u64 = bits;
    assert((((b ^ (b >> 32u64)) as u32) as i32) as u32 == (b as u32) ^ ((b >> 32u64) as u32))
        by (bit_vector);
}

/// Two floats (neither `-0.0`) with the same high word but different low
/// words hash differently: the low 32 bits count in the hash.
pub proof fn law_hash_double_low_word_counts(a: u64, b: u64)
    requires
        a != NEG_ZERO_BITS,
        b != NEG_ZERO_BITS,
        a >> 32u64 == b >> 32u64,
        a as u32 != b as u32,
    ensures
        spec_hash_double_bits(a) != spec_hash_double_bits(b),
{
    law_hash_double_is_xor_of_words(a);
    law_hash_double_is_xor_of_words(b);
    let ha: u32 = (a >> 32u64) as u32;
    let la: u32 = a as u32;
    let lb: u32 = b as u32;
    assert(la != lb ==> (la ^ ha) != (lb ^ ha)) by (bit_vector);
}

/// Two floats (neither `-0.0`) with the same low word but different high
/// words hash differently: the high 32 bits count in the hash.
pub proof fn law_hash_double_high_word_counts(a: u64, b: u64)
    requires
        a != NEG_ZERO_BITS,
        b != NEG_ZERO_BITS,
        a as u32 == b as u32,
        (a >> 32u64) as u32 != (b >> 32u64) as u32,
    ensures
        spec_hash_double_bits(a) != spec_hash_double_bits(b),
{
    law_hash_double_is_xor_of_words(a);
    law_hash_double_is_xor_of_words(b);
    let la: u32 = a as u32;
    let ha: u32 = (a >> 32u64) as u32;
    let hb: u32 = (b >> 32u64) as u32;
    assert(ha != hb ==> (la ^ ha) != (la ^ hb)) by (bit_vector);
}

/// The checks that come before the element walk when two collections of
/// one kind (maps, or sets) are compared: both must be of that kind, of
/// the same count, and of the same hash.
pub open spec fn spec_coll_precheck(a_is: bool, b_is: bool, count_a: i64, count_b: i64, hash_a: i64, hash_b: i64) -> bool {
    a_is && b_is && count_a == count_b && hash_a == hash_b
}

/// Whether two collections can still be equal after comparing their kind,
/// count and hash; `false` means they are not equal.
pub fn coll_precheck(a_is: bool, b_is: bool, count_a: i64, count_b: i64, hash_a: i64, hash_b: i64) -> (r: bool)
    ensures
        r == spec_coll_precheck(a_is, b_is, count_a, count_b, hash_a, hash_b),
{
    if !a_is || !b_is {
        return false;
    }
    if count_a != count_b {
        return false;
    }
    hash_a == hash_b
}

/// One entry of the first map against the second: `None` when the second
/// map lacks the key, else whether the two values are equal. The walk
/// goes on exactly when this is `true`.
pub fn map_entry_matches(found: Option<bool>) -> (r: bool)
    ensures
        r == (found == Some(true)),
{
    match found {
        Some(b) => b,
        None => false,
    }
}

/// Two maps (sets) that passed the precheck are equal when every entry
/// (element) of the first matches; the walk stops at the first that does
/// not. `checks[i]` is what the walk learned of the `i`-th entry (for a
/// set: `Some(contained)`).
pub fn entries_all_match(checks: &[Option<bool>]) -> (r: bool)
    ensures
        r == forall|i: int| 0 <= i < checks@.len() ==> #[trigger] checks@[i] == Some(true),
{
    let mut i: usize = 0;
    while i < checks.len()
        invariant
            i <= checks@.len(),
            forall|j: int| 0 <= j < i ==> #[trigger] checks@[j] == Some(true),
        decreases checks@.len() - i,
    {
        if !map_entry_matches(checks[i]) {
            return false;
        }
        i = i + 1;
    }
    true
}

/// Collections of different counts or hashes are never equal.
pub proof fn law_precheck_guards(a_is: bool, b_is: bool, count_a: i64, count_b: i64, hash_a: i64, hash_b: i64)
    requires
        count_a != count_b || hash_a != hash_b,
    ensures
        !spec_coll_precheck(a_is, b_is, count_a, count_b, hash_a, hash_b),
{
}

} // verus!
