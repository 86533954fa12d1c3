//! MurmurHash3 (x86_32 variant, seed 0) as used by Clojure's `hasheq`.
//! Every operation is 32-bit with wrapping arithmetic, bit for bit the
//! JVM's `clojure.lang.Murmur3`.

use vstd::prelude::*;

verus! {

pub const SEED: u32 = 0;
pub const C1: u32 = 0xcc9e2d51;
pub const C2: u32 = 0x1b873593;

/// Rotate a 32-bit word left by `r` bits (0 < r < 32).
pub open spec fn rotl32(x: u32, r: u32) -> u32 {
    (x << r) | (x >> ((32 - r) as u32))
}

pub open spec fn spec_mix_k1(k1: u32) -> u32 {
    rotl32(k1.wrapping_mul(C1), 15).wrapping_mul(C2)
}

pub open spec fn spec_mix_h1(h1: u32, k1: u32) -> u32 {
    rotl32(h1 ^ k1, 13).wrapping_mul(5).wrapping_add(0xe6546b64)
}

pub open spec fn spec_fmix(h1: u32, length: u32) -> u32 {
    let h = h1 ^ length;
    let h = h ^ (h >> 16);
    let h = h.wrapping_mul(0x85ebca6b);
    let h = h ^ (h >> 13);
    let h = h.wrapping_mul(0xc2b2ae35);
    h ^ (h >> 16)
}

/// `Murmur3.hashInt`: 0 hashes to 0, any other value is one mixed block
/// of length 4.
pub open spec fn spec_hash_int(input: i32) -> i32 {
    if input == 0 {
        0
    } else {
        spec_fmix(spec_mix_h1(SEED, spec_mix_k1(input as u32)), 4) as i32
    }
}

/// `Murmur3.hashLong`: 0 hashes to 0, any other value is its low word then
/// its high word mixed as two blocks of total length 8.
pub open spec fn spec_hash_long(input: i64) -> i32 {
    if input == 0 {
        0
    } else {
        let low = input as u32;
        let high = ((input as u64) >> 32u64) as u32;
        let h1 = spec_mix_h1(SEED, spec_mix_k1(low));
        let h1 = spec_mix_h1(h1, spec_mix_k1(high));
        spec_fmix(h1, 8) as i32
    }
}

/// `Murmur3.mixCollHash`: one block holding the accumulated element hash,
/// finalized with the element count as the length.
pub open spec fn spec_mix_coll_hash(hash: i32, count: i32) -> i32 {
    spec_fmix(spec_mix_h1(SEED, spec_mix_k1(hash as u32)), count as u32) as i32
}

fn mix_k1(k1: u32) -> (r: u32)
    ensures
        r == spec_mix_k1(k1),
{
    let k1 = k1.wrapping_mul(C1);
    let k1 = (k1 << 15u32) | (k1 >> 17u32);
    k1.wrapping_mul(C2)
}

fn mix_h1(h1: u32, k1: u32) -> (r: u32)
    ensures
        r == spec_mix_h1(h1, k1),
{
    let h1 = h1 ^ k1;
    let h1 = (h1 << 13u32) | (h1 >> 19u32);
    h1.wrapping_mul(5).wrapping_add(0xe6546b64)
}

fn fmix(h1: u32, length: u32) -> (r: u32)
    ensures
        r == spec_fmix(h1, length),
{
    let mut h1 = h1 ^ length;
    h1 = h1 ^ (h1 >> 16u32);
    h1 = h1.wrapping_mul(0x85ebca6b);
    h1 = h1 ^ (h1 >> 13u32);
    h1 = h1.wrapping_mul(0xc2b2ae35);
    h1 ^ (h1 >> 16u32)
}

/// Clojure's hash of a 32-bit integer.
pub fn hash_int(input: i32) -> (r: i32)
    ensures
        r == spec_hash_int(input),
{
    if input == 0 {
        return 0;
    }
    let k1 = mix_k1(input as u32);
    let h1 = mix_h1(SEED, k1);
    fmix(h1, 4) as i32
}

/// Clojure's hash of a 64-bit integer (`hashLong`).
pub fn hash_long(input: i64) -> (r: i32)
    ensures
        r == spec_hash_long(input),
{
    if input == 0 {
        return 0;
    }
    let low = input as u32;
    let high = ((input as u64) >> 32u64) as u32;
    let k1 = mix_k1(low);
    let h1 = mix_h1(SEED, k1);
    let k1 = mix_k1(high);
    let h1 = mix_h1(h1, k1);
    fmix(h1, 8) as i32
}

/// Finalizes a per-element accumulator into a collection hash.
pub fn mix_coll_hash(hash: i32, count: i32) -> (r: i32)
    ensures
        r == spec_mix_coll_hash(hash, count),
{
    let k1 = mix_k1(hash as u32);
    let h1 = mix_h1(SEED, k1);
    fmix(h1, count as u32) as i32
}


/// The accumulator of an ordered collection hash: starting from 1, each
/// element hash `x` turns `acc` into `31 * acc + x` (32-bit wrapping).
pub open spec fn ordered_acc(hashes: Seq<i32>) -> i32
    decreases hashes.len(),
{
    if hashes.len() == 0 {
        1
    } else {
        ordered_acc(hashes.drop_last()).wrapping_mul(31).wrapping_add(hashes.last())
    }
}

/// The accumulator of an unordered collection hash: the 32-bit wrapping sum
/// of the element hashes.
pub open spec fn unordered_acc(hashes: Seq<i32>) -> i32
    decreases hashes.len(),
{
    if hashes.len() == 0 {
        0
    } else {
        unordered_acc(hashes.drop_last()).wrapping_add(hashes.last())
    }
}

/// A count taken modulo 2^32 and read as an `i32` (the wrapping element count).
pub open spec fn wrap_i32(x: int) -> i32 {
    let m = x % 0x1_0000_0000;
    if m > 0x7fff_ffff {
        (m - 0x1_0000_0000) as i32
    } else {
        m as i32
    }
}

/// `Murmur3.hashOrdered` over the element hashes of an ordered collection.
pub open spec fn spec_hash_ordered(hashes: Seq<i32>) -> i32 {
    spec_mix_coll_hash(ordered_acc(hashes), wrap_i32(hashes.len() as int))
}

/// `Murmur3.hashUnordered` over the element hashes of an unordered collection.
pub open spec fn spec_hash_unordered(hashes: Seq<i32>) -> i32 {
    spec_mix_coll_hash(unordered_acc(hashes), wrap_i32(hashes.len() as int))
}

proof fn lemma_wrap_step(x: int)
    ensures
        wrap_i32(x + 1) == (wrap_i32(x) as i32).wrapping_add(1i32),
{
    let m = x % 0x1_0000_0000;
    let m1 = (x + 1) % 0x1_0000_0000;
    assert(m1 == if m == 0xffff_ffff { 0 } else { m + 1 }) by (nonlinear_arith)
        requires
            m == x % 0x1_0000_0000,
            m1 == (x + 1) % 0x1_0000_0000,
    {
    }
}

proof fn lemma_wrap_add(a: int, b: i32)
    ensures
        wrap_i32(a + b) == wrap_i32(a).wrapping_add(b),
{
    let m = a % 0x1_0000_0000;
    let mb = (a + b) % 0x1_0000_0000;
    let w = wrap_i32(a);
    assert(w as int == m || w as int == m - 0x1_0000_0000);
    assert((mb - (m + b)) % 0x1_0000_0000 == 0 && -0x1_0000_0000 - 0x8000_0000 <= mb - (m + b)
        <= 0x1_0000_0000 + 0x8000_0000) by (nonlinear_arith)
        requires
            m == a % 0x1_0000_0000,
            mb == (a + b) % 0x1_0000_0000,
            -0x8000_0000 <= b < 0x8000_0000,
    {
    }
    assert(mb - (m + b) == 0 || mb - (m + b) == 0x1_0000_0000 || mb - (m + b) == -0x1_0000_0000)
        by (nonlinear_arith)
        requires
            (mb - (m + b)) % 0x1_0000_0000 == 0,
            -0x1_0000_0000 - 0x8000_0000 <= mb - (m + b) <= 0x1_0000_0000 + 0x8000_0000,
    {
    }
}

/// The sum of a sequence of element hashes, as a mathematical integer.
pub open spec fn hash_sum(hashes: Seq<i32>) -> int
    decreases hashes.len(),
{
    if hashes.len() == 0 {
        0
    } else {
        hash_sum(hashes.drop_last()) + hashes.last()
    }
}

proof fn lemma_unordered_acc_is_wrapped_sum(hashes: Seq<i32>)
    ensures
        unordered_acc(hashes) == wrap_i32(hash_sum(hashes)),
    decreases hashes.len(),
{
    if hashes.len() > 0 {
        lemma_unordered_acc_is_wrapped_sum(hashes.drop_last());
        lemma_wrap_add(hash_sum(hashes.drop_last()), hashes.last());
    }
}

proof fn lemma_hash_sum_remove(s: Seq<i32>, j: int)
    requires
        0 <= j < s.len(),
    ensures
        hash_sum(s.remove(j)) + s[j] == hash_sum(s),
    decreases s.len(),
{
    if j == s.len() - 1 {
        assert(s.remove(j) =~= s.drop_last());
    } else {
        lemma_hash_sum_remove(s.drop_last(), j);
        assert(s.remove(j).drop_last() =~= s.drop_last().remove(j));
        assert(s.remove(j).last() == s.last());
    }
}

proof fn lemma_hash_sum_permutation(s: Seq<i32>, t: Seq<i32>)
    requires
        s.to_multiset() == t.to_multiset(),
    ensures
        hash_sum(s) == hash_sum(t),
    decreases s.len(),
{
    broadcast use vstd::seq_lib::group_to_multiset_ensures;

    if s.len() == 0 {
        assert(s.len() == s.to_multiset().len());
        assert(t.len() == t.to_multiset().len());
    } else {
        let x = s.last();
        assert(s.contains(x)) by {
            assert(s[s.len() - 1] == x);
        }
        assert(t.to_multiset().count(x) > 0);
        assert(t.contains(x));
        let j = choose|j: int| 0 <= j < t.len() && t[j] == x;
        assert(s.remove(s.len() - 1) =~= s.drop_last());
        assert(s.drop_last().to_multiset() == t.remove(j).to_multiset());
        lemma_hash_sum_permutation(s.drop_last(), t.remove(j));
        lemma_hash_sum_remove(t, j);
    }
}

/// An unordered collection hash does not depend on the order in which the
/// element hashes are visited: any two sequences holding the same element
/// hashes, each as many times, hash alike.
pub proof fn law_hash_unordered_order_independent(s: Seq<i32>, t: Seq<i32>)
    requires
        s.to_multiset() == t.to_multiset(),
    ensures
        spec_hash_unordered(s) == spec_hash_unordered(t),
{
    broadcast use vstd::seq_lib::group_to_multiset_ensures;

    lemma_hash_sum_permutation(s, t);
    lemma_unordered_acc_is_wrapped_sum(s);
    lemma_unordered_acc_is_wrapped_sum(t);
    assert(s.len() == s.to_multiset().len());
    assert(t.len() == t.to_multiset().len());
}

/// Collection hash of an ordered collection (list, vector, seq), given the
/// `hasheq` of each element in order.
pub fn hash_ordered_seq(elem_hashes: &[i32]) -> (r: i32)
    ensures
        r == spec_hash_ordered(elem_hashes@),
{
    let mut h: i32 = 1;
    let mut n: i32 = 0;
    let mut i: usize = 0;
    while i < elem_hashes.len()
        invariant
            i <= elem_hashes@.len(),
            h == ordered_acc(elem_hashes@.take(i as int)),
            n == wrap_i32(i as int),
        decreases elem_hashes@.len() - i,
    {
        assert(elem_hashes@.take(i + 1).drop_last() =~= elem_hashes@.take(i as int));
        h = h.wrapping_mul(31).wrapping_add(elem_hashes[i]);
        proof {
            lemma_wrap_step(i as int);
        }
        n = n.wrapping_add(1);
        i = i + 1;
    }
    assert(elem_hashes@.take(i as int) =~= elem_hashes@);
    mix_coll_hash(h, n)
}

/// Collection hash of an unordered collection (set, map), given the
/// `hasheq` of each element in iteration order.
pub fn hash_unordered_seq(elem_hashes: &[i32]) -> (r: i32)
    ensures
        r == spec_hash_unordered(elem_hashes@),
{
    let mut h: i32 = 0;
    let mut n: i32 = 0;
    let mut i: usize = 0;
    while i < elem_hashes.len()
        invariant
            i <= elem_hashes@.len(),
            h == unordered_acc(elem_hashes@.take(i as int)),
            n == wrap_i32(i as int),
        decreases elem_hashes@.len() - i,
    {
        assert(elem_hashes@.take(i + 1).drop_last() =~= elem_hashes@.take(i as int));
        h = h.wrapping_add(elem_hashes[i]);
        proof {
            lemma_wrap_step(i as int);
        }
        n = n.wrapping_add(1);
        i = i + 1;
    }
    assert(elem_hashes@.take(i as int) =~= elem_hashes@);
    mix_coll_hash(h, n)
}

} // verus!
