//! A set of small natural numbers kept as words of 64 bits: number `n` is
//! bit `n % 64` of word `n / 64`.
use vstd::prelude::*;
use vstd::std_specs::bits::axiom_u64_trailing_ones;

verus! {

/// Whether bit `b` of `w` is set.
pub open spec fn bit_set(w: u64, b: nat) -> bool {
    (w >> (b as u64)) & 1u64 == 1u64
}

/// Whether `n` is in the set that the words `v` stand for.
pub open spec fn in_bitset(v: Seq<u64>, n: nat) -> bool {
    n < 64 * v.len() && bit_set(v[(n / 64) as int], n % 64)
}

/// The smallest number missing from a bitset.
pub open spec fn lowest_free(v: Seq<u64>) -> nat {
    choose|n: nat| !in_bitset(v, n) && forall|m: nat| m < n ==> in_bitset(v, m)
}

/// The words of a bitset after adding `n`, which is not in it.
pub open spec fn with_allocated(v: Seq<u64>, n: nat) -> Seq<u64> {
    if n < 64 * v.len() {
        v.update((n / 64) as int, v[(n / 64) as int] | (1u64 << ((n % 64) as u64)))
    } else {
        v.push(1u64)
    }
}

/// The words of a bitset after removing `n`.
pub open spec fn with_freed(v: Seq<u64>, n: nat) -> Seq<u64> {
    v.update((n / 64) as int, v[(n / 64) as int] & !(1u64 << ((n % 64) as u64)))
}

proof fn lemma_lowest_free(v: Seq<u64>, r: nat)
    requires
        !in_bitset(v, r),
        forall|n: nat| n < r ==> in_bitset(v, n),
    ensures
        lowest_free(v) == r,
{
    let l = lowest_free(v);
    assert(!in_bitset(v, l) && forall|m: nat| m < l ==> in_bitset(v, m));
    if l < r {
        assert(in_bitset(v, l));
    }
    if r < l {
        assert(in_bitset(v, r));
    }
}

proof fn lemma_set_bit(w: u64, t: u64, b: u64)
    requires
        t < 64,
        b < 64,
    ensures
        (((w | (1u64 << t)) >> b) & 1u64 == 1u64) == (((w >> b) & 1u64 == 1u64) || b == t),
{
    assert((((w | (1u64 << t)) >> b) & 1u64 == 1u64) == (((w >> b) & 1u64 == 1u64) || b == t))
        by (bit_vector)
        requires
            t < 64,
            b < 64,
    ;
}

proof fn lemma_clear_bit(w: u64, t: u64, b: u64)
    requires
        t < 64,
        b < 64,
    ensures
        (((w & !(1u64 << t)) >> b) & 1u64 == 1u64) == (((w >> b) & 1u64 == 1u64) && b != t),
{
    assert((((w & !(1u64 << t)) >> b) & 1u64 == 1u64) == (((w >> b) & 1u64 == 1u64) && b != t))
        by (bit_vector)
        requires
            t < 64,
            b < 64,
    ;
}

proof fn lemma_one_bits(b: u64)
    requires
        b < 64,
    ensures
        ((1u64 >> b) & 1u64 == 1u64) == (b == 0),
        (0xffff_ffff_ffff_ffffu64 >> b) & 1u64 == 1u64,
{
    assert(((1u64 >> b) & 1u64 == 1u64) == (b == 0)) by (bit_vector)
        requires
            b < 64,
    ;
    assert((0xffff_ffff_ffff_ffffu64 >> b) & 1u64 == 1u64) by (bit_vector)
        requires
            b < 64,
    ;
}

proof fn lemma_div_mod(n: nat, i: nat, b: nat)
    requires
        b < 64,
        n == 64 * i + b,
    ensures
        n / 64 == i,
        n % 64 == b,
{
}

/// A smallest number missing from the set exists.
proof fn lemma_lowest_exists(v: Seq<u64>, k: nat)
    requires
        !in_bitset(v, k),
    ensures
        !in_bitset(v, lowest_free(v)),
        forall|m: nat| m < lowest_free(v) ==> in_bitset(v, m),
    decreases k,
{
    if forall|m: nat| m < k ==> in_bitset(v, m) {
        assert(!in_bitset(v, k) && forall|m: nat| m < k ==> in_bitset(v, m));
    } else {
        let m = choose|m: nat| m < k && !in_bitset(v, m);
        lemma_lowest_exists(v, m);
    }
}

/// The smallest missing number is missing, and every smaller one is present.
pub proof fn lemma_lowest_free_is_free(v: Seq<u64>)
    ensures
        !in_bitset(v, lowest_free(v)),
        forall|m: nat| m < lowest_free(v) ==> in_bitset(v, m),
        lowest_free(v) <= 64 * v.len(),
{
    lemma_lowest_exists(v, 64 * v.len());
    if lowest_free(v) > 64 * v.len() {
        assert(in_bitset(v, 64 * v.len()));
    }
}

/// Adding the smallest missing number adds it and nothing else.
pub proof fn lemma_allocated_set(v: Seq<u64>)
    ensures
        forall|m: nat| #[trigger] in_bitset(with_allocated(v, lowest_free(v)), m)
            == (in_bitset(v, m) || m == lowest_free(v)),
{
    lemma_lowest_free_is_free(v);
    let n = lowest_free(v);
    let q0 = n / 64;
    let b0 = n % 64;
    lemma_div_mod(n, q0, b0);
    assert forall|m: nat| #[trigger] in_bitset(with_allocated(v, n), m) == (in_bitset(v, m) || m == n) by {
        let q = m / 64;
        let b = m % 64;
        lemma_div_mod(m, q, b);
        if n < 64 * v.len() {
            if q == q0 {
                lemma_set_bit(v[q0 as int], b0 as u64, b as u64);
            }
        } else {
            if q == v.len() {
                lemma_one_bits(b as u64);
            }
        }
    }
}

/// Removing a number removes it and nothing else.
pub proof fn lemma_freed_set(v: Seq<u64>, n: nat)
    requires
        n < 64 * v.len(),
    ensures
        with_freed(v, n).len() == v.len(),
        forall|m: nat| #[trigger] in_bitset(with_freed(v, n), m) == (in_bitset(v, m) && m != n),
{
    let q0 = n / 64;
    let b0 = n % 64;
    lemma_div_mod(n, q0, b0);
    assert forall|m: nat| #[trigger] in_bitset(with_freed(v, n), m) == (in_bitset(v, m) && m != n) by {
        let q = m / 64;
        let b = m % 64;
        lemma_div_mod(m, q, b);
        if q == q0 {
            lemma_clear_bit(v[q0 as int], b0 as u64, b as u64);
        }
    }
}

/// Allocating the smallest missing number and freeing it again leaves the
/// set as it was.
pub proof fn lemma_allocate_then_free(v: Seq<u64>)
    ensures
        forall|m: nat| #[trigger] in_bitset(with_freed(with_allocated(v, lowest_free(v)), lowest_free(v)), m)
            == in_bitset(v, m),
{
    lemma_allocated_set(v);
    lemma_lowest_free_is_free(v);
    let n = lowest_free(v);
    assert(in_bitset(with_allocated(v, n), n));
    lemma_freed_set(with_allocated(v, n), n);
}

/// Adds the smallest number missing from the set and returns it; a new word
/// is appended when every word is full.
pub fn bitset_allocate(vec: &mut Vec<u64>) -> (r: usize)
    requires
        64 * (old(vec)@.len() + 1) <= usize::MAX,
    ensures
        r == lowest_free(old(vec)@),
        final(vec)@ == with_allocated(old(vec)@, r as nat),
        forall|n: nat| in_bitset(final(vec)@, n) == (in_bitset(old(vec)@, n) || n == r),
{
    proof {
        lemma_allocated_set(vec@);
        lemma_lowest_free_is_free(vec@);
    }
    let mut i: usize = 0;
    while i < vec.len()
        invariant
            i <= vec@.len(),
            vec@ == old(vec)@,
            64 * (old(vec)@.len() + 1) <= usize::MAX,
            forall|j: int| 0 <= j < i ==> vec@[j] == 0xffff_ffff_ffff_ffffu64,
        decreases vec@.len() - i,
    {
        let w = vec[i];
        let t = w.trailing_ones();
        proof {
            axiom_u64_trailing_ones(w);
        }
        if t == 64 {
            i = i + 1;
        } else {
            let t64: u64 = t as u64;
            let new_word = w | (1u64 << t64);
            vec.set(i, new_word);
            let r = i * 64 + t as usize;
            proof {
                lemma_div_mod(r as nat, i as nat, t as nat);
                assert forall|n: nat| n < r implies in_bitset(old(vec)@, n) by {
                    let q = n / 64;
                    let b = n % 64;
                    lemma_div_mod(n, q, b);
                    lemma_one_bits(b as u64);
                    if q == i {
                        assert((w >> (b as u64)) & 1u64 == 1u64);
                    }
                }
                lemma_lowest_free(old(vec)@, r as nat);
                assert(vec@ =~= with_allocated(old(vec)@, r as nat));
                lemma_allocated_set(old(vec)@);
            }
            return r;
        }
    }
    vec.push(1);
    let r = (vec.len() - 1) * 64;
    proof {
        let len = old(vec)@.len();
        lemma_div_mod(r as nat, len, 0);
        assert forall|n: nat| n < r implies in_bitset(old(vec)@, n) by {
            let q = n / 64;
            let b = n % 64;
            lemma_div_mod(n, q, b);
            lemma_one_bits(b as u64);
        }
        lemma_lowest_free(old(vec)@, r as nat);
        assert(vec@ =~= with_allocated(old(vec)@, r as nat));
    }
    r
}

/// Removes `ind` from the set.
pub fn bitset_deallocate(vec: &mut Vec<u64>, ind: usize)
    requires
        ind < 64 * old(vec)@.len(),
    ensures
        final(vec)@ == with_freed(old(vec)@, ind as nat),
        forall|n: nat| in_bitset(final(vec)@, n) == (in_bitset(old(vec)@, n) && n != ind),
{
    proof {
        lemma_freed_set(vec@, ind as nat);
    }
    let word = ind / 64;
    let b: u64 = (ind % 64) as u64;
    let w = vec[word];
    vec.set(word, w & !(1u64 << b));
    proof {
        assert(vec@ =~= with_freed(old(vec)@, ind as nat));
    }
}

} // verus!
