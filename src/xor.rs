//! Element-wise XOR of sequences of unsigned integers.
use vstd::prelude::*;

verus! {

/// A value with a bitwise exclusive or that is commutative and undoes itself.
pub trait Xor: Copy + Sized {
    spec fn spec_xor(self, rhs: Self) -> Self;

    fn xor(&self, rhs: &Self) -> (r: Self)
        ensures
            r == self.spec_xor(*rhs),
    ;

    proof fn lemma_xor_commutes(a: Self, b: Self)
        ensures
            a.spec_xor(b) == b.spec_xor(a),
    ;

    proof fn lemma_xor_twice(a: Self, b: Self)
        ensures
            a.spec_xor(b).spec_xor(b) == a,
    ;
}

impl Xor for u8 {
    open spec fn spec_xor(self, rhs: u8) -> u8 {
        self ^ rhs
    }

    fn xor(&self, rhs: &u8) -> (r: u8) {
        *self ^ *rhs
    }

    proof fn lemma_xor_commutes(a: u8, b: u8) {
        assert(a ^ b == b ^ a) by (bit_vector);
    }

    proof fn lemma_xor_twice(a: u8, b: u8) {
        assert((a ^ b) ^ b == a) by (bit_vector);
    }
}

impl Xor for u16 {
    open spec fn spec_xor(self, rhs: u16) -> u16 {
        self ^ rhs
    }

    fn xor(&self, rhs: &u16) -> (r: u16) {
        *self ^ *rhs
    }

    proof fn lemma_xor_commutes(a: u16, b: u16) {
        assert(a ^ b == b ^ a) by (bit_vector);
    }

    proof fn lemma_xor_twice(a: u16, b: u16) {
        assert((a ^ b) ^ b == a) by (bit_vector);
    }
}

impl Xor for u32 {
    open spec fn spec_xor(self, rhs: u32) -> u32 {
        self ^ rhs
    }

    fn xor(&self, rhs: &u32) -> (r: u32) {
        *self ^ *rhs
    }

    proof fn lemma_xor_commutes(a: u32, b: u32) {
        assert(a ^ b == b ^ a) by (bit_vector);
    }

    proof fn lemma_xor_twice(a: u32, b: u32) {
        assert((a ^ b) ^ b == a) by (bit_vector);
    }
}

impl Xor for u64 {
    open spec fn spec_xor(self, rhs: u64) -> u64 {
        self ^ rhs
    }

    fn xor(&self, rhs: &u64) -> (r: u64) {
        *self ^ *rhs
    }

    proof fn lemma_xor_commutes(a: u64, b: u64) {
        assert(a ^ b == b ^ a) by (bit_vector);
    }

    proof fn lemma_xor_twice(a: u64, b: u64) {
        assert((a ^ b) ^ b == a) by (bit_vector);
    }
}

impl Xor for usize {
    open spec fn spec_xor(self, rhs: usize) -> usize {
        self ^ rhs
    }

    fn xor(&self, rhs: &usize) -> (r: usize) {
        *self ^ *rhs
    }

    proof fn lemma_xor_commutes(a: usize, b: usize) {
        assert(a ^ b == b ^ a) by (bit_vector);
    }

    proof fn lemma_xor_twice(a: usize, b: usize) {
        assert((a ^ b) ^ b == a) by (bit_vector);
    }
}

/// The pairwise XOR of `a` and `b`, cut to the shorter of the two.
pub open spec fn pairwise<T: Xor>(a: Seq<T>, b: Seq<T>) -> Seq<T> {
    let n = if a.len() <= b.len() { a.len() } else { b.len() };
    Seq::new(n, |i: int| a[i].spec_xor(b[i]))
}

/// Every element of `a` XORed with `key`.
pub open spec fn with_key<T: Xor>(a: Seq<T>, key: T) -> Seq<T> {
    Seq::new(a.len(), |i: int| a[i].spec_xor(key))
}

/// XORs `lhs` and `rhs` element by element; the tail of the longer one is
/// dropped.
pub fn xor_eq_vec<T: Xor>(lhs: &Vec<T>, rhs: &Vec<T>) -> (r: Vec<T>)
    ensures
        r@ == pairwise(lhs@, rhs@),
{
    let mut x: Vec<T> = Vec::new();
    let size: usize = if lhs.len() <= rhs.len() { lhs.len() } else { rhs.len() };
    for i in 0..size
        invariant
            size <= lhs@.len(),
            size <= rhs@.len(),
            size == lhs@.len() || size == rhs@.len(),
            x@.len() == i,
            forall|j: int| 0 <= j < i ==> x@[j] == #[trigger] lhs@[j].spec_xor(rhs@[j]),
    {
        proof {
            T::lemma_xor_commutes(rhs@[i as int], lhs@[i as int]);
        }
        x.push(rhs[i].xor(&lhs[i]));
    }
    assert(x@ =~= pairwise(lhs@, rhs@));
    x
}

/// XORs every element of `lhs` with the single value `xi`.
pub fn xor_1_vec<T: Xor>(lhs: &Vec<T>, xi: T) -> (r: Vec<T>)
    ensures
        r@ == with_key(lhs@, xi),
{
    let mut x: Vec<T> = Vec::new();
    for i in 0..lhs.len()
        invariant
            x@.len() == i,
            forall|j: int| 0 <= j < i ==> x@[j] == #[trigger] lhs@[j].spec_xor(xi),
    {
        x.push(lhs[i].xor(&xi));
    }
    assert(x@ =~= with_key(lhs@, xi));
    x
}

/// XORing twice with the same key gives back the original sequence.
pub proof fn lemma_with_key_twice<T: Xor>(a: Seq<T>, key: T)
    ensures
        with_key(with_key(a, key), key) == a,
{
    assert forall|i: int| 0 <= i < a.len() implies #[trigger] with_key(with_key(a, key), key)[i]
        == a[i] by {
        T::lemma_xor_twice(a[i], key);
    }
    assert(with_key(with_key(a, key), key) =~= a);
}

/// Pairwise XOR with `b` twice gives back `a` when `a` is not the longer one.
pub proof fn lemma_pairwise_twice<T: Xor>(a: Seq<T>, b: Seq<T>)
    requires
        a.len() <= b.len(),
    ensures
        pairwise(pairwise(a, b), b) == a,
{
    assert forall|i: int| 0 <= i < a.len() implies #[trigger] pairwise(pairwise(a, b), b)[i]
        == a[i] by {
        T::lemma_xor_twice(a[i], b[i]);
    }
    assert(pairwise(pairwise(a, b), b) =~= a);
}

/// Pairwise XOR does not depend on the order of its operands.
pub proof fn lemma_pairwise_commutes<T: Xor>(a: Seq<T>, b: Seq<T>)
    ensures
        pairwise(a, b) == pairwise(b, a),
{
    assert forall|i: int| 0 <= i < pairwise(a, b).len() implies #[trigger] pairwise(a, b)[i]
        == pairwise(b, a)[i] by {
        T::lemma_xor_commutes(a[i], b[i]);
    }
    assert(pairwise(a, b) =~= pairwise(b, a));
}

} // verus!
