//! Fixed-size sets of 1-based tile values, backed by a bit vector.

use vstd::prelude::*;

verus! {

/// Bit storage of a `TileBitset`, held in a `bitvec::vec::BitVec`.
#[verifier::external_body]
pub struct BitBuffer {
    bits: bitvec::vec::BitVec,
}

/// The bits that a buffer holds, in index order.
pub uninterp spec fn bit_values(b: BitBuffer) -> Seq<bool>;

/// Relies on `BitVec::repeat`: `len` copies of `bit`.
#[verifier::external_body]
fn buffer_repeat(bit: bool, len: usize) -> (r: BitBuffer)
    ensures
        bit_values(r) == Seq::new(len as nat, |i: int| bit),
{
    BitBuffer { bits: bitvec::vec::BitVec::repeat(bit, len) }
}

/// Relies on indexing a `BitSlice`: the bit at `index`.
#[verifier::external_body]
fn buffer_get(b: &BitBuffer, index: usize) -> (r: bool)
    requires
        index < bit_values(*b).len(),
    ensures
        r == bit_values(*b)[index as int],
{
    b.bits[index]
}

/// Relies on `BitSlice::set`: writes one bit, leaves the others.
#[verifier::external_body]
fn buffer_set(b: &mut BitBuffer, index: usize, value: bool)
    requires
        index < bit_values(*old(b)).len(),
    ensures
        bit_values(*final(b)) == bit_values(*old(b)).update(index as int, value),
{
    b.bits.set(index, value)
}

/// Relies on `BitVec &= &BitVec`: bitwise and, where a shorter right-hand
/// side counts as zero-extended.
#[verifier::external_body]
fn buffer_and_assign(a: &mut BitBuffer, b: &BitBuffer)
    ensures
        bit_values(*final(a)) == Seq::new(
            bit_values(*old(a)).len(),
            |i: int| bit_values(*old(a))[i] && i < bit_values(*b).len() && bit_values(*b)[i],
        ),
{
    a.bits &= &b.bits;
}

/// Relies on `BitSlice::not_any`: no bit is set.
#[verifier::external_body]
fn buffer_not_any(b: &BitBuffer) -> (r: bool)
    ensures
        r == (forall|i: int| 0 <= i < bit_values(*b).len() ==> !bit_values(*b)[i]),
{
    b.bits.not_any()
}

/// Relies on `BitSlice::count_ones`: the number of set bits.
#[verifier::external_body]
fn buffer_count_ones(b: &BitBuffer) -> (r: usize)
    ensures
        r == bit_values(*b).filter(|x: bool| x).len(),
{
    b.bits.count_ones()
}

/// Relies on `BitVec::clone`: the same bits.
#[verifier::external_body]
fn buffer_clone(b: &BitBuffer) -> (r: BitBuffer)
    ensures
        bit_values(r) == bit_values(*b),
{
    BitBuffer { bits: b.bits.clone() }
}

/// Set of tile values `1..=max_tiles`.
pub struct TileBitset {
    bits: BitBuffer,
    max_tiles: usize,
}

impl TileBitset {
    /// Bit `i` stands for tile value `i + 1`.
    pub closed spec fn view(&self) -> Seq<bool> {
        bit_values(self.bits)
    }

    /// Largest tile value that the set can hold.
    pub closed spec fn capacity(&self) -> nat {
        self.max_tiles as nat
    }

    /// The buffer holds one bit for each possible tile value.
    pub closed spec fn wf(&self) -> bool {
        bit_values(self.bits).len() == self.max_tiles
    }

    /// Whether tile value `t` is in the set.
    pub open spec fn has(&self, t: int) -> bool {
        1 <= t <= self.capacity() && self@[t - 1]
    }

    /// The tile values in the set.
    pub open spec fn members(&self) -> Set<int> {
        Set::new(|t: int| self.has(t))
    }

    /// Create a bitset with no tiles present.
    pub fn new(max_tiles: usize) -> (r: Self)
        ensures
            r.wf(),
            r.capacity() == max_tiles,
            forall|t: int| !r.has(t),
    {
        TileBitset { bits: buffer_repeat(false, max_tiles), max_tiles }
    }

    /// Create a bitset containing every tile value `1..=max_tiles`.
    pub fn all(max_tiles: usize) -> (r: Self)
        ensures
            r.wf(),
            r.capacity() == max_tiles,
            forall|t: int| r.has(t) <==> 1 <= t <= max_tiles,
    {
        TileBitset { bits: buffer_repeat(true, max_tiles), max_tiles }
    }

    /// Insert a 1-based tile value; values outside `1..=capacity` are ignored.
    pub fn insert(&mut self, tile: usize)
        requires
            old(self).wf(),
        ensures
            final(self).wf(),
            final(self).capacity() == old(self).capacity(),
            forall|t: int|
                final(self).has(t) <==> (old(self).has(t) || (t == tile && 1 <= t
                    <= old(self).capacity())),
    {
        if tile > 0 && tile <= self.max_tiles {
            buffer_set(&mut self.bits, tile - 1, true);
        }
    }

    /// Test tile membership.
    pub fn contains(&self, tile: usize) -> (r: bool)
        requires
            self.wf(),
        ensures
            r == self.has(tile as int),
    {
        if tile > 0 && tile <= self.max_tiles {
            buffer_get(&self.bits, tile - 1)
        } else {
            false
        }
    }

    /// Intersect this bitset with another in place.
    pub fn intersect_with(&mut self, other: &Self)
        requires
            old(self).wf(),
            other.wf(),
        ensures
            final(self).wf(),
            final(self).capacity() == old(self).capacity(),
            forall|t: int| #[trigger] final(self).has(t) <==> (old(self).has(t) && other.has(t)),
    {
        buffer_and_assign(&mut self.bits, &other.bits);
    }

    /// A copy of this set.
    pub fn duplicate(&self) -> (r: Self)
        requires
            self.wf(),
        ensures
            r.wf(),
            r@ == self@,
            r.capacity() == self.capacity(),
    {
        TileBitset { bits: buffer_clone(&self.bits), max_tiles: self.max_tiles }
    }

    /// A new bitset holding the values in both sets.
    pub fn intersection(&self, other: &Self) -> (r: Self)
        requires
            self.wf(),
            other.wf(),
        ensures
            r.wf(),
            r.capacity() == self.capacity(),
            forall|t: int| r.has(t) <==> (self.has(t) && other.has(t)),
    {
        let mut result = self.duplicate();
        assert(forall|t: int| result.has(t) == self.has(t));
        result.intersect_with(other);

        result
    }

    /// Test if no tiles are present.
    pub fn is_empty(&self) -> (r: bool)
        requires
            self.wf(),
        ensures
            r == (forall|t: int| !self.has(t)),
    {
        let r = buffer_not_any(&self.bits);
        proof {
            if !r {
                let i = choose|i: int| 0 <= i < self@.len() && self@[i];
                assert(self.has(i + 1));
            }
        }
        r
    }

    /// Number of tiles in the set.
    pub fn count(&self) -> (r: usize)
        requires
            self.wf(),
        ensures
            r == self@.filter(|x: bool| x).len(),
    {
        buffer_count_ones(&self.bits)
    }

    /// The tile values in the set, in increasing order.
    pub fn to_vec(&self) -> (r: Vec<usize>)
        requires
            self.wf(),
        ensures
            forall|k: int| 0 <= k < r.len() ==> self.has(r@[k] as int),
            forall|t: int| self.has(t) ==> r@.contains(t as usize),
            forall|a: int, b: int| 0 <= a < b < r.len() ==> r@[a] < r@[b],
    {
        let mut result: Vec<usize> = Vec::new();
        let mut i: usize = 0;
        while i < self.max_tiles
            invariant
                self.wf(),
                i <= self.max_tiles,
                forall|k: int| 0 <= k < result.len() ==> self.has(result@[k] as int),
                forall|k: int| 0 <= k < result.len() ==> result@[k] <= i,
                forall|t: int| 1 <= t <= i && self.has(t) ==> result@.contains(t as usize),
                forall|a: int, b: int| 0 <= a < b < result.len() ==> result@[a] < result@[b],
            decreases self.max_tiles - i,
        {
            if buffer_get(&self.bits, i) {
                let ghost prev = result@;
                result.push(i + 1);
                assert(result@[result.len() - 1] == i + 1);
                assert forall|t: int| 1 <= t <= i && self.has(t) implies result@.contains(
                    t as usize,
                ) by {
                    let k = choose|k: int| 0 <= k < prev.len() && prev[k] == t as usize;
                    assert(result@[k] == prev[k]);
                }
            }
            i = i + 1;
        }
        result
    }
}

} // verus!
