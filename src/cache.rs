//! Memoized compatible-value sets for 3x3 patterns.

use vstd::prelude::*;
use crate::bitset::TileBitset;
use crate::propagation::StepData;
use crate::selection::{compatible_values, find_compatible_values_at_offset_bitset};
use crate::tiles::Pattern;

verus! {

/// Key of a memoized result: a flattened 3x3 pattern and the target cell.
#[derive(Clone, Debug)]
pub struct PatternKey {
    pattern: Vec<i32>,
    target_row: usize,
    target_col: usize,
}

/// The 3x3 pattern of a flattened key, row by row.
pub open spec fn unflatten(k: Seq<i32>) -> Pattern {
    [[k[0], k[1], k[2]], [k[3], k[4], k[5]], [k[6], k[7], k[8]]]
}

impl PatternKey {
    /// The pattern, flattened row by row.
    pub closed spec fn pattern_spec(&self) -> Seq<i32> {
        self.pattern@
    }

    /// Target row inside the window.
    pub closed spec fn row_spec(&self) -> usize {
        self.target_row
    }

    /// Target column inside the window.
    pub closed spec fn col_spec(&self) -> usize {
        self.target_col
    }

    /// Create a key from a 3x3 pattern and a target cell.
    pub fn new(tile_pattern: &[[i32; 3]; 3], target_row: usize, target_col: usize) -> (r: Self)
        ensures
            r.pattern_spec().len() == 9,
            unflatten(r.pattern_spec()) == *tile_pattern,
            r.row_spec() == target_row,
            r.col_spec() == target_col,
    {
        let mut pattern: Vec<i32> = Vec::new();
        pattern.push(tile_pattern[0][0]);
        pattern.push(tile_pattern[0][1]);
        pattern.push(tile_pattern[0][2]);
        pattern.push(tile_pattern[1][0]);
        pattern.push(tile_pattern[1][1]);
        pattern.push(tile_pattern[1][2]);
        pattern.push(tile_pattern[2][0]);
        pattern.push(tile_pattern[2][1]);
        pattern.push(tile_pattern[2][2]);
        let r = PatternKey { pattern, target_row, target_col };
        proof {
            let u = unflatten(r.pattern@);
            assert(u[0] =~= tile_pattern[0]);
            assert(u[1] =~= tile_pattern[1]);
            assert(u[2] =~= tile_pattern[2]);
            assert(u =~= *tile_pattern);
        }
        r
    }

    /// The pattern as a 3x3 array.
    fn to_pattern(&self) -> (r: Pattern)
        requires
            self.pattern@.len() == 9,
        ensures
            r == unflatten(self.pattern@),
    {
        let p = &self.pattern;
        [[p[0], p[1], p[2]], [p[3], p[4], p[5]], [p[6], p[7], p[8]]]
    }

    /// Same pattern and target.
    fn same_as(&self, other: &Self) -> (r: bool)
        requires
            self.pattern@.len() == 9,
            other.pattern@.len() == 9,
        ensures
            r == (self.pattern@ == other.pattern@ && self.target_row == other.target_row
                && self.target_col == other.target_col),
    {
        let mut k: usize = 0;
        while k < 9
            invariant
                k <= 9,
                self.pattern@.len() == 9,
                other.pattern@.len() == 9,
                forall|x: int| 0 <= x < k ==> self.pattern@[x] == other.pattern@[x],
            decreases 9 - k,
        {
            if self.pattern[k] != other.pattern[k] {
                return false;
            }
            k = k + 1;
        }
        assert(self.pattern@ =~= other.pattern@);
        self.target_row == other.target_row && self.target_col == other.target_col
    }
}

impl PartialEq for PatternKey {
    fn eq(&self, other: &PatternKey) -> (r: bool) {
        if self.target_row != other.target_row || self.target_col != other.target_col
            || self.pattern.len() != other.pattern.len() {
            return false;
        }
        let mut k: usize = 0;
        while k < self.pattern.len()
            invariant
                k <= self.pattern@.len(),
                self.pattern@.len() == other.pattern@.len(),
                forall|x: int| 0 <= x < k ==> self.pattern@[x] == other.pattern@[x],
            decreases self.pattern@.len() - k,
        {
            if self.pattern[k] != other.pattern[k] {
                return false;
            }
            k = k + 1;
        }
        assert(self.pattern@ =~= other.pattern@);
        true
    }
}

impl vstd::std_specs::cmp::PartialEqSpecImpl for PatternKey {
    open spec fn obeys_eq_spec() -> bool {
        true
    }

    open spec fn eq_spec(&self, other: &PatternKey) -> bool {
        self.pattern_spec() == other.pattern_spec() && self.row_spec() == other.row_spec() && self.col_spec()
            == other.col_spec()
    }
}

/// Hit and miss counters of the cache.
#[derive(Debug, Default)]
pub struct CacheStats {
    /// Number of lookups answered from the cache.
    pub hits: usize,
    /// Number of lookups that had to compute.
    pub misses: usize,
}

/// Bucket position of one pattern value folded into a running hash.
pub open spec fn mix(h: nat, v: i32) -> nat {
    ((h * 1_000_003 + (v + 0x8000_0000)) % 0x100_0000_0000) as nat
}

/// Running hash of the first `n` pattern values.
pub open spec fn pattern_hash(p: Seq<i32>, n: int) -> nat
    decreases n,
{
    if n <= 0 {
        0
    } else {
        mix(pattern_hash(p, n - 1), p[n - 1])
    }
}

/// The bucket that holds a key: the pattern hash and the target cell.
pub open spec fn bucket_of(k: PatternKey) -> u64 {
    (pattern_hash(k.pattern_spec(), 9) * 16 + k.row_spec() * 3 + k.col_spec()) as u64
}

proof fn lemma_hash_bound(p: Seq<i32>, n: int)
    ensures
        pattern_hash(p, n) < 0x100_0000_0000,
    decreases n,
{
    if n > 0 {
        lemma_hash_bound(p, n - 1);
    }
}

/// The bucket of a key.
fn key_hash(k: &PatternKey) -> (r: u64)
    requires
        key_wf(*k),
    ensures
        r == bucket_of(*k),
{
    let mut h: u64 = 0;
    let mut n: usize = 0;
    while n < 9
        invariant
            n <= 9,
            key_wf(*k),
            h == pattern_hash(k.pattern_spec(), n as int),
        decreases 9 - n,
    {
        proof {
            lemma_hash_bound(k.pattern_spec(), n as int);
            assert(h * 1_000_003 <= 0x100_0000_0000 * 1_000_003) by (nonlinear_arith)
                requires
                    h < 0x100_0000_0000,
            ;
        }
        let v = k.pattern[n];
        h = (h * 1_000_003 + (v as i64 + 0x8000_0000) as u64) % 0x100_0000_0000;
        n = n + 1;
    }
    proof {
        lemma_hash_bound(k.pattern_spec(), 9);
    }
    h * 16 + (k.target_row * 3 + k.target_col) as u64
}

/// Memo of compatible-value sets, held in buckets keyed by `bucket_of`.
pub struct ViableTilesCache {
    buckets: std::collections::HashMap<u64, Vec<(PatternKey, TileBitset)>>,
    /// Cache performance statistics.
    pub stats: CacheStats,
}

/// A key that names a real cell of a 3x3 window.
pub open spec fn key_wf(k: PatternKey) -> bool {
    k.pattern_spec().len() == 9 && k.row_spec() < 3 && k.col_spec() < 3
}

/// `bits` holds exactly the values that may appear at the key's target
/// among the tiles of `data` that fit the key's pattern.
pub open spec fn answers(k: PatternKey, bits: TileBitset, data: StepData) -> bool {
    &&& bits.wf()
    &&& bits.capacity() == data.unique_cell_count
    &&& forall|v: int|
        #[trigger] bits.has(v) <==> compatible_values(
            unflatten(k.pattern_spec()),
            data.source_tiles@,
            k.row_spec() as int,
            k.col_spec() as int,
            data.unique_cell_count as nat,
        ).contains(v)
}

impl ViableTilesCache {
    /// Every stored set equals the set computed from scratch for its key,
    /// and each entry sits in its key's bucket.
    pub closed spec fn sound(&self, data: StepData) -> bool {
        forall|h: u64, x: int|
            self.buckets@.contains_key(h) && 0 <= x < self.buckets@[h]@.len() ==> {
                let e = #[trigger] self.buckets@[h]@[x];
                &&& key_wf(e.0)
                &&& answers(e.0, e.1, data)
                &&& bucket_of(e.0) == h
            }
    }

    /// Some stored entry has this key.
    pub closed spec fn holds(&self, k: PatternKey) -> bool {
        self.buckets@.contains_key(bucket_of(k)) && exists|x: int|
            0 <= x < self.buckets@[bucket_of(k)]@.len() && same_key(
                #[trigger] self.buckets@[bucket_of(k)]@[x].0,
                k,
            )
    }

    /// Number of lookups answered from the cache.
    pub closed spec fn hits(&self) -> usize {
        self.stats.hits
    }

    /// Number of lookups that had to compute.
    pub closed spec fn misses(&self) -> usize {
        self.stats.misses
    }

    /// Create an empty cache.
    pub fn new() -> (r: Self)
        ensures
            forall|data: StepData| r.sound(data),
            forall|k: PatternKey| !r.holds(k),
            r.hits() == 0,
            r.misses() == 0,
    {
        ViableTilesCache { buckets: std::collections::HashMap::new(), stats: CacheStats { hits: 0, misses: 0 } }
    }

    /// The set of values that may appear at the key's target among the tiles
    /// fitting its pattern: from the cache if present, else computed and stored.
    pub fn get_or_compute_pattern(&mut self, pattern_key: PatternKey, step_data: &StepData) -> (r:
        TileBitset)
        requires
            old(self).sound(*step_data),
            step_data.wf(),
            key_wf(pattern_key),
        ensures
            final(self).sound(*step_data),
            answers(pattern_key, r, *step_data),
            final(self).holds(pattern_key),
            old(self).holds(pattern_key) ==> final(self).misses() == old(self).misses() && final(self).hits() == (if old(
                self,
            ).hits() == usize::MAX {
                usize::MAX
            } else {
                (old(self).hits() + 1) as usize
            }),
            !old(self).holds(pattern_key) ==> final(self).hits() == old(self).hits() && final(self).misses() == (if old(
                self,
            ).misses() == usize::MAX {
                usize::MAX
            } else {
                (old(self).misses() + 1) as usize
            }),
    {
        let h = key_hash(&pattern_key);
        let ghost map0 = self.buckets@;
        let mut bucket = match self.buckets.remove(&h) {
            Some(b) => b,
            None => Vec::new(),
        };
        proof {
            assert(self.buckets@ == map0.remove(h));
            assert(map0.contains_key(h) ==> bucket@ == map0[h]@);
            assert(!map0.contains_key(h) ==> bucket@.len() == 0);
        }
        let mut x: usize = 0;
        while x < bucket.len()
            invariant
                key_wf(pattern_key),
                h == bucket_of(pattern_key),
                x <= bucket.len(),
                map0.contains_key(h) ==> bucket@ == map0[h]@,
                !map0.contains_key(h) ==> bucket@.len() == 0,
                self.buckets@ == map0.remove(h),
                self.stats == old(self).stats,
                map0 == old(self).buckets@,
                old(self).sound(*step_data),
                forall|y: int| 0 <= y < x ==> !same_key((#[trigger] bucket@[y]).0, pattern_key),
            decreases bucket.len() - x,
        {
            if bucket[x].0.same_as(&pattern_key) {
                if self.stats.hits < usize::MAX {
                    self.stats.hits = self.stats.hits + 1;
                }
                let found = bucket[x].1.duplicate();
                proof {
                    let e = bucket@[x as int];
                    assert(map0[h]@[x as int] == e);
                    assert(key_wf(e.0) && answers(e.0, e.1, *step_data));
                    assert(e.0.pattern_spec() =~= pattern_key.pattern_spec());
                    assert(forall|v: int| found.has(v) == e.1.has(v));
                }
                let ghost kept = bucket@;
                self.buckets.insert(h, bucket);
                proof {
                    assert(self.buckets@[h]@ == kept);
                    assert(same_key(self.buckets@[h]@[x as int].0, pattern_key));
                    assert forall|g: u64, y: int|
                        self.buckets@.contains_key(g) && 0 <= y < self.buckets@[g]@.len() implies {
                        let e = #[trigger] self.buckets@[g]@[y];
                        &&& key_wf(e.0)
                        &&& answers(e.0, e.1, *step_data)
                        &&& bucket_of(e.0) == g
                    } by {
                        if g == h {
                            assert(self.buckets@[g]@[y] == map0[h]@[y]);
                        } else {
                            assert(self.buckets@[g] == map0[g]);
                        }
                    }
                }
                return found;
            }
            x = x + 1;
        }
        if self.stats.misses < usize::MAX {
            self.stats.misses = self.stats.misses + 1;
        }
        let pattern = pattern_key.to_pattern();
        let computed = find_compatible_values_at_offset_bitset(
            &pattern,
            &step_data.source_tiles,
            &step_data.tile_compatibility_rules,
            step_data.unique_cell_count,
            pattern_key.target_row,
            pattern_key.target_col,
        );
        let result = computed.duplicate();
        assert(forall|v: int| result.has(v) == computed.has(v));
        let ghost before = bucket@;
        let ghost key = pattern_key;
        bucket.push((pattern_key, computed));
        self.buckets.insert(h, bucket);
        proof {
            let b = self.buckets@[h]@;
            assert(b[before.len() as int].0 == key);
            assert(same_key(b[before.len() as int].0, key));
            assert forall|g: u64, y: int|
                self.buckets@.contains_key(g) && 0 <= y < self.buckets@[g]@.len() implies {
                let e = #[trigger] self.buckets@[g]@[y];
                &&& key_wf(e.0)
                &&& answers(e.0, e.1, *step_data)
                &&& bucket_of(e.0) == g
            } by {
                if g == h {
                    if y < before.len() {
                        assert(b[y] == before[y]);
                        assert(b[y] == map0[h]@[y]);
                    }
                } else {
                    assert(self.buckets@[g] == map0[g]);
                }
            }
            if old(self).holds(pattern_key) {
                let y = choose|y: int|
                    0 <= y < map0[h]@.len() && same_key(#[trigger] map0[h]@[y].0, pattern_key);
                assert(bucket@[y] == map0[h]@[y]);
            }
        }
        result
    }
}

/// Two keys with the same pattern and target.
pub open spec fn same_key(a: PatternKey, b: PatternKey) -> bool {
    a.pattern_spec() == b.pattern_spec() && a.row_spec() == b.row_spec() && a.col_spec() == b.col_spec()
}

} // verus!
