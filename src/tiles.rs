//! Tile extraction from an exemplar and the membership index over colors.

use vstd::prelude::*;

verus! {

/// A 3x3 tile; each cell holds a color value (1-based) or 0.
pub type Tile = [[usize; 3]; 3];

/// A 3x3 query window; 0 and -1 are wildcards, other values are colors.
pub type Pattern = [[i32; 3]; 3];

/// Two tiles hold the same value in every cell.
pub open spec fn same_tile(a: Tile, b: Tile) -> bool {
    forall|i: int, j: int| 0 <= i < 3 && 0 <= j < 3 ==> a[i][j] == b[i][j]
}

/// Cell-wise equality of tiles is equality.
pub proof fn lemma_same_tile_eq(a: Tile, b: Tile)
    requires
        same_tile(a, b),
    ensures
        a == b,
{
    assert(a[0] =~= b[0]);
    assert(a[1] =~= b[1]);
    assert(a[2] =~= b[2]);
    assert(a =~= b);
}

/// Quarter turn clockwise: `r[i][j] = t[2 - j][i]`.
pub open spec fn rotated(t: Tile) -> Tile {
    [[t[2][0], t[1][0], t[0][0]], [t[2][1], t[1][1], t[0][1]], [t[2][2], t[1][2], t[0][2]]]
}

/// Horizontal mirror: `r[i][j] = t[i][2 - j]`.
pub open spec fn reflected(t: Tile) -> Tile {
    [[t[0][2], t[0][1], t[0][0]], [t[1][2], t[1][1], t[1][0]], [t[2][2], t[2][1], t[2][0]]]
}

/// The tiles that one extracted window contributes, before deduplication.
pub open spec fn transforms(t: Tile, rotations: bool, reflections: bool) -> Seq<Tile> {
    let base = if rotations {
        seq![t, rotated(t), rotated(rotated(t)), rotated(rotated(rotated(t)))]
    } else {
        seq![t]
    };
    if reflections {
        base + base.map_values(|x: Tile| reflected(x))
    } else {
        base
    }
}

/// Value of the exemplar at `(r, c)`, or 0 outside it.
pub open spec fn source_at(source: Seq<Vec<usize>>, r: int, c: int) -> usize {
    if 0 <= r < source.len() && 0 <= c < source[r]@.len() {
        source[r]@[c]
    } else {
        0
    }
}

/// The 3x3 window of the exemplar whose top-left cell is `(r, c)`.
pub open spec fn window(source: Seq<Vec<usize>>, r: int, c: int) -> Tile {
    [
        [source_at(source, r, c), source_at(source, r, c + 1), source_at(source, r, c + 2)],
        [source_at(source, r + 1, c), source_at(source, r + 1, c + 1), source_at(source, r + 1, c + 2)],
        [source_at(source, r + 2, c), source_at(source, r + 2, c + 1), source_at(source, r + 2, c + 2)],
    ]
}

/// Number of window positions along an axis of length `n`.
pub open spec fn window_count(n: int) -> int {
    if n >= 3 {
        n - 2
    } else {
        1
    }
}

/// Width used for the window positions: the length of the first row.
pub open spec fn source_cols(source: Seq<Vec<usize>>) -> int {
    if source.len() > 0 {
        source[0]@.len() as int
    } else {
        0
    }
}

/// The window at `(r, c)` is one that extraction visits.
pub open spec fn window_position(source: Seq<Vec<usize>>, r: int, c: int) -> bool {
    0 <= r < window_count(source.len() as int) && 0 <= c < window_count(source_cols(source))
}

/// `t` is one of the tiles that extraction produces before deduplication.
pub open spec fn is_candidate(
    source: Seq<Vec<usize>>,
    rotations: bool,
    reflections: bool,
    t: Tile,
) -> bool {
    exists|r: int, c: int|
        window_position(source, r, c) && transforms(window(source, r, c), rotations, reflections).contains(t)
}

/// Tiles that the windows `(r, 0..n)` of one row contribute, in order.
pub open spec fn row_candidates(source: Seq<Vec<usize>>, rotations: bool, reflections: bool, r: int, n: int) -> Seq<Tile>
    decreases n,
{
    if n <= 0 {
        Seq::empty()
    } else {
        row_candidates(source, rotations, reflections, r, n - 1) + transforms(window(source, r, n - 1), rotations, reflections)
    }
}

/// Tiles that the windows of the first `m` rows contribute, in order.
pub open spec fn candidates_upto(source: Seq<Vec<usize>>, rotations: bool, reflections: bool, m: int) -> Seq<Tile>
    decreases m,
{
    if m <= 0 {
        Seq::empty()
    } else {
        candidates_upto(source, rotations, reflections, m - 1) + row_candidates(
            source,
            rotations,
            reflections,
            m - 1,
            window_count(source_cols(source)),
        )
    }
}

/// Every tile that extraction produces, row-major over the windows, each
/// window followed by its transforms, before deduplication.
pub open spec fn candidate_seq(source: Seq<Vec<usize>>, rotations: bool, reflections: bool) -> Seq<Tile> {
    candidates_upto(source, rotations, reflections, window_count(source.len() as int))
}

/// The first occurrence of each tile, in order.
pub open spec fn dedup(s: Seq<Tile>) -> Seq<Tile>
    decreases s.len(),
{
    if s.len() == 0 {
        s
    } else {
        let d = dedup(s.drop_last());
        if d.contains(s.last()) {
            d
        } else {
            d.push(s.last())
        }
    }
}

/// A sequence of tiles with no tile twice.
pub open spec fn distinct_tiles(s: Seq<Tile>) -> bool {
    forall|a: int, b: int| 0 <= a < b < s.len() ==> s[a] != s[b]
}

/// Whether color `v` occurs anywhere in a tile.
pub open spec fn tile_contains(t: Tile, v: int) -> bool {
    exists|i: int, j: int| 0 <= i < 3 && 0 <= j < 3 && t[i][j] == v
}

/// Whether color `v` occurs anywhere in a pattern.
pub open spec fn pattern_contains(p: Pattern, v: int) -> bool {
    exists|i: int, j: int| 0 <= i < 3 && 0 <= j < 3 && p[i][j] == v
}

/// Bit `k` of a mask, low bit first.
pub open spec fn mask_bit(m: nat, k: nat) -> bool
    decreases k,
{
    if k == 0 {
        m % 2 == 1
    } else {
        mask_bit(m / 2, (k - 1) as nat)
    }
}

/// `2^k`.
pub open spec fn two_pow(k: nat) -> nat
    decreases k,
{
    if k == 0 {
        1
    } else {
        2 * two_pow((k - 1) as nat)
    }
}

/// The mask whose bit `k` is set exactly where `b[k]` is 1.
pub open spec fn mask_of(b: Seq<u8>) -> nat
    decreases b.len(),
{
    if b.len() == 0 {
        0
    } else {
        (if b[0] == 1 { 1nat } else { 0nat }) + 2 * mask_of(b.drop_first())
    }
}

/// The membership flags of a pattern: flag `k` is 1 iff color `k + 1` occurs.
pub open spec fn membership_flags(p: Pattern, unique_cell_count: nat) -> Seq<u8> {
    Seq::new(unique_cell_count, |k: int| if pattern_contains(p, k + 1) { 1u8 } else { 0u8 })
}

/// Every color that mask `m` asks for occurs in the tile.
pub open spec fn tile_covers_mask(t: Tile, m: nat, unique_cell_count: nat) -> bool {
    forall|k: nat| k < unique_cell_count && mask_bit(m, k) ==> tile_contains(t, k as int + 1)
}

/// `ids` lists, in increasing order, the 1-based ids of the tiles that cover `m`.
pub open spec fn lists_covering(ids: Seq<usize>, tiles: Seq<Tile>, m: nat, u: nat) -> bool {
    &&& forall|a: int, b: int| 0 <= a < b < ids.len() ==> ids[a] < ids[b]
    &&& forall|a: int| 0 <= a < ids.len() ==> 1 <= #[trigger] ids[a] <= tiles.len()
    &&& forall|k: int|
        0 <= k < tiles.len() ==> (ids.contains((k + 1) as usize) <==> tile_covers_mask(
            #[trigger] tiles[k],
            m,
            u,
        ))
}

/// The index maps every mask over `u` colors to the tiles that cover it.
pub open spec fn index_wf(rules: Seq<Vec<usize>>, tiles: Seq<Tile>, u: nat) -> bool {
    &&& rules.len() == two_pow(u)
    &&& forall|m: int| 0 <= m < rules.len() ==> lists_covering(#[trigger] rules[m]@, tiles, m as nat, u)
}

/// Tile extractor holding the deduplicated tiles and the membership index.
pub struct TileExtractor {
    source_tiles: Vec<Tile>,
    source_tile_boolean_reference_rules: Vec<Vec<usize>>,
}

impl TileExtractor {
    /// The extracted tiles; tile id `k + 1` is entry `k`.
    pub closed spec fn tiles(&self) -> Seq<Tile> {
        self.source_tiles@
    }

    /// The membership index, one list per mask.
    pub closed spec fn rules(&self) -> Seq<Vec<usize>> {
        self.source_tile_boolean_reference_rules@
    }

    /// Extract every 3x3 window of `source_data` (rows of colors), optionally
    /// adding its rotations and reflections, without repeats.
    pub fn extract_tiles(
        source_data: &Vec<Vec<usize>>,
        tile_size: usize,
        include_rotations: bool,
        include_reflections: bool,
    ) -> (r: Self)
        requires
            tile_size == 3,
        ensures
            r.tiles() == dedup(candidate_seq(source_data@, include_rotations, include_reflections)),
            distinct_tiles(r.tiles()),
            forall|t: Tile| r.tiles().contains(t) <==> is_candidate(
                source_data@,
                include_rotations,
                include_reflections,
                t,
            ),
            r.rules().len() == 0,
    {
        let rows = source_data.len();
        let cols: usize = if rows > 0 {
            source_data[0].len()
        } else {
            0
        };
        let row_count: usize = if rows >= tile_size {
            rows - tile_size + 1
        } else {
            1
        };
        let col_count: usize = if cols >= tile_size {
            cols - tile_size + 1
        } else {
            1
        };
        let mut all: Vec<Tile> = Vec::new();
        let mut i: usize = 0;
        while i < row_count
            invariant
                tile_size == 3,
                rows == source_data@.len(),
                cols == source_cols(source_data@),
                row_count == window_count(rows as int),
                col_count == window_count(cols as int),
                i <= row_count,
                all@ == candidates_upto(source_data@, include_rotations, include_reflections, i as int),
                forall|t: Tile|
                    all@.contains(t) ==> is_candidate(
                        source_data@,
                        include_rotations,
                        include_reflections,
                        t,
                    ),
                forall|a: int, c: int, t: Tile|
                    0 <= a < i && 0 <= c < col_count && transforms(
                        window(source_data@, a, c),
                        include_rotations,
                        include_reflections,
                    ).contains(t) ==> all@.contains(t),
            decreases row_count - i,
        {
            let mut j: usize = 0;
            while j < col_count
                invariant
                    tile_size == 3,
                    rows == source_data@.len(),
                    cols == source_cols(source_data@),
                    row_count == window_count(rows as int),
                    col_count == window_count(cols as int),
                    i < row_count,
                    j <= col_count,
                    all@ == candidates_upto(source_data@, include_rotations, include_reflections, i as int)
                        + row_candidates(source_data@, include_rotations, include_reflections, i as int, j as int),
                    forall|t: Tile|
                        all@.contains(t) ==> is_candidate(
                            source_data@,
                            include_rotations,
                            include_reflections,
                            t,
                        ),
                    forall|a: int, c: int, t: Tile|
                        ((0 <= a < i && 0 <= c < col_count) || (a == i && 0 <= c < j))
                            && transforms(
                            window(source_data@, a, c),
                            include_rotations,
                            include_reflections,
                        ).contains(t) ==> all@.contains(t),
                decreases col_count - j,
            {
                let tile = read_window(source_data, i, j);
                let group = transform_group(&tile, include_rotations, include_reflections);
                let ghost prev = all@;
                let mut k: usize = 0;
                while k < group.len()
                    invariant
                        group@ == transforms(tile, include_rotations, include_reflections),
                        tile == window(source_data@, i as int, j as int),
                        window_position(source_data@, i as int, j as int),
                        k <= group.len(),
                        all@ == prev + group@.take(k as int),
                    decreases group.len() - k,
                {
                    all.push(group[k]);
                    assert(group@.take(k + 1) == group@.take(k as int).push(group@[k as int]));
                    k = k + 1;
                }
                assert(group@.take(group.len() as int) == group@);
                assert(all@ =~= candidates_upto(source_data@, include_rotations, include_reflections, i as int)
                    + row_candidates(source_data@, include_rotations, include_reflections, i as int, j + 1));
                assert forall|t: Tile| all@.contains(t) implies is_candidate(
                    source_data@,
                    include_rotations,
                    include_reflections,
                    t,
                ) by {
                    let x = choose|x: int| 0 <= x < all@.len() && all@[x] == t;
                    if x >= prev.len() {
                        assert(group@[x - prev.len()] == t);
                        assert(group@.contains(t));
                    } else {
                        assert(prev[x] == t);
                        assert(prev.contains(t));
                    }
                }
                assert forall|a: int, c: int, t: Tile|
                    ((0 <= a < i && 0 <= c < col_count) || (a == i && 0 <= c < j + 1))
                        && transforms(
                        window(source_data@, a, c),
                        include_rotations,
                        include_reflections,
                    ).contains(t) implies all@.contains(t) by {
                    if a == i && c == j {
                        let y = choose|y: int| 0 <= y < group@.len() && group@[y] == t;
                        assert(all@[prev.len() + y] == t);
                    } else {
                        let x = choose|x: int| 0 <= x < prev.len() && prev[x] == t;
                        assert(all@[x] == t);
                    }
                }
                j = j + 1;
            }
            i = i + 1;
        }
        let unique = Self::deduplicate_tiles(all);
        assert(all@ == candidate_seq(source_data@, include_rotations, include_reflections));
        TileExtractor { source_tiles: unique, source_tile_boolean_reference_rules: Vec::new() }
    }

    /// An extractor holding the given tiles, without an index yet.
    pub fn from_tiles(tiles: Vec<Tile>) -> (r: Self)
        ensures
            r.tiles() == tiles@,
            r.rules().len() == 0,
    {
        TileExtractor { source_tiles: tiles, source_tile_boolean_reference_rules: Vec::new() }
    }

    /// Quarter turn clockwise.
    pub fn rotate_90(tile: &Tile) -> (r: Tile)
        ensures
            r == rotated(*tile),
    {
        [
            [tile[2][0], tile[1][0], tile[0][0]],
            [tile[2][1], tile[1][1], tile[0][1]],
            [tile[2][2], tile[1][2], tile[0][2]],
        ]
    }

    /// Horizontal mirror.
    pub fn reflect(tile: &Tile) -> (r: Tile)
        ensures
            r == reflected(*tile),
    {
        [
            [tile[0][2], tile[0][1], tile[0][0]],
            [tile[1][2], tile[1][1], tile[1][0]],
            [tile[2][2], tile[2][1], tile[2][0]],
        ]
    }

    /// Keep the first occurrence of each tile, in order.
    pub fn deduplicate_tiles(tiles: Vec<Tile>) -> (r: Vec<Tile>)
        ensures
            r@ == dedup(tiles@),
            distinct_tiles(r@),
            forall|t: Tile| r@.contains(t) <==> tiles@.contains(t),
    {
        let mut unique: Vec<Tile> = Vec::new();
        let mut i: usize = 0;
        while i < tiles.len()
            invariant
                i <= tiles.len(),
                unique@ == dedup(tiles@.take(i as int)),
                distinct_tiles(unique@),
                forall|t: Tile| unique@.contains(t) <==> tiles@.take(i as int).contains(t),
            decreases tiles.len() - i,
        {
            let tile = tiles[i];
            let mut seen = false;
            let mut k: usize = 0;
            while k < unique.len()
                invariant
                    k <= unique.len(),
                    i < tiles.len(),
                    tile == tiles@[i as int],
                    unique@ == dedup(tiles@.take(i as int)),
                    distinct_tiles(unique@),
                    forall|t: Tile| unique@.contains(t) <==> tiles@.take(i as int).contains(t),
                    seen == (exists|x: int| 0 <= x < k && unique@[x] == tile),
                decreases unique.len() - k,
            {
                if tiles_equal(&unique[k], &tile) {
                    seen = true;
                }
                k = k + 1;
            }
            let ghost pre = tiles@.take(i as int);
            let ghost post = tiles@.take(i + 1);
            assert(post == pre.push(tile));
            assert(post.drop_last() =~= pre);
            assert(seen == unique@.contains(tile));
            if !seen {
                let ghost old_u = unique@;
                unique.push(tile);
                assert forall|a: int, b: int| 0 <= a < b < unique@.len() implies unique@[a]
                    != unique@[b] by {
                    if b == unique@.len() - 1 {
                        assert(unique@[a] == old_u[a]);
                    }
                }
                assert forall|t: Tile| unique@.contains(t) <==> post.contains(t) by {
                    if post.contains(t) && t != tile {
                        let x = choose|x: int| 0 <= x < i + 1 && post[x] == t;
                        assert(pre[x] == t);
                        assert(pre.contains(t));
                        assert(tiles@.take(i as int).contains(t));
                        assert(old_u.contains(t));
                        let y = choose|y: int| 0 <= y < old_u.len() && old_u[y] == t;
                        assert(unique@[y] == t);
                    }
                    if unique@.contains(t) && t != tile {
                        let x = choose|x: int| 0 <= x < unique@.len() && unique@[x] == t;
                        assert(old_u[x] == t);
                        assert(old_u.contains(t));
                        let y = choose|y: int| 0 <= y < pre.len() && pre[y] == t;
                        assert(post[y] == t);
                    }
                    if t == tile {
                        assert(unique@[unique@.len() - 1] == tile);
                        assert(post[i as int] == tile);
                    }
                }
            } else {
                assert forall|t: Tile| unique@.contains(t) <==> post.contains(t) by {
                    if post.contains(t) && t != tile {
                        let x = choose|x: int| 0 <= x < i + 1 && post[x] == t;
                        assert(pre[x] == t);
                    }
                    if t == tile {
                        assert(post[i as int] == tile);
                    }
                    if pre.contains(t) {
                        let x = choose|x: int| 0 <= x < i && pre[x] == t;
                        assert(post[x] == t);
                    }
                }
            }
            i = i + 1;
        }
        assert(tiles@.take(tiles.len() as int) == tiles@);
        unique
    }

    /// Build the membership index over `unique_cell_count` colors: for every
    /// mask `m` below `2^unique_cell_count`, entry `m` lists (1-based, in
    /// increasing order) the tiles that hold every color whose bit is set.
    pub fn build_boolean_reference_rules(&mut self, unique_cell_count: usize)
        requires
            two_pow(unique_cell_count as nat) <= usize::MAX,
        ensures
            final(self).tiles() == old(self).tiles(),
            index_wf(final(self).rules(), final(self).tiles(), unique_cell_count as nat),
    {
        let total = power_of_two(unique_cell_count);
        let mut rules: Vec<Vec<usize>> = Vec::new();
        let mut m: usize = 0;
        while m < total
            invariant
                total == two_pow(unique_cell_count as nat),
                m <= total,
                rules.len() == m,
                forall|x: int|
                    0 <= x < m ==> lists_covering(
                        #[trigger] rules@[x]@,
                        self.source_tiles@,
                        x as nat,
                        unique_cell_count as nat,
                    ),
            decreases total - m,
        {
            let bits = mask_bits(m, unique_cell_count);
            let mut matching: Vec<usize> = Vec::new();
            let mut index: usize = 0;
            while index < self.source_tiles.len()
                invariant
                    bits@.len() == unique_cell_count,
                    forall|k: int| 0 <= k < unique_cell_count ==> bits@[k] == mask_bit(m as nat, k as nat),
                    index <= self.source_tiles.len(),
                    forall|a: int, b: int| 0 <= a < b < matching.len() ==> matching@[a] < matching@[b],
                    forall|a: int| 0 <= a < matching.len() ==> 1 <= #[trigger] matching@[a] <= index,
                    forall|k: int|
                        0 <= k < index ==> (matching@.contains((k + 1) as usize) <==> tile_covers_mask(
                            #[trigger] self.source_tiles@[k],
                            m as nat,
                            unique_cell_count as nat,
                        )),
                decreases self.source_tiles.len() - index,
            {
                let covers = covers_mask(&self.source_tiles[index], &bits);
                proof {
                    let t = self.source_tiles@[index as int];
                    if covers {
                        assert forall|c: nat| c < unique_cell_count && mask_bit(m as nat, c) implies tile_contains(
                            t,
                            c as int + 1,
                        ) by {
                            assert(bits@[c as int] == mask_bit(m as nat, c));
                        }
                    } else {
                        let c = choose|c: int| 0 <= c < bits@.len() && bits@[c] && !tile_contains(t, c + 1);
                        assert(mask_bit(m as nat, c as nat));
                    }
                    assert(covers == tile_covers_mask(t, m as nat, unique_cell_count as nat));
                }
                let ghost prev = matching@;
                if covers {
                    matching.push(index + 1);
                }
                assert forall|k: int|
                    0 <= k < index + 1 implies (matching@.contains((k + 1) as usize) <==> tile_covers_mask(
                        #[trigger] self.source_tiles@[k],
                        m as nat,
                        unique_cell_count as nat,
                    )) by {
                    if k < index {
                        if prev.contains((k + 1) as usize) {
                            let y = choose|y: int| 0 <= y < prev.len() && prev[y] == (k + 1) as usize;
                            assert(matching@[y] == prev[y]);
                        }
                        if matching@.contains((k + 1) as usize) {
                            let y = choose|y: int| 0 <= y < matching@.len() && matching@[y] == (k + 1) as usize;
                            if y < prev.len() {
                                assert(prev[y] == matching@[y]);
                            }
                        }
                    } else {
                        if covers {
                            assert(matching@[matching@.len() - 1] == index + 1);
                        } else {
                            if matching@.contains((k + 1) as usize) {
                                let y = choose|y: int| 0 <= y < matching@.len() && matching@[y] == (k + 1) as usize;
                                assert(matching@[y] <= index);
                            }
                        }
                    }
                }
                index = index + 1;
            }
            rules.push(matching);
            assert(rules@[m as int]@ == matching@);
            m = m + 1;
        }
        self.source_tile_boolean_reference_rules = rules;
    }

    /// Get all extracted source tiles.
    pub fn source_tiles(&self) -> (r: &[Tile])
        ensures
            r@ == self.tiles(),
    {
        self.source_tiles.as_slice()
    }

    /// The membership index: entry `m` lists the tiles that hold every color
    /// whose bit is set in `m`.
    pub fn get_boolean_reference_rules(&self) -> (r: &Vec<Vec<usize>>)
        ensures
            r@ == self.rules(),
    {
        &self.source_tile_boolean_reference_rules
    }
}

/// Cell-wise comparison of two tiles.
pub fn tiles_equal(a: &Tile, b: &Tile) -> (r: bool)
    ensures
        r == (*a == *b),
{
    let r = a[0][0] == b[0][0] && a[0][1] == b[0][1] && a[0][2] == b[0][2] && a[1][0] == b[1][0]
        && a[1][1] == b[1][1] && a[1][2] == b[1][2] && a[2][0] == b[2][0] && a[2][1] == b[2][1]
        && a[2][2] == b[2][2];
    proof {
        if r {
            lemma_same_tile_eq(*a, *b);
        }
    }
    r
}

/// The window of `source` whose top-left cell is `(r, c)`, with 0 outside.
fn read_window(source: &Vec<Vec<usize>>, r: usize, c: usize) -> (t: Tile)
    requires
        r + 2 < usize::MAX,
        c + 2 < usize::MAX,
    ensures
        t == window(source@, r as int, c as int),
{
    let t = [
        [cell_at(source, r, c), cell_at(source, r, c + 1), cell_at(source, r, c + 2)],
        [cell_at(source, r + 1, c), cell_at(source, r + 1, c + 1), cell_at(source, r + 1, c + 2)],
        [cell_at(source, r + 2, c), cell_at(source, r + 2, c + 1), cell_at(source, r + 2, c + 2)],
    ];
    proof {
        lemma_same_tile_eq(t, window(source@, r as int, c as int));
    }
    t
}

fn cell_at(source: &Vec<Vec<usize>>, r: usize, c: usize) -> (v: usize)
    ensures
        v == source_at(source@, r as int, c as int),
{
    if r < source.len() && c < source[r].len() {
        source[r][c]
    } else {
        0
    }
}

/// The tiles that one window contributes, in order.
fn transform_group(tile: &Tile, rotations: bool, reflections: bool) -> (r: Vec<Tile>)
    ensures
        r@ == transforms(*tile, rotations, reflections),
{
    let mut group: Vec<Tile> = Vec::new();
    group.push(*tile);
    if rotations {
        let r90 = TileExtractor::rotate_90(tile);
        let r180 = TileExtractor::rotate_90(&r90);
        let r270 = TileExtractor::rotate_90(&r180);
        group.push(r90);
        group.push(r180);
        group.push(r270);
    }
    let ghost base = group@;
    if reflections {
        let n = group.len();
        let mut k: usize = 0;
        while k < n
            invariant
                n == base.len(),
                k <= n,
                group@ == base + base.map_values(|x: Tile| reflected(x)).take(k as int),
            decreases n - k,
        {
            let m = TileExtractor::reflect(&group[k]);
            proof {
                assert(group@[k as int] == base[k as int]);
            }
            group.push(m);
            assert(base.map_values(|x: Tile| reflected(x)).take(k + 1) =~= base.map_values(
                |x: Tile| reflected(x),
            ).take(k as int).push(reflected(base[k as int])));
            k = k + 1;
        }
        assert(base.map_values(|x: Tile| reflected(x)).take(n as int) =~= base.map_values(
            |x: Tile| reflected(x),
        ));
    }
    proof {
        if rotations {
            assert(base =~= seq![*tile, rotated(*tile), rotated(rotated(*tile)), rotated(rotated(rotated(*tile)))]);
        } else {
            assert(base =~= seq![*tile]);
        }
    }
    group
}

/// `2^k` as a machine integer.
fn power_of_two(k: usize) -> (r: usize)
    requires
        two_pow(k as nat) <= usize::MAX,
    ensures
        r == two_pow(k as nat),
{
    let mut r: usize = 1;
    let mut i: usize = 0;
    while i < k
        invariant
            i <= k,
            r == two_pow(i as nat),
            two_pow(k as nat) <= usize::MAX,
        decreases k - i,
    {
        proof {
            lemma_two_pow_monotone((i + 1) as nat, k as nat);
        }
        r = r * 2;
        i = i + 1;
    }
    r
}

/// `2^a <= 2^b` when `a <= b`.
pub proof fn lemma_two_pow_monotone(a: nat, b: nat)
    requires
        a <= b,
    ensures
        two_pow(a) <= two_pow(b),
    decreases b,
{
    if a < b {
        lemma_two_pow_monotone(a, (b - 1) as nat);
    }
}

/// The first `count` bits of `m`, low bit first.
fn mask_bits(m: usize, count: usize) -> (r: Vec<bool>)
    ensures
        r@.len() == count,
        forall|k: int| 0 <= k < count ==> r@[k] == mask_bit(m as nat, k as nat),
{
    let mut bits: Vec<bool> = Vec::new();
    let mut rest: usize = m;
    let mut k: usize = 0;
    while k < count
        invariant
            k <= count,
            bits@.len() == k,
            forall|x: int| 0 <= x < k ==> bits@[x] == mask_bit(m as nat, x as nat),
            forall|j: nat| mask_bit(m as nat, (k + j) as nat) == #[trigger] mask_bit(rest as nat, j),
        decreases count - k,
    {
        assert(mask_bit(m as nat, (k + 0) as nat) == mask_bit(rest as nat, 0));
        bits.push(rest % 2 == 1);
        assert forall|j: nat| mask_bit(m as nat, (k + 1 + j) as nat) == #[trigger] mask_bit(
            (rest / 2) as nat,
            j,
        ) by {
            assert(mask_bit(m as nat, (k + (j + 1)) as nat) == mask_bit(rest as nat, j + 1));
        }
        rest = rest / 2;
        k = k + 1;
    }
    bits
}

/// Whether color `v` occurs in a tile.
fn tile_has_color(t: &Tile, v: usize) -> (r: bool)
    ensures
        r == tile_contains(*t, v as int),
{
    let mut i: usize = 0;
    while i < 3
        invariant
            i <= 3,
            forall|a: int, b: int| 0 <= a < i && 0 <= b < 3 ==> t[a][b] != v,
        decreases 3 - i,
    {
        let mut j: usize = 0;
        while j < 3
            invariant
                i < 3,
                j <= 3,
                forall|a: int, b: int| 0 <= a < i && 0 <= b < 3 ==> t[a][b] != v,
                forall|b: int| 0 <= b < j ==> t[i as int][b] != v,
            decreases 3 - j,
        {
            if t[i][j] == v {
                return true;
            }
            j = j + 1;
        }
        i = i + 1;
    }
    false
}

/// Whether the tile holds every color whose flag is set.
fn covers_mask(t: &Tile, bits: &Vec<bool>) -> (r: bool)
    ensures
        r == (forall|k: int| 0 <= k < bits@.len() && bits@[k] ==> tile_contains(*t, k + 1)),
{
    let mut k: usize = 0;
    while k < bits.len()
        invariant
            k <= bits.len(),
            forall|x: int| 0 <= x < k && bits@[x] ==> tile_contains(*t, x + 1),
        decreases bits.len() - k,
    {
        if bits[k] && !tile_has_color(t, k + 1) {
            return false;
        }
        k = k + 1;
    }
    true
}

/// Membership flags of a pattern: entry `k` is 1 iff color `k + 1` occurs in it.
pub fn convert_tile_to_membership_booleans(tile: &Pattern, unique_cell_count: usize) -> (r: Vec<u8>)
    ensures
        r@ == membership_flags(*tile, unique_cell_count as nat),
{
    let mut flags: Vec<u8> = Vec::new();
    let mut k: usize = 0;
    while k < unique_cell_count
        invariant
            k <= unique_cell_count,
            flags@ == membership_flags(*tile, unique_cell_count as nat).take(k as int),
        decreases unique_cell_count - k,
    {
        let mut found = false;
        let mut i: usize = 0;
        while i < 3
            invariant
                i <= 3,
                k < unique_cell_count,
                found == (exists|a: int, b: int| 0 <= a < i && 0 <= b < 3 && tile[a][b] == k + 1),
            decreases 3 - i,
        {
            let mut j: usize = 0;
            while j < 3
                invariant
                    i < 3,
                    j <= 3,
                    k < unique_cell_count,
                    found == (exists|a: int, b: int|
                        (0 <= a < i && 0 <= b < 3 || a == i && 0 <= b < j) && tile[a][b] == k + 1),
                decreases 3 - j,
            {
                let val = tile[i][j];
                if val > 0 && val as usize == k + 1 {
                    found = true;
                }
                j = j + 1;
            }
            i = i + 1;
        }
        flags.push(if found { 1u8 } else { 0u8 });
        assert(membership_flags(*tile, unique_cell_count as nat).take(k + 1) =~= membership_flags(
            *tile,
            unique_cell_count as nat,
        ).take(k as int).push(if found { 1u8 } else { 0u8 }));
        k = k + 1;
    }
    flags
}

/// Position in the membership index of a flag vector: `sum flags[k] * 2^k`.
pub fn membership_index(flags: &Vec<u8>) -> (r: usize)
    requires
        two_pow(flags@.len()) <= usize::MAX,
    ensures
        r == mask_of(flags@),
        r < two_pow(flags@.len()),
{
    let n = flags.len();
    let mut acc: usize = 0;
    let mut k: usize = n;
    while k > 0
        invariant
            k <= n,
            n == flags@.len(),
            two_pow(n as nat) <= usize::MAX,
            acc == mask_of(flags@.subrange(k as int, n as int)),
            acc < two_pow((n - k) as nat),
        decreases k,
    {
        k = k - 1;
        assert(flags@.subrange(k as int, n as int).drop_first() =~= flags@.subrange(k + 1, n as int));
        proof {
            lemma_two_pow_monotone((n - k) as nat, n as nat);
        }
        acc = acc * 2 + if flags[k] == 1 { 1 } else { 0 };
    }
    assert(flags@.subrange(0, n as int) =~= flags@);
    acc
}

/// Bit `k` of `mask_of(b)` is set exactly when `b[k]` is 1.
pub proof fn lemma_mask_of_bit(b: Seq<u8>, k: nat)
    requires
        k < b.len(),
    ensures
        mask_bit(mask_of(b), k) == (b[k as int] == 1),
    decreases k,
{
    if k > 0 {
        assert(mask_of(b) / 2 == mask_of(b.drop_first()));
        lemma_mask_of_bit(b.drop_first(), (k - 1) as nat);
    }
}

/// `t` fits the pattern: each cell of the pattern is a wildcard (0 or -1)
/// or equals the tile's cell.
pub open spec fn pattern_matches(p: Pattern, t: Tile) -> bool {
    forall|i: int, j: int|
        0 <= i < 3 && 0 <= j < 3 ==> (p[i][j] == 0 || p[i][j] == -1 || p[i][j] == clamp_i32(
            t[i][j],
        ))
}

/// A tile value as compared against a pattern cell: values past `i32::MAX`
/// compare as `i32::MAX`.
pub open spec fn clamp_i32(v: usize) -> i32 {
    if v <= i32::MAX {
        v as i32
    } else {
        i32::MAX
    }
}

/// The membership index is complete: for any 3x3 pattern, the list stored
/// under the pattern's membership mask names every tile that fits the pattern.
pub proof fn lemma_index_lists_every_match(
    rules: Seq<Vec<usize>>,
    tiles: Seq<Tile>,
    unique_cell_count: nat,
    p: Pattern,
    k: int,
)
    requires
        index_wf(rules, tiles, unique_cell_count),
        0 <= k < tiles.len(),
        pattern_matches(p, tiles[k]),
        forall|i: int, j: int| 0 <= i < 3 && 0 <= j < 3 ==> tiles[k][i][j] <= i32::MAX,
    ensures
        mask_of(membership_flags(p, unique_cell_count)) < rules.len(),
        rules[mask_of(membership_flags(p, unique_cell_count)) as int]@.contains((k + 1) as usize),
{
    let flags = membership_flags(p, unique_cell_count);
    let m = mask_of(flags);
    lemma_mask_of_below(flags);
    assert forall|c: nat| c < unique_cell_count && mask_bit(m, c) implies tile_contains(
        tiles[k],
        c as int + 1,
    ) by {
        lemma_mask_of_bit(flags, c);
        let (i, j) = choose|i: int, j: int| 0 <= i < 3 && 0 <= j < 3 && p[i][j] == c as int + 1;
        assert(p[i][j] == clamp_i32(tiles[k][i][j]));
    }
    assert(lists_covering(rules[m as int]@, tiles, m, unique_cell_count));
}

/// `mask_of(b) < 2^|b|`.
pub proof fn lemma_mask_of_below(b: Seq<u8>)
    ensures
        mask_of(b) < two_pow(b.len()),
    decreases b.len(),
{
    if b.len() > 0 {
        lemma_mask_of_below(b.drop_first());
    }
}

} // verus!
