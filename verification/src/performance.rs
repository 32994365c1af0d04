//! The counts that the performance panel shows for the loaded tilemaps.

use vstd::prelude::*;

verus! {

/// The sum of the values.
pub open spec fn sum_of(s: Seq<usize>) -> int
    decreases s.len(),
{
    if s.len() == 0 {
        0
    } else {
        sum_of(s.drop_last()) + s.last()
    }
}

/// The sum of a prefix lies between zero and the whole sum.
pub proof fn lemma_sum_of_prefix(s: Seq<usize>, i: int)
    requires
        0 <= i <= s.len(),
    ensures
        0 <= sum_of(s.subrange(0, i)) <= sum_of(s),
    decreases s.len() - i,
{
    if i < s.len() {
        lemma_sum_of_prefix(s, i + 1);
        assert(s.subrange(0, i + 1).drop_last() =~= s.subrange(0, i));
    } else {
        assert(s.subrange(0, i) =~= s);
    }
    lemma_sum_of_nonnegative(s.subrange(0, i));
}

/// A sum of values is never negative.
pub proof fn lemma_sum_of_nonnegative(s: Seq<usize>)
    ensures
        sum_of(s) >= 0,
    decreases s.len(),
{
    if s.len() > 0 {
        lemma_sum_of_nonnegative(s.drop_last());
    }
}

/// Rendering and memory counts of the loaded tilemaps.
#[derive(Debug, Clone, Copy, PartialEq, Eq, Structural)]
pub struct TilemapCounts {
    /// One draw call per tilemap layer.
    pub draw_calls: usize,
    /// Tiles of all tilemaps.
    pub total_tiles: usize,
    /// Two triangles per tile.
    pub triangles: usize,
    /// Six vertices per tile.
    pub vertices: usize,
    /// About a hundred bytes of data per tile.
    pub tilemap_bytes: usize,
    /// About fifty bytes per collider.
    pub collider_bytes: usize,
}

/// Counts the draw calls, tiles, triangles, vertices and estimated bytes of
/// tilemaps with the given numbers of tiles, and of `collider_count`
/// colliders.
pub fn count_tilemaps(tiles_per_tilemap: &Vec<usize>, collider_count: usize) -> (c: TilemapCounts)
    requires
        sum_of(tiles_per_tilemap@) * 100 <= usize::MAX,
        collider_count * 50 <= usize::MAX,
    ensures
        c.draw_calls == tiles_per_tilemap@.len(),
        c.total_tiles == sum_of(tiles_per_tilemap@),
        c.triangles == 2 * sum_of(tiles_per_tilemap@),
        c.vertices == 6 * sum_of(tiles_per_tilemap@),
        c.tilemap_bytes == 100 * sum_of(tiles_per_tilemap@),
        c.collider_bytes == 50 * collider_count,
{
    let mut total: usize = 0;
    let mut i: usize = 0;
    while i < tiles_per_tilemap.len()
        invariant
            i <= tiles_per_tilemap@.len(),
            total == sum_of(tiles_per_tilemap@.subrange(0, i as int)),
            sum_of(tiles_per_tilemap@) * 100 <= usize::MAX,
        decreases tiles_per_tilemap@.len() - i,
    {
        proof {
            lemma_sum_of_prefix(tiles_per_tilemap@, i + 1);
            assert(tiles_per_tilemap@.subrange(0, i + 1).drop_last() =~= tiles_per_tilemap@.subrange(0, i as int));
        }
        total = total + tiles_per_tilemap[i];
        i += 1;
    }
    proof {
        assert(tiles_per_tilemap@.subrange(0, i as int) =~= tiles_per_tilemap@);
    }
    TilemapCounts {
        draw_calls: tiles_per_tilemap.len(),
        total_tiles: total,
        triangles: total * 2,
        vertices: total * 6,
        tilemap_bytes: total * 100,
        collider_bytes: collider_count * 50,
    }
}

} // verus!
