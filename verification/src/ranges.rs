//! Range partitioning and resume merging.
//!
//! A requested block interval `[start, end]` is split into fixed-size,
//! grid-aligned tiles. Segments persisted by a prior run are then
//! subtracted: a tile whose left edge is covered by a gapless chain of
//! completed segments contributes only its uncovered suffix; a tile whose
//! left edge is not covered is re-fetched whole. Only a contiguous prefix
//! anchored at the tile's left edge is ever detected as covered; coverage
//! that starts strictly inside a tile is deliberately ignored, so resume
//! detection stays a single monotone pass over a sorted segment list.

use vstd::arithmetic::div_mod::{
    lemma_div_is_ordered, lemma_fundamental_div_mod, lemma_fundamental_div_mod_converse_div,
    lemma_mod_bound,
};
use vstd::arithmetic::mul::{
    lemma_mul_inequality, lemma_mul_is_distributive_add, lemma_mul_nonnegative,
};
use vstd::prelude::*;

verus! {

/// Index of the first grid cell that intersects `[start, ..]`.
pub open spec fn grid_k0(start: u64, chunk: u64) -> int {
    start as int / chunk as int
}

/// Number of grid cells that intersect `[start, end]`.
pub open spec fn grid_len(start: u64, end: u64, chunk: u64) -> int {
    end as int / chunk as int - start as int / chunk as int + 1
}

/// Left edge of the `i`-th tile: the grid cell boundary, clipped to `start`.
pub open spec fn tile_lo(start: u64, chunk: u64, i: int) -> int {
    let base = chunk as int * (grid_k0(start, chunk) + i);
    if base > start as int {
        base
    } else {
        start as int
    }
}

/// Right edge of the `i`-th tile: the last block of the grid cell, clipped to `end`.
pub open spec fn tile_hi(start: u64, end: u64, chunk: u64, i: int) -> int {
    let cap = chunk as int * (grid_k0(start, chunk) + i) + chunk as int - 1;
    if cap < end as int {
        cap
    } else {
        end as int
    }
}

/// The full grid: one inclusive tile per grid cell intersecting `[start, end]`.
pub open spec fn spec_grid(start: u64, end: u64, chunk: u64) -> Seq<(u64, u64)> {
    Seq::new(
        grid_len(start, end, chunk) as nat,
        |i: int| (tile_lo(start, chunk, i) as u64, tile_hi(start, end, chunk, i) as u64),
    )
}

/// `chunk * k` stays at or below `end` whenever `k` is at most `end / chunk`.
proof fn lemma_cell_base_le(end: u64, chunk: u64, k: int)
    requires
        1 <= chunk,
        0 <= k <= end as int / chunk as int,
    ensures
        chunk as int * k <= end as int,
{
    lemma_fundamental_div_mod(end as int, chunk as int);
    lemma_mod_bound(end as int, chunk as int);
    lemma_mul_inequality(k, end as int / chunk as int, chunk as int);
}

/// The `i`-th tile, computed without overflow.
fn tile_at(start: u64, end: u64, chunk_size: u64, k: u64) -> (t: (u64, u64))
    requires
        1 <= chunk_size,
        start <= end,
        start / chunk_size <= k <= end / chunk_size,
    ensures
        t.0 as int == tile_lo(start, chunk_size, k as int - grid_k0(start, chunk_size)),
        t.1 as int == tile_hi(start, end, chunk_size, k as int - grid_k0(start, chunk_size)),
{
    proof {
        lemma_cell_base_le(end, chunk_size, k as int);
    }
    let base = chunk_size * k;
    let lo = if base > start {
        base
    } else {
        start
    };
    let hi = if end - base >= chunk_size - 1 {
        base + (chunk_size - 1)
    } else {
        end
    };
    (lo, hi)
}

/// Splits `[start, end]` into its grid tiles, in increasing order.
pub fn compute_grid(start: u64, end: u64, chunk_size: u64) -> (tiles: Vec<(u64, u64)>)
    requires
        1 <= chunk_size,
        start <= end,
    ensures
        tiles@ == spec_grid(start, end, chunk_size),
{
    let k0 = start / chunk_size;
    let k_end = end / chunk_size;
    proof {
        lemma_div_is_ordered(start as int, end as int, chunk_size as int);
    }
    let mut tiles: Vec<(u64, u64)> = Vec::new();
    let mut k = k0;
    while k < k_end
        invariant
            1 <= chunk_size,
            start <= end,
            k0 == start / chunk_size,
            k_end == end / chunk_size,
            k0 <= k <= k_end,
            tiles@.len() == k - k0,
            forall|i: int|
                0 <= i < tiles@.len() ==> tiles@[i] == spec_grid(start, end, chunk_size)[i],
        decreases k_end - k,
    {
        let t = tile_at(start, end, chunk_size, k);
        tiles.push(t);
        k = k + 1;
    }
    let t = tile_at(start, end, chunk_size, k_end);
    tiles.push(t);
    proof {
        assert(tiles@ =~= spec_grid(start, end, chunk_size));
    }
    tiles
}

/// Order for completed segments: start ascending, then end descending, so
/// equal left edges put the longest segment first.
pub open spec fn seg_le(a: (u64, u64), b: (u64, u64)) -> bool {
    a.0 < b.0 || (a.0 == b.0 && a.1 >= b.1)
}

pub open spec fn segments_sorted(s: Seq<(u64, u64)>) -> bool {
    forall|i: int, j: int| 0 <= i < j < s.len() ==> seg_le(#[trigger] s[i], #[trigger] s[j])
}

/// First cursor position at or after `c` whose segment does not start
/// before `left`.
pub open spec fn advance_cursor(seen: Seq<(u64, u64)>, c: int, left: u64) -> int
    decreases seen.len() - c,
{
    if 0 <= c && c < seen.len() && seen[c].0 < left {
        advance_cursor(seen, c + 1, left)
    } else {
        c
    }
}

/// Last segment of the gapless chain that begins at cursor `c`: each next
/// segment must start exactly one block after the previous one ends, and
/// still start inside the tile (at or before `right`).
pub open spec fn extend_cursor(seen: Seq<(u64, u64)>, c: int, right: u64) -> int
    decreases seen.len() - c,
{
    if 0 <= c && c + 1 < seen.len() && seen[c].1 + 1 == seen[c + 1].0 && seen[c + 1].0
        <= right {
        extend_cursor(seen, c + 1, right)
    } else {
        c
    }
}

/// The pending segments of `tiles[t..]`, walking the completed list from
/// cursor `c`. For each tile in order: if no completed segment starts
/// exactly at the tile's left edge, the whole tile is pending; otherwise
/// the covered prefix is extended across the gapless chain, and only the
/// suffix after it (if any) is pending.
pub open spec fn spec_pending(
    tiles: Seq<(u64, u64)>,
    seen: Seq<(u64, u64)>,
    t: int,
    c: int,
) -> Seq<(u64, u64)>
    decreases tiles.len() - t,
{
    if !(0 <= t && t < tiles.len()) {
        Seq::empty()
    } else {
        let left = tiles[t].0;
        let right = tiles[t].1;
        let c1 = advance_cursor(seen, c, left);
        if 0 <= c1 && c1 < seen.len() && seen[c1].0 == left {
            let c2 = extend_cursor(seen, c1, right);
            let rest = spec_pending(tiles, seen, t + 1, c2);
            if seen[c2].1 < right {
                seq![((seen[c2].1 + 1) as u64, right)] + rest
            } else {
                rest
            }
        } else {
            seq![tiles[t]] + spec_pending(tiles, seen, t + 1, c1)
        }
    }
}

/// Arithmetic facts about one tile, stated over the raw edge functions.
proof fn lemma_tile_edges(start: u64, end: u64, chunk: u64, i: int)
    requires
        1 <= chunk,
        start <= end,
        0 <= i < grid_len(start, end, chunk),
    ensures
        start as int <= tile_lo(start, chunk, i),
        tile_lo(start, chunk, i) <= tile_hi(start, end, chunk, i),
        tile_hi(start, end, chunk, i) <= end as int,
        i == 0 ==> tile_lo(start, chunk, i) == start as int,
        i >= 1 ==> tile_lo(start, chunk, i) == chunk as int * (grid_k0(start, chunk) + i),
        i == grid_len(start, end, chunk) - 1 ==> tile_hi(start, end, chunk, i) == end as int,
        i < grid_len(start, end, chunk) - 1 ==> tile_hi(start, end, chunk, i) == chunk as int * (
        grid_k0(start, chunk) + i) + chunk as int - 1,
{
    let c = chunk as int;
    let k0 = grid_k0(start, chunk);
    let kend = end as int / c;
    lemma_fundamental_div_mod(start as int, c);
    lemma_mod_bound(start as int, c);
    lemma_fundamental_div_mod(end as int, c);
    lemma_mod_bound(end as int, c);
    lemma_div_is_ordered(start as int, end as int, c);
    lemma_mul_is_distributive_add(c, k0, i);
    lemma_mul_nonnegative(c, i);
    if i >= 1 {
        lemma_mul_inequality(1, i, c);
    }
    lemma_cell_base_le(end, chunk, k0 + i);
    if i < grid_len(start, end, chunk) - 1 {
        lemma_mul_is_distributive_add(c, k0 + i, 1);
        lemma_mul_inequality(k0 + i + 1, kend, c);
    }
}

/// Grid shape: tiles are nonempty, lie inside `[start, end]`, begin at
/// `start`, end at `end`, and are contiguous.
pub proof fn lemma_grid_shape(start: u64, end: u64, chunk: u64)
    requires
        1 <= chunk,
        start <= end,
    ensures
        spec_grid(start, end, chunk).len() == grid_len(start, end, chunk),
        spec_grid(start, end, chunk).len() >= 1,
        spec_grid(start, end, chunk)[0].0 == start,
        spec_grid(start, end, chunk).last().1 == end,
        forall|i: int|
            0 <= i < spec_grid(start, end, chunk).len() ==> (#[trigger] spec_grid(
                start,
                end,
                chunk,
            )[i]).0 <= spec_grid(start, end, chunk)[i].1,
        forall|i: int|
            0 <= i < spec_grid(start, end, chunk).len() ==> start <= (#[trigger] spec_grid(
                start,
                end,
                chunk,
            )[i]).0 && spec_grid(start, end, chunk)[i].1 <= end,
        forall|i: int|
            0 <= i < spec_grid(start, end, chunk).len() - 1 ==> (#[trigger] spec_grid(
                start,
                end,
                chunk,
            )[i + 1]).0 == spec_grid(start, end, chunk)[i].1 + 1,
{
    let g = spec_grid(start, end, chunk);
    lemma_div_is_ordered(start as int, end as int, chunk as int);
    assert forall|i: int| 0 <= i < g.len() implies (#[trigger] g[i]).0 <= g[i].1 && start <= g[i].0
        && g[i].1 <= end by {
        lemma_tile_edges(start, end, chunk, i);
    }
    assert forall|i: int| 0 <= i < g.len() - 1 implies (#[trigger] g[i + 1]).0 == g[i].1 + 1 by {
        lemma_tile_edges(start, end, chunk, i);
        lemma_tile_edges(start, end, chunk, i + 1);
        lemma_mul_is_distributive_add(chunk as int, grid_k0(start, chunk) + i, 1);
    }
    lemma_tile_edges(start, end, chunk, 0);
    lemma_tile_edges(start, end, chunk, g.len() - 1);
}

/// Tiles are pairwise disjoint: an earlier tile ends strictly before a
/// later tile begins.
pub proof fn lemma_grid_disjoint(start: u64, end: u64, chunk: u64)
    requires
        1 <= chunk,
        start <= end,
    ensures
        forall|i: int, j: int|
            0 <= i < j < spec_grid(start, end, chunk).len() ==> (#[trigger] spec_grid(
                start,
                end,
                chunk,
            )[i]).1 < (#[trigger] spec_grid(start, end, chunk)[j]).0,
{
    let g = spec_grid(start, end, chunk);
    let c = chunk as int;
    let k0 = grid_k0(start, chunk);
    lemma_div_is_ordered(start as int, end as int, c);
    assert forall|i: int, j: int| 0 <= i < j < g.len() implies (#[trigger] g[i]).1
        < (#[trigger] g[j]).0 by {
        lemma_tile_edges(start, end, chunk, i);
        lemma_tile_edges(start, end, chunk, j);
        lemma_mul_is_distributive_add(c, k0 + i, 1);
        lemma_mul_inequality(k0 + i + 1, k0 + j, c);
        assert(tile_hi(start, end, chunk, i) <= c * (k0 + i) + c - 1);
        assert(tile_lo(start, chunk, j) >= c * (k0 + j));
    }
}

/// Every block of `[start, end]` lies in some tile. Together with the
/// bounds of `lemma_grid_shape` (each tile lies inside `[start, end]`),
/// the union of the grid is exactly the requested interval.
pub proof fn lemma_grid_covers(start: u64, end: u64, chunk: u64, b: u64)
    requires
        1 <= chunk,
        start <= b <= end,
    ensures
        exists|i: int|
            0 <= i < spec_grid(start, end, chunk).len() && (#[trigger] spec_grid(
                start,
                end,
                chunk,
            )[i]).0 <= b <= spec_grid(start, end, chunk)[i].1,
{
    let g = spec_grid(start, end, chunk);
    let c = chunk as int;
    let k0 = grid_k0(start, chunk);
    let kb = b as int / c;
    let i = kb - k0;
    lemma_div_is_ordered(start as int, b as int, c);
    lemma_div_is_ordered(b as int, end as int, c);
    lemma_fundamental_div_mod(b as int, c);
    lemma_mod_bound(b as int, c);
    lemma_tile_edges(start, end, chunk, i);
    assert(c * (k0 + i) == c * kb);
    assert(g[i].0 <= b <= g[i].1);
}

/// When `start` sits on a grid boundary, the tile count is exactly the
/// ceiling of the interval length over the chunk size:
/// `(end - start + chunk) / chunk == ceil((end - start + 1) / chunk)`.
pub proof fn lemma_grid_count_aligned(start: u64, end: u64, chunk: u64)
    requires
        1 <= chunk,
        start <= end,
        start % chunk == 0,
    ensures
        grid_len(start, end, chunk) == (end as int - start as int + chunk as int) / chunk as int,
{
    let c = chunk as int;
    let d = end as int - start as int;
    let q0 = start as int / c;
    lemma_fundamental_div_mod(start as int, c);
    lemma_fundamental_div_mod(d, c);
    lemma_mod_bound(d, c);
    lemma_mul_is_distributive_add(c, q0, d / c);
    lemma_fundamental_div_mod_converse_div(end as int, c, q0 + d / c, d % c);
    lemma_mul_is_distributive_add(c, d / c, 1);
    lemma_fundamental_div_mod_converse_div(d + c, c, d / c + 1, d % c);
}

/// `seg_le` is total: any two segments compare one way or the other.
proof fn lemma_seg_le_total(a: (u64, u64), b: (u64, u64))
    ensures
        seg_le(a, b) || seg_le(b, a),
{
}

/// Sorts completed segments by start ascending, then end descending, so a
/// later pass sees, for each left edge, the longest segment first. The
/// output is the unique `seg_le`-sorted rearrangement of the input.
pub fn sort_segments(v: &mut Vec<(u64, u64)>)
    ensures
        final(v)@.to_multiset() == old(v)@.to_multiset(),
        segments_sorted(final(v)@),
        final(v)@.len() == old(v)@.len(),
{
    let ghost orig: Seq<(u64, u64)> = v@;
    let mut result: Vec<(u64, u64)> = Vec::new();
    let mut i: usize = 0;
    proof {
        assert(orig.take(0) =~= Seq::empty());
        assert(result@.to_multiset() =~= orig.take(0).to_multiset());
    }
    while i < v.len()
        invariant
            0 <= i <= v@.len(),
            v@ == orig,
            result@.len() == i,
            segments_sorted(result@),
            result@.to_multiset() == orig.take(i as int).to_multiset(),
        decreases v@.len() - i,
    {
        let x = v[i];
        let mut j: usize = result.len();
        while j > 0 && !(result[j - 1].0 < x.0 || (result[j - 1].0 == x.0 && result[j - 1].1
            >= x.1))
            invariant
                0 <= j <= result@.len(),
                forall|m: int| j <= m < result@.len() ==> !seg_le(#[trigger] result@[m], x),
            decreases j,
        {
            j = j - 1;
        }
        proof {
            assert forall|m: int| 0 <= m < j implies seg_le(#[trigger] result@[m], x) by {
                assert(seg_le(result@[m], result@[j - 1]) || m == j - 1);
            }
            assert forall|m: int| j <= m < result@.len() implies seg_le(
                x,
                #[trigger] result@[m],
            ) by {
                lemma_seg_le_total(result@[m], x);
            }
        }
        let ghost before: Seq<(u64, u64)> = result@;
        result.insert(j, x);
        i = i + 1;
        proof {
            assert(orig.take(i as int) =~= orig.take(i - 1).push(x));
            assert(result@ == before.insert(j as int, x));
            vstd::seq_lib::to_multiset_insert(before, j as int, x);
            vstd::seq_lib::to_multiset_build(orig.take(i - 1), x);
            assert(segments_sorted(result@)) by {
                assert(forall|m: int|
                    0 <= m < result@.len() ==> result@[m] == (if m < j {
                        before[m]
                    } else if m == j {
                        x
                    } else {
                        before[m - 1]
                    }));
            }
        }
    }
    proof {
        assert(orig.take(v@.len() as int) =~= orig);
    }
    *v = result;
}

/// Subtracts completed coverage from each tile, in tile order, with a
/// single monotone cursor over `seen`, which must already be sorted by
/// `seg_le`. Sortedness is not required for the stated contract; it is
/// what makes the cursor walk meaningful to callers.
pub fn compute_pending(tiles: &Vec<(u64, u64)>, seen: &Vec<(u64, u64)>) -> (pending: Vec<
    (u64, u64),
>)
    ensures
        pending@ == spec_pending(tiles@, seen@, 0, 0),
{
    let mut pending: Vec<(u64, u64)> = Vec::new();
    let mut c: usize = 0;
    let mut t: usize = 0;
    proof {
        assert(pending@ + spec_pending(tiles@, seen@, 0, 0) =~= spec_pending(
            tiles@,
            seen@,
            0,
            0,
        ));
    }
    while t < tiles.len()
        invariant
            0 <= t <= tiles@.len(),
            0 <= c <= seen@.len(),
            spec_pending(tiles@, seen@, 0, 0) == pending@ + spec_pending(
                tiles@,
                seen@,
                t as int,
                c as int,
            ),
        decreases tiles@.len() - t,
    {
        let ghost t0: int = t as int;
        let ghost c_in: int = c as int;
        let ghost pend0: Seq<(u64, u64)> = pending@;
        let left = tiles[t].0;
        let right = tiles[t].1;
        while c < seen.len() && seen[c].0 < left
            invariant
                0 <= c <= seen@.len(),
                advance_cursor(seen@, c_in, left) == advance_cursor(seen@, c as int, left),
            decreases seen@.len() - c,
        {
            c = c + 1;
        }
        proof {
            assert(advance_cursor(seen@, c_in, left) == c as int);
        }
        let ghost emitted: Seq<(u64, u64)>;
        if c < seen.len() && seen[c].0 == left {
            let ghost c_mid: int = c as int;
            while c < seen.len() - 1 && seen[c].1 < seen[c + 1].0 && seen[c + 1].0 - seen[c].1
                == 1 && seen[c + 1].0 <= right
                invariant
                    0 <= c < seen@.len(),
                    extend_cursor(seen@, c_mid, right) == extend_cursor(seen@, c as int, right),
                decreases seen@.len() - c,
            {
                c = c + 1;
            }
            proof {
                assert(extend_cursor(seen@, c_mid, right) == c as int);
            }
            if seen[c].1 < right {
                pending.push((seen[c].1 + 1, right));
                proof {
                    emitted = seq![((seen@[c as int].1 + 1) as u64, right)];
                }
            } else {
                proof {
                    emitted = Seq::empty();
                }
            }
        } else {
            pending.push((left, right));
            proof {
                emitted = seq![(left, right)];
            }
        }
        t = t + 1;
        proof {
            assert(spec_pending(tiles@, seen@, t0, c_in) == emitted + spec_pending(
                tiles@,
                seen@,
                t as int,
                c as int,
            ));
            assert(pending@ =~= pend0 + emitted);
            assert(pend0 + (emitted + spec_pending(tiles@, seen@, t as int, c as int)) =~= (pend0
                + emitted) + spec_pending(tiles@, seen@, t as int, c as int));
        }
    }
    proof {
        assert(pending@ =~= spec_pending(tiles@, seen@, 0, 0));
    }
    pending
}

/// Contiguous, nonempty tiles have strictly increasing left edges.
proof fn lemma_starts_increase(tiles: Seq<(u64, u64)>, a: int, b: int)
    requires
        forall|i: int| 0 <= i < tiles.len() ==> (#[trigger] tiles[i]).0 <= tiles[i].1,
        forall|i: int|
            0 <= i < tiles.len() - 1 ==> (#[trigger] tiles[i + 1]).0 == tiles[i].1 + 1,
        0 <= a < b < tiles.len(),
    ensures
        tiles[a].0 < tiles[b].0,
    decreases b - a,
{
    assert(tiles[a + 1].0 == tiles[a].1 + 1);
    if a + 1 < b {
        lemma_starts_increase(tiles, a + 1, b);
    }
}

/// Walking the cursor forward over earlier tiles stops exactly at tile `t`.
proof fn lemma_advance_cursor_to(tiles: Seq<(u64, u64)>, c: int, t: int)
    requires
        forall|i: int| 0 <= i < tiles.len() ==> (#[trigger] tiles[i]).0 <= tiles[i].1,
        forall|i: int|
            0 <= i < tiles.len() - 1 ==> (#[trigger] tiles[i + 1]).0 == tiles[i].1 + 1,
        0 <= c <= t < tiles.len(),
    ensures
        advance_cursor(tiles, c, tiles[t].0) == t,
    decreases t - c,
{
    if c < t {
        lemma_starts_increase(tiles, c, t);
        lemma_advance_cursor_to(tiles, c + 1, t);
    }
}

/// Running the resume merge of a contiguous tile list against itself
/// leaves nothing pending: each tile is found anchored at its own left
/// edge and covered to its own right edge.
proof fn lemma_pending_self_from(tiles: Seq<(u64, u64)>, t: int, c: int)
    requires
        forall|i: int| 0 <= i < tiles.len() ==> (#[trigger] tiles[i]).0 <= tiles[i].1,
        forall|i: int|
            0 <= i < tiles.len() - 1 ==> (#[trigger] tiles[i + 1]).0 == tiles[i].1 + 1,
        0 <= c <= t <= tiles.len(),
    ensures
        spec_pending(tiles, tiles, t, c) == Seq::<(u64, u64)>::empty(),
    decreases tiles.len() - t,
{
    if t < tiles.len() {
        lemma_advance_cursor_to(tiles, c, t);
        assert(extend_cursor(tiles, t, tiles[t].1) == t);
        lemma_pending_self_from(tiles, t + 1, t);
    }
}

/// A rerun over the same interval with the same chunk size, resumed from
/// exactly the tiles a completed first run wrote, has nothing left to
/// fetch: the second run issues no queries at all.
pub proof fn lemma_rerun_is_empty(start: u64, end: u64, chunk: u64)
    requires
        1 <= chunk,
        start <= end,
    ensures
        spec_pending(spec_grid(start, end, chunk), spec_grid(start, end, chunk), 0, 0) == Seq::<
            (u64, u64),
        >::empty(),
{
    lemma_grid_shape(start, end, chunk);
    lemma_pending_self_from(spec_grid(start, end, chunk), 0, 0);
}

/// A well-formed work list: nonempty segments inside `[lo, hi]`, in
/// strictly increasing, pairwise disjoint order.
pub open spec fn ranges_well_formed(p: Seq<(u64, u64)>, lo: u64, hi: u64) -> bool {
    &&& forall|k: int|
        0 <= k < p.len() ==> lo <= (#[trigger] p[k]).0 && p[k].0 <= p[k].1 && p[k].1 <= hi
    &&& forall|k1: int, k2: int|
        0 <= k1 < k2 < p.len() ==> (#[trigger] p[k1]).1 < (#[trigger] p[k2]).0
}

/// Over nonempty segments, the chain never moves the cursor back and only
/// grows the covered end.
proof fn lemma_extend_cursor_grows(seen: Seq<(u64, u64)>, c: int, right: u64)
    requires
        0 <= c < seen.len(),
        forall|i: int| 0 <= i < seen.len() ==> (#[trigger] seen[i]).0 <= seen[i].1,
    ensures
        c <= extend_cursor(seen, c, right) < seen.len(),
        seen[extend_cursor(seen, c, right)].1 >= seen[c].1,
    decreases seen.len() - c,
{
    if c + 1 < seen.len() && seen[c].1 + 1 == seen[c + 1].0 && seen[c + 1].0 <= right {
        lemma_extend_cursor_grows(seen, c + 1, right);
    }
}

proof fn lemma_advance_cursor_in_bounds(seen: Seq<(u64, u64)>, c: int, left: u64)
    requires
        0 <= c <= seen.len(),
    ensures
        c <= advance_cursor(seen, c, left) <= seen.len(),
    decreases seen.len() - c,
{
    if c < seen.len() && seen[c].0 < left {
        lemma_advance_cursor_in_bounds(seen, c + 1, left);
    }
}

proof fn lemma_pending_well_formed_from(
    tiles: Seq<(u64, u64)>,
    seen: Seq<(u64, u64)>,
    t: int,
    c: int,
    hi: u64,
)
    requires
        forall|i: int| 0 <= i < tiles.len() ==> (#[trigger] tiles[i]).0 <= tiles[i].1,
        forall|i: int|
            0 <= i < tiles.len() - 1 ==> (#[trigger] tiles[i + 1]).0 == tiles[i].1 + 1,
        forall|i: int| 0 <= i < tiles.len() ==> (#[trigger] tiles[i]).1 <= hi,
        forall|i: int| 0 <= i < seen.len() ==> (#[trigger] seen[i]).0 <= seen[i].1,
        0 <= t <= tiles.len(),
        0 <= c <= seen.len(),
    ensures
        ({
            let p = spec_pending(tiles, seen, t, c);
            &&& forall|k: int|
                0 <= k < p.len() ==> (#[trigger] p[k]).0 <= p[k].1 && p[k].1 <= hi && (t
                    < tiles.len() ==> tiles[t].0 <= p[k].0)
            &&& forall|k1: int, k2: int|
                0 <= k1 < k2 < p.len() ==> (#[trigger] p[k1]).1 < (#[trigger] p[k2]).0
        }),
    decreases tiles.len() - t,
{
    if t < tiles.len() {
        let left = tiles[t].0;
        let right = tiles[t].1;
        let p = spec_pending(tiles, seen, t, c);
        lemma_advance_cursor_in_bounds(seen, c, left);
        let c1 = advance_cursor(seen, c, left);
        if 0 <= c1 && c1 < seen.len() && seen[c1].0 == left {
            lemma_extend_cursor_grows(seen, c1, right);
            let c2 = extend_cursor(seen, c1, right);
            let rest = spec_pending(tiles, seen, t + 1, c2);
            lemma_pending_well_formed_from(tiles, seen, t + 1, c2, hi);
            if seen[c2].1 < right {
                assert(seen[c2].1 >= seen[c1].1 >= left);
                assert(p =~= seq![((seen[c2].1 + 1) as u64, right)] + rest);
                assert(p[0].0 > left);
                assert(forall|k: int| 1 <= k < p.len() ==> p[k] == rest[k - 1]);
            } else {
                assert(p == rest);
            }
        } else {
            let rest = spec_pending(tiles, seen, t + 1, c1);
            lemma_pending_well_formed_from(tiles, seen, t + 1, c1, hi);
            assert(p =~= seq![tiles[t]] + rest);
            assert(forall|k: int| 1 <= k < p.len() ==> p[k] == rest[k - 1]);
        }
    }
}

/// Pending work is well-formed: as long as every completed segment is
/// itself a nonempty range, the pending list holds only nonempty segments
/// inside the requested interval, in strictly increasing, disjoint order.
pub proof fn lemma_pending_well_formed(start: u64, end: u64, chunk: u64, seen: Seq<(u64, u64)>)
    requires
        1 <= chunk,
        start <= end,
        forall|i: int| 0 <= i < seen.len() ==> (#[trigger] seen[i]).0 <= seen[i].1,
    ensures
        ranges_well_formed(spec_pending(spec_grid(start, end, chunk), seen, 0, 0), start, end),
{
    let g = spec_grid(start, end, chunk);
    lemma_grid_shape(start, end, chunk);
    lemma_pending_well_formed_from(g, seen, 0, 0, end);
}

proof fn lemma_pending_empty_seen(tiles: Seq<(u64, u64)>, t: int)
    requires
        0 <= t <= tiles.len(),
    ensures
        spec_pending(tiles, Seq::empty(), t, 0) == tiles.skip(t),
    decreases tiles.len() - t,
{
    if t < tiles.len() {
        lemma_pending_empty_seen(tiles, t + 1);
        assert(tiles.skip(t) =~= seq![tiles[t]] + tiles.skip(t + 1));
    } else {
        assert(tiles.skip(t) =~= Seq::<(u64, u64)>::empty());
    }
}

/// With nothing completed, every tile is pending: a fresh run fetches the
/// whole grid.
pub proof fn lemma_first_run_fetches_grid(start: u64, end: u64, chunk: u64)
    requires
        1 <= chunk,
        start <= end,
    ensures
        spec_pending(spec_grid(start, end, chunk), Seq::empty(), 0, 0) == spec_grid(
            start,
            end,
            chunk,
        ),
{
    lemma_pending_empty_seen(spec_grid(start, end, chunk), 0);
    assert(spec_grid(start, end, chunk).skip(0) =~= spec_grid(start, end, chunk));
}

/// Resume completeness: when the completed list is, as a multiset, exactly
/// the grid a full run over the same arguments wrote, and stands in
/// `seg_le` order — which is what `split_block_chunks` makes of whatever
/// order discovery found the files in — nothing is pending: a rerun
/// issues no queries at all.
pub proof fn lemma_resume_after_full_run(start: u64, end: u64, chunk: u64, seen: Seq<(u64, u64)>)
    requires
        1 <= chunk,
        start <= end,
        segments_sorted(seen),
        seen.to_multiset() == spec_grid(start, end, chunk).to_multiset(),
    ensures
        spec_pending(spec_grid(start, end, chunk), seen, 0, 0) == Seq::<(u64, u64)>::empty(),
{
    let g = spec_grid(start, end, chunk);
    let leq = |a: (u64, u64), b: (u64, u64)| seg_le(a, b);
    lemma_grid_shape(start, end, chunk);
    lemma_grid_disjoint(start, end, chunk);
    assert(vstd::relations::sorted_by(g, leq));
    assert(vstd::relations::sorted_by(seen, leq));
    assert(vstd::relations::total_ordering(leq)) by {
        assert forall|x: (u64, u64), y: (u64, u64)| #[trigger] leq(x, y) && #[trigger] leq(
            y,
            x,
        ) implies x == y by {
            assert(x.0 == y.0 && x.1 == y.1);
        }
    }
    vstd::seq_lib::lemma_sorted_unique(seen, g, leq);
    lemma_rerun_is_empty(start, end, chunk);
}

/// Plans one run: sorts the previously completed chunks in place, builds
/// the grid over `[block_start, block_end]`, and returns only the segments
/// that still need fetching, in increasing order.
pub fn split_block_chunks(
    block_start: u64,
    block_end: u64,
    chunk_size: u64,
    seen_chunks: &mut Vec<(u64, u64)>,
) -> (block_segments: Vec<(u64, u64)>)
    requires
        1 <= chunk_size,
        block_start <= block_end,
    ensures
        final(seen_chunks)@.to_multiset() == old(seen_chunks)@.to_multiset(),
        segments_sorted(final(seen_chunks)@),
        block_segments@ == spec_pending(
            spec_grid(block_start, block_end, chunk_size),
            final(seen_chunks)@,
            0,
            0,
        ),
{
    sort_segments(seen_chunks);
    let tiles = compute_grid(block_start, block_end, chunk_size);
    compute_pending(&tiles, seen_chunks)
}

} // verus!
