use serpico::ranges::{compute_grid, compute_pending, split_block_chunks};

#[test]
fn grid_example() {
    let tiles = compute_grid(0, 25, 10);
    assert_eq!(tiles, vec![(0, 9), (10, 19), (20, 25)]);
}

#[test]
fn grid_single_block() {
    assert_eq!(compute_grid(5, 5, 10), vec![(5, 5)]);
}

#[test]
fn grid_unaligned_start() {
    assert_eq!(compute_grid(5, 14, 10), vec![(5, 9), (10, 14)]);
}

#[test]
fn grid_chunk_one() {
    assert_eq!(compute_grid(3, 5, 1), vec![(3, 3), (4, 4), (5, 5)]);
}

#[test]
fn grid_count_matches_ceiling_when_aligned() {
    let tiles = compute_grid(0, 99, 10);
    assert_eq!(tiles.len(), 10);
    let tiles = compute_grid(0, 100, 10);
    assert_eq!(tiles.len(), 11);
    assert_eq!(tiles[10], (100, 100));
}

#[test]
fn grid_covers_interval_disjointly() {
    let tiles = compute_grid(7, 64, 10);
    assert_eq!(tiles.first().unwrap().0, 7);
    assert_eq!(tiles.last().unwrap().1, 64);
    for w in tiles.windows(2) {
        assert_eq!(w[0].1 + 1, w[1].0);
    }
    for &(lo, hi) in &tiles {
        assert!(lo <= hi);
    }
}

#[test]
fn pending_full_coverage() {
    let tiles = vec![(0, 9)];
    let seen = vec![(0, 9)];
    assert_eq!(compute_pending(&tiles, &seen), vec![]);
}

#[test]
fn pending_prefix_coverage() {
    let tiles = vec![(0, 9)];
    let seen = vec![(0, 4)];
    assert_eq!(compute_pending(&tiles, &seen), vec![(5, 9)]);
}

#[test]
fn pending_chained_coverage() {
    let tiles = vec![(0, 9)];
    let seen = vec![(0, 4), (5, 9)];
    assert_eq!(compute_pending(&tiles, &seen), vec![]);
}

#[test]
fn pending_no_left_anchor() {
    let tiles = vec![(0, 9)];
    let seen = vec![(3, 9)];
    assert_eq!(compute_pending(&tiles, &seen), vec![(0, 9)]);
}

#[test]
fn pending_gap_in_chain_leaves_suffix() {
    let tiles = vec![(0, 9)];
    let seen = vec![(0, 3), (5, 9)];
    assert_eq!(compute_pending(&tiles, &seen), vec![(4, 9)]);
}

#[test]
fn split_sorts_seen_and_merges() {
    let mut seen = vec![(10, 19), (0, 4)];
    let segments = split_block_chunks(0, 25, 10, &mut seen);
    assert_eq!(seen, vec![(0, 4), (10, 19)]);
    assert_eq!(segments, vec![(5, 9), (20, 25)]);
}

#[test]
fn split_prefers_longest_segment_per_left_edge() {
    let mut seen = vec![(0, 2), (0, 7)];
    let segments = split_block_chunks(0, 9, 10, &mut seen);
    assert_eq!(seen, vec![(0, 7), (0, 2)]);
    assert_eq!(segments, vec![(8, 9)]);
}

#[test]
fn split_with_nothing_seen_returns_grid() {
    let mut seen = Vec::new();
    let segments = split_block_chunks(0, 25, 10, &mut seen);
    assert_eq!(segments, compute_grid(0, 25, 10));
}

#[test]
fn rerun_after_complete_run_has_nothing_pending() {
    let mut seen = Vec::new();
    let first_run = split_block_chunks(100, 347, 25, &mut seen);
    let mut seen_after = first_run.clone();
    let second_run = split_block_chunks(100, 347, 25, &mut seen_after);
    assert_eq!(second_run, vec![]);
}

#[test]
fn pending_output_is_ordered_and_disjoint() {
    let mut seen = vec![(32, 35), (10, 12), (30, 31), (20, 29)];
    let segments = split_block_chunks(0, 45, 10, &mut seen);
    assert_eq!(segments, vec![(0, 9), (13, 19), (36, 39), (40, 45)]);
    for w in segments.windows(2) {
        assert!(w[0].1 < w[1].0);
    }
    for &(lo, hi) in &segments {
        assert!(lo <= hi && hi <= 45);
    }
}

#[test]
fn split_detects_coverage_only_at_tile_left_edges() {
    // One wide segment from an older run covers the first tile whole, but
    // later tiles are not anchored at their own left edge and are re-fetched.
    let mut seen = vec![(0, 24)];
    let segments = split_block_chunks(0, 29, 10, &mut seen);
    assert_eq!(segments, vec![(10, 19), (20, 29)]);
}
