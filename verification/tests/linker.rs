use autostereogram::grid::DepthMap;
use autostereogram::linker::constrain;
use autostereogram::linker::link_row;
use autostereogram::linker::merge_pair;

fn identity(n: u32) -> Vec<u32> {
    (0..n).collect()
}

/// Follow the chain from `x` to its root, checking on the way that it takes
/// at most `same.len()` steps and only ever moves upward.
fn chain_root(same: &[u32], mut x: u32) -> u32 {
    let mut steps = 0;
    while same[x as usize] != x {
        assert!(same[x as usize] > x);
        x = same[x as usize];
        steps += 1;
        assert!(steps <= same.len());
    }
    x
}

#[test]
fn merge_links_simple_pair() {
    let mut same = identity(8);
    merge_pair(&mut same, 3, 7);
    assert_eq!(same, vec![0, 1, 2, 7, 4, 5, 6, 7]);
    assert_eq!(chain_root(&same, 3), chain_root(&same, 7));
}

#[test]
fn merge_resolves_transitive_chain() {
    let mut same = identity(8);
    merge_pair(&mut same, 3, 5);
    merge_pair(&mut same, 3, 7);
    // Column 3 already points at 5, which lies below 7: the walk advances to
    // 5 and links it onward, keeping the chain 3 -> 5 -> 7.
    assert_eq!(same[3], 5);
    assert_eq!(same[5], 7);
    assert_eq!(chain_root(&same, 3), 7);
    assert_eq!(chain_root(&same, 5), 7);
}

#[test]
fn merge_nearer_constraint_wins() {
    let mut same = identity(8);
    merge_pair(&mut same, 3, 7);
    merge_pair(&mut same, 3, 5);
    // Column 3's entry jumps past 5, so the older, farther link to 7 is
    // dropped in favor of the nearer pair.
    assert_eq!(same[3], 5);
    assert_eq!(same[7], 7);
    assert_eq!(chain_root(&same, 3), 5);
}

#[test]
fn merge_of_equal_columns_frees_the_column() {
    let mut same = identity(8);
    merge_pair(&mut same, 2, 6);
    merge_pair(&mut same, 2, 2);
    assert_eq!(same[2], 2);
}

#[test]
fn out_of_bounds_pair_changes_nothing() {
    let mut same = identity(4);
    // The pair's left end would fall below zero.
    constrain(&mut same, 1, 3);
    assert_eq!(same, vec![0, 1, 2, 3]);
    // The pair's right end would reach past the row.
    constrain(&mut same, 3, 2);
    assert_eq!(same, vec![0, 1, 2, 3]);
    // An in-bounds pair, for contrast: column 2 with separation 2 links
    // columns 1 and 3.
    constrain(&mut same, 2, 2);
    assert_eq!(same, vec![0, 3, 2, 3]);
}

#[test]
fn link_row_small_flat_grid() {
    // Width 4, all samples at depth 0, eye separation 4: every separation is
    // round(4 / 2) = 2, and only columns 1 and 2 produce in-bounds pairs.
    let z = DepthMap::new(4, 1, vec![0; 4]);
    let same = link_row(&z, 0, 4, 1, 5);
    assert_eq!(same, vec![2, 3, 2, 3]);
}

#[test]
fn link_row_entries_point_upward() {
    let data: Vec<u8> = (0..60u32).map(|i| ((i * 9) % 256) as u8).collect();
    let z = DepthMap::new(20, 3, data);
    for y in 0..3 {
        let same = link_row(&z, y, 16, 1, 5);
        assert_eq!(same.len(), 20);
        for x in 0..20u32 {
            assert!(same[x as usize] >= x);
            assert!((same[x as usize] as usize) < same.len());
            chain_root(&same, x);
        }
    }
}
