//! Blocks and the lines they are shown on.

use edamame::document::source_map::SourceMap;

fn single_block_map(n_lines: usize, byte_len: usize) -> SourceMap {
    SourceMap::new(
        vec![0usize; n_lines],
        vec![0..byte_len],
        vec![0..byte_len],
        byte_len,
    )
}

#[test]
fn block_for_byte_single_block() {
    let map = single_block_map(3, 20);
    assert_eq!(map.block_for_byte(0), Some(0));
    assert_eq!(map.block_for_byte(10), Some(0));
    assert_eq!(map.block_for_byte(19), Some(0));
}

#[test]
fn block_for_byte_two_blocks() {
    let map = SourceMap::new(
        vec![0, 0, 1, 1],
        vec![0..10, 10..20],
        vec![0..10, 10..20],
        20,
    );
    assert_eq!(map.block_for_byte(5), Some(0));
    assert_eq!(map.block_for_byte(10), Some(1));
    assert_eq!(map.block_for_byte(15), Some(1));
}

#[test]
fn block_for_byte_empty_map() {
    let map = SourceMap::default();
    assert_eq!(map.block_for_byte(0), None);
}

#[test]
fn rendered_lines_for_block_basic() {
    let map = SourceMap::new(
        vec![0, 0, 1, 1, 1, 2],
        vec![0..5, 5..10, 10..15],
        vec![0..5, 5..10, 10..15],
        15,
    );
    assert_eq!(map.rendered_lines_for_block(0), 0..2);
    assert_eq!(map.rendered_lines_for_block(1), 2..5);
    assert_eq!(map.rendered_lines_for_block(2), 5..6);
}

#[test]
fn rendered_lines_for_byte() {
    let map = SourceMap::new(
        vec![0, 0, 1, 1, 1],
        vec![0..10, 10..20],
        vec![0..10, 10..20],
        20,
    );
    assert_eq!(map.rendered_lines_for_byte(5), 0..2); // in block 0
    assert_eq!(map.rendered_lines_for_byte(12), 2..5); // in block 1
}

#[test]
fn original_range_for_byte() {
    let map = SourceMap::new(
        vec![0, 1],
        vec![0..10, 10..20], // extended (no gaps here)
        vec![2..9, 11..19],  // original ranges (smaller)
        20,
    );
    assert_eq!(map.original_range_for_byte(5), Some(2..9));
    assert_eq!(map.original_range_for_byte(15), Some(11..19));
}

#[test]
fn every_byte_maps_to_some_line_single_block() {
    let map = single_block_map(2, 10);
    for b in 0..10 {
        let range = map.rendered_lines_for_byte(b);
        assert!(
            !range.is_empty(),
            "byte {} did not map to any rendered line",
            b
        );
    }
}

#[test]
fn every_byte_maps_to_some_line_two_blocks() {
    let map = SourceMap::new(vec![0, 0, 1, 1], vec![0..8, 8..16], vec![0..8, 8..16], 16);
    for b in 0..16 {
        let range = map.rendered_lines_for_byte(b);
        assert!(
            !range.is_empty(),
            "byte {} did not map to any rendered line",
            b
        );
    }
}
