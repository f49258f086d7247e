use simple_raytracer::render::{assemble_rows, pixel_offset, reflection_allowed};

#[test]
fn reflection_stops_exactly_at_max_depth() {
    assert!(reflection_allowed(0, 1));
    assert!(reflection_allowed(4, 5));
    // A trace that starts at the maximum depth contributes no reflection.
    assert!(!reflection_allowed(1, 1));
    assert!(!reflection_allowed(8, 8));
    assert!(!reflection_allowed(9, 8));
    assert!(!reflection_allowed(0, 0));
}

#[test]
fn rows_concatenate_in_index_order() {
    let rows: Vec<Vec<u8>> = vec![vec![1, 2, 3], vec![4, 5, 6], vec![7, 8, 9]];
    assert_eq!(assemble_rows(&rows), vec![1, 2, 3, 4, 5, 6, 7, 8, 9]);
}

#[test]
fn no_rows_make_an_empty_buffer() {
    let rows: Vec<Vec<u8>> = Vec::new();
    assert_eq!(assemble_rows(&rows), Vec::<u8>::new());
}

#[test]
fn repeated_assembly_is_byte_identical() {
    let rows: Vec<Vec<u8>> = (0..16u8)
        .map(|y| (0..12u8).map(|x| x.wrapping_mul(31).wrapping_add(y)).collect())
        .collect();
    let first = assemble_rows(&rows);
    let second = assemble_rows(&rows);
    let third = assemble_rows(&rows);
    assert_eq!(first, second);
    assert_eq!(second, third);
    assert_eq!(first.len(), 16 * 12);
}

#[test]
fn pixel_offsets_are_row_major() {
    assert_eq!(pixel_offset(4, 3, 0, 0), 0);
    assert_eq!(pixel_offset(4, 3, 1, 0), 3);
    assert_eq!(pixel_offset(4, 3, 0, 1), 12);
    assert_eq!(pixel_offset(4, 3, 2, 1), 18);
    assert_eq!(pixel_offset(4, 3, 3, 2), 33);
}
