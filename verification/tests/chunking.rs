use luabundler::chunks::chunk_bounds;

#[test]
fn uneven_tail_chunk() {
    assert_eq!(chunk_bounds(10, 4), vec![(0, 4), (4, 8), (8, 10)]);
}

#[test]
fn exact_multiple() {
    assert_eq!(chunk_bounds(8, 4), vec![(0, 4), (4, 8)]);
}

#[test]
fn empty_buffer_needs_no_chunks() {
    assert_eq!(chunk_bounds(0, 4), Vec::<(usize, usize)>::new());
}

#[test]
fn one_short_chunk() {
    assert_eq!(chunk_bounds(3, 1024), vec![(0, 3)]);
}
