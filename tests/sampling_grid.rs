use raytracer::stratified::{exact_square_root, SamplerError, StratifiedCursor};

#[test]
fn square_roots_of_perfect_squares() {
    assert_eq!(exact_square_root(0), Some(0));
    assert_eq!(exact_square_root(1), Some(1));
    assert_eq!(exact_square_root(4), Some(2));
    assert_eq!(exact_square_root(16), Some(4));
    assert_eq!(exact_square_root(1024), Some(32));
    assert_eq!(exact_square_root(4294967295 * 4294967295), Some(4294967295));
}

#[test]
fn other_counts_have_no_square_root() {
    assert_eq!(exact_square_root(2), None);
    assert_eq!(exact_square_root(15), None);
    assert_eq!(exact_square_root(17), None);
    assert_eq!(exact_square_root(usize::MAX), None);
}

#[test]
fn prepare_refuses_a_count_that_is_not_square() {
    let mut c = StratifiedCursor::new();
    assert_eq!(c.prepare(1, 1, 10), Err(SamplerError::NotSquare));
    assert_eq!(c.samples(), 0);
}

#[test]
fn prepare_refuses_other_than_one_pair() {
    let mut c = StratifiedCursor::new();
    assert_eq!(c.prepare(1, 2, 16), Err(SamplerError::UnsupportedDimensions));
    assert_eq!(c.prepare(0, 0, 16), Err(SamplerError::UnsupportedDimensions));
}

#[test]
fn cells_fill_the_grid_row_after_row() {
    let mut c = StratifiedCursor::new();
    assert_eq!(c.prepare(1, 1, 9), Ok(()));
    assert_eq!(c.side(), 3);
    assert_eq!(c.cell(0), (0, 0));
    assert_eq!(c.cell(1), (0, 1));
    assert_eq!(c.cell(3), (1, 0));
    assert_eq!(c.cell(8), (2, 2));
}

#[test]
fn one_pair_per_sample_then_the_next_sample() {
    let mut c = StratifiedCursor::new();
    c.prepare(1, 1, 4).unwrap();
    let mut seen = Vec::new();
    for _ in 0..4 {
        c.new_sample();
        assert!(c.can_draw_2d());
        seen.push(c.next2d());
        assert!(!c.can_draw_2d());
    }
    assert_eq!(seen, vec![0, 1, 2, 3]);
    c.new_sample();
    assert!(!c.can_draw_2d());
}

#[test]
fn new_sample_before_any_draw_stays_put() {
    let mut c = StratifiedCursor::new();
    c.prepare(0, 1, 1).unwrap();
    c.new_sample();
    c.new_sample();
    assert_eq!(c.next2d(), 0);
}

#[test]
fn prepare_starts_over() {
    let mut c = StratifiedCursor::new();
    c.prepare(1, 1, 4).unwrap();
    c.next2d();
    c.new_sample();
    c.next2d();
    c.prepare(1, 1, 4).unwrap();
    assert_eq!(c.next2d(), 0);
}
