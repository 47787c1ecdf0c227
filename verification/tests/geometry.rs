use sandbox::coords::{
    chunk_to_world_position, dir_of_index, dir_to_index, world_to_chunk_position,
    world_to_element_position,
};
use sandbox::line::GridLineIterator;
use sandbox::rect::{Pos, Rect};

fn p(x: i32, y: i32) -> Pos {
    Pos { x, y }
}

#[test]
fn empty_rect_is_empty() {
    let r = Rect::empty();
    assert!(r.is_empty());
    assert!(!r.contains(p(0, 0)));
}

#[test]
fn union_with_empty_is_identity() {
    let r = Rect::new(p(1, 2), p(5, 6));
    assert_eq!(r.union(&Rect::empty()), r);
    assert_eq!(Rect::empty().union(&r), r);
    assert!(Rect::empty().union(&Rect::empty()).is_empty());
}

#[test]
fn union_covers_both() {
    let a = Rect::new(p(0, 0), p(2, 2));
    let b = Rect::new(p(1, -1), p(4, 1));
    assert_eq!(a.union(&b), Rect::new(p(0, -1), p(4, 2)));
}

#[test]
fn union_point_grows_rect() {
    let mut r = Rect::new(p(2, 2), p(3, 3));
    r.union_point(p(0, 5));
    assert_eq!(r, Rect::new(p(0, 2), p(3, 5)));
}

#[test]
fn union_point_is_idempotent() {
    let mut once = Rect::new(p(2, 2), p(3, 3));
    once.union_point(p(7, 1));
    let mut twice = once;
    twice.union_point(p(7, 1));
    assert_eq!(once, twice);
}

#[test]
fn union_point_plus_clamps_to_non_negative() {
    let mut r = Rect::empty();
    r.union_point_plus(p(0, 1), p(2, 2));
    assert_eq!(r, Rect::new(p(0, 0), p(2, 3)));
    assert!(r.min.x >= 0 && r.min.y >= 0);
}

#[test]
fn union_point_plus_collapses_degenerate_clamp() {
    // The grown upper corner sits below zero on the x axis, so the clamp
    // collapses min.x onto max.x.
    let mut r = Rect::empty();
    r.union_point_plus(p(-5, 0), p(2, 2));
    assert_eq!(r.min.x, r.max.x);
}

#[test]
fn rect_size_and_center() {
    let r = Rect::new(p(1, 1), p(5, 7));
    assert_eq!(r.size(), p(4, 6));
    assert_eq!(r.center(), p(3, 4));
    assert!(r.contains(p(1, 1)));
    assert!(!r.contains(p(5, 7)));
}

#[test]
fn line_single_point_when_endpoints_coincide() {
    let mut it = GridLineIterator::new(p(3, 4), p(3, 4));
    assert_eq!(it.next(), Some(p(3, 4)));
    assert_eq!(it.next(), None);
    assert_eq!(it.next(), None);
}

#[test]
fn line_starts_at_first_endpoint() {
    let mut it = GridLineIterator::new(p(2, 9), p(-4, 1));
    assert_eq!(it.next(), Some(p(2, 9)));
}

#[test]
fn line_length_is_major_difference_plus_one() {
    let mut it = GridLineIterator::new(p(0, 0), p(5, 3));
    let mut points = Vec::new();
    while let Some(q) = it.next() {
        points.push(q);
    }
    assert_eq!(points.len(), 6);
    assert_eq!(points[0], p(0, 0));
    assert_eq!(points[5], p(5, 3));
}

#[test]
fn line_walks_diagonal_exactly() {
    let mut it = GridLineIterator::new(p(0, 0), p(3, 3));
    let mut points = Vec::new();
    while let Some(q) = it.next() {
        points.push(q);
    }
    assert_eq!(points, vec![p(0, 0), p(1, 1), p(2, 2), p(3, 3)]);
}

#[test]
fn line_vertical_descends_one_per_step() {
    let mut it = GridLineIterator::new(p(7, 10), p(7, 7));
    let mut points = Vec::new();
    while let Some(q) = it.next() {
        points.push(q);
    }
    assert_eq!(points, vec![p(7, 10), p(7, 9), p(7, 8), p(7, 7)]);
}

#[test]
fn world_to_chunk_negates_vertical_axis() {
    assert_eq!(world_to_chunk_position(p(0, 0)), p(0, 0));
    assert_eq!(world_to_chunk_position(p(-1, -1)), p(-1, 1));
    assert_eq!(world_to_chunk_position(p(64, 64)), p(1, -1));
    assert_eq!(world_to_chunk_position(p(130, -10)), p(2, 1));
}

#[test]
fn world_to_element_is_euclidean_remainder() {
    assert_eq!(world_to_element_position(p(-1, -1)), p(63, 63));
    assert_eq!(world_to_element_position(p(64, 65)), p(0, 1));
    assert_eq!(world_to_element_position(p(10, 63)), p(10, 63));
}

#[test]
fn chunk_to_world_scales_by_chunk_side() {
    assert_eq!(chunk_to_world_position(p(2, -1)), p(128, -64));
}

#[test]
fn direction_indexing_round_trips() {
    assert_eq!(dir_to_index(p(-1, 0)), 3);
    assert_eq!(dir_to_index(p(1, 0)), 5);
    assert_eq!(dir_to_index(p(0, 1)), 7);
    assert_eq!(dir_to_index(p(0, -1)), 1);
    assert_eq!(dir_to_index(p(0, 0)), 4);
    for j in 0..9usize {
        assert_eq!(dir_to_index(dir_of_index(j)), j);
    }
}
