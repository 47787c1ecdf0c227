use sandbox::chunk::Chunk;
use sandbox::local_api::LocalApi;
use sandbox::element::{Element, ElementKind, Velocity};
use sandbox::rect::Pos;
use sandbox::sandbox::{scan_columns, Sandbox};

fn p(x: i32, y: i32) -> Pos {
    Pos { x, y }
}

fn element(kind: ElementKind) -> Element {
    Element { color: kind.base_color(), velocity: Velocity { x: 0, y: 0 }, kind, wframe: 0 }
}

fn cell(world: &Sandbox, chunk: Pos, local: Pos) -> Element {
    *world.get_chunk(chunk).expect("chunk should exist").get_element(local)
}

#[test]
fn densities_order_the_materials() {
    assert_eq!(ElementKind::Air.density(), 0);
    assert_eq!(ElementKind::Water.density(), 60);
    assert_eq!(ElementKind::Sand.density(), 100);
    assert_eq!(ElementKind::Stone.density(), 255);
}

#[test]
fn base_colors_are_fixed() {
    assert_eq!(ElementKind::Air.base_color(), (0, 0, 0));
    assert_eq!(ElementKind::Sand.base_color(), (232, 171, 79));
    assert_eq!(ElementKind::Stone.base_color(), (114, 121, 133));
    assert_eq!(ElementKind::Water.base_color(), (44, 113, 232));
}

#[test]
fn default_element_is_air_at_rest() {
    let e = Element::default();
    assert_eq!(e.kind, ElementKind::Air);
    assert_eq!(e.velocity, Velocity { x: 0, y: 0 });
    assert_eq!(e.wframe, 0);
}

#[test]
fn velocity_addition_clamps_to_band() {
    let v = Velocity { x: 990, y: -990 };
    let r = v.add_clamped(50, -50);
    assert_eq!(r, Velocity { x: 1000, y: -1000 });
}

#[test]
fn velocity_scaling_truncates_toward_zero() {
    let v = Velocity { x: 110, y: 7 };
    assert_eq!(v.with_x_scaled(80).x, 88);
    assert_eq!(Velocity { x: -55, y: 0 }.with_x_scaled(60).x, -33);
}

#[test]
fn bounce_reverses_to_a_tenth() {
    // The bounce keeps the small reversed residual rather than snapping it
    // away: a refused fall at two and a half cells per tick leaves a quarter
    // of a cell per tick pointing back up.
    assert_eq!(Velocity { x: 0, y: 250 }.bounced(), Velocity { x: 0, y: -25 });
    assert_eq!(Velocity { x: 1000, y: 0 }.bounced(), Velocity { x: -100, y: 0 });
    assert_eq!(Velocity { x: 0, y: 0 }.bounced(), Velocity { x: 0, y: 0 });
}

#[test]
fn chunk_layout_is_x_major() {
    assert_eq!(Chunk::to_index(0, 0), 0);
    assert_eq!(Chunk::to_index(0, 1), 1);
    assert_eq!(Chunk::to_index(1, 0), 64);
}

#[test]
fn new_chunk_is_all_air_and_fully_dirty() {
    let c = Chunk::new(p(0, 0));
    assert!(c.active());
    assert_eq!(c.dirty_rect().min, p(0, 0));
    assert_eq!(c.dirty_rect().max, p(64, 64));
    assert_eq!(c.get_element(p(20, 40)).kind, ElementKind::Air);
}

#[test]
fn set_element_marks_the_written_point_dirty() {
    let mut c = Chunk::new(p(0, 0));
    c.next_dirty_rect.clear();
    c.set_element(p(10, 12), element(ElementKind::Sand));
    assert_eq!(c.get_element(p(10, 12)).kind, ElementKind::Sand);
    assert!(c.next_dirty_rect.contains(p(10, 12)));
    assert!(c.next_dirty_rect.contains(p(8, 10)));
    assert!(c.next_dirty_rect.contains(p(11, 13)));
    assert!(!c.next_dirty_rect.contains(p(12, 14)));
}

#[test]
fn fresh_world_has_three_by_three_chunks() {
    let world = Sandbox::new();
    assert_eq!(world.chunks.len(), 9);
    assert_eq!(world.fresh_chunks.len(), 9);
    for x in -1..=1 {
        for y in 0..=2 {
            assert!(world.get_chunk(p(x, y)).is_some());
        }
    }
    assert!(world.get_chunk(p(2, 0)).is_none());
}

#[test]
fn paused_world_does_not_tick() {
    let mut world = Sandbox::new();
    world.active = false;
    world.place_element(p(5, 5), element(ElementKind::Sand));
    world.tick();
    assert_eq!(world.wframe, 0);
    assert_eq!(cell(&world, p(0, 0), p(5, 5)).kind, ElementKind::Sand);
}

#[test]
fn tick_counter_wraps_silently() {
    let mut world = Sandbox::new();
    world.wframe = 255;
    world.tick();
    assert_eq!(world.wframe, 0);
}

#[test]
fn scan_direction_alternates_with_tick_parity() {
    assert_eq!(scan_columns(0, 0, 5), vec![0, 1, 2, 3, 4]);
    assert_eq!(scan_columns(1, 0, 5), vec![4, 3, 2, 1, 0]);
    assert_eq!(scan_columns(2, -2, 1), vec![-2, -1, 0]);
    assert_eq!(scan_columns(3, -2, 1), vec![0, -1, -2]);
    assert_eq!(scan_columns(0, 3, 3), Vec::<i32>::new());
}

#[test]
fn moving_grain_is_not_processed_twice_in_one_tick() {
    // The scan visits the cell a falling grain just moved into, but the grain
    // was stamped with the current tick when it was dispatched, so it is
    // skipped there: it advances exactly one cell on the tick its velocity
    // first reaches one cell per tick.
    let mut world = Sandbox::new();
    world.place_element(p(30, 40), element(ElementKind::Sand));
    world.tick();
    // Gravity has only reached half a cell per tick: no movement yet.
    assert_eq!(cell(&world, p(0, 0), p(30, 40)).kind, ElementKind::Sand);
    world.tick();
    assert_eq!(cell(&world, p(0, 0), p(30, 40)).kind, ElementKind::Air);
    assert_eq!(cell(&world, p(0, 0), p(30, 41)).kind, ElementKind::Sand);
    assert_eq!(cell(&world, p(0, 0), p(30, 42)).kind, ElementKind::Air);
}

#[test]
fn sand_settles_at_the_bottom_of_an_open_column() {
    // A single grain with zero velocity above five empty cells: after six
    // ticks it rests in the lowest cell. The refused move on the sixth tick
    // bounces the downward speed of two and a half cells per tick into a
    // residual quarter of a cell per tick pointing back up, too small to ever
    // move it again.
    let mut world = Sandbox::new();
    world.place_element(p(5, 58), element(ElementKind::Sand));
    for _ in 0..6 {
        world.tick();
    }
    let settled = cell(&world, p(0, 0), p(5, 63));
    assert_eq!(settled.kind, ElementKind::Sand);
    assert_eq!(settled.velocity, Velocity { x: 0, y: -25 });
    for y in 58..63 {
        assert_eq!(cell(&world, p(0, 0), p(5, y)).kind, ElementKind::Air);
    }
    // The grain stays at rest on later ticks.
    world.tick();
    assert_eq!(cell(&world, p(0, 0), p(5, 63)).kind, ElementKind::Sand);
}

#[test]
fn denser_sand_displaces_water_below_it() {
    let mut world = Sandbox::new();
    world.place_element(p(5, 62), element(ElementKind::Sand));
    world.place_element(p(5, 63), element(ElementKind::Water));
    world.tick();
    world.tick();
    assert_eq!(cell(&world, p(0, 0), p(5, 63)).kind, ElementKind::Sand);
    assert_eq!(cell(&world, p(0, 0), p(5, 62)).kind, ElementKind::Water);
}

#[test]
fn stone_is_never_displaced() {
    let mut world = Sandbox::new();
    world.place_element(p(5, 63), element(ElementKind::Stone));
    world.place_element(p(5, 58), element(ElementKind::Sand));
    world.place_element(p(4, 60), element(ElementKind::Water));
    for _ in 0..20 {
        world.tick();
        assert_eq!(cell(&world, p(0, 0), p(5, 63)).kind, ElementKind::Stone);
    }
    let stone = cell(&world, p(0, 0), p(5, 63));
    assert_eq!(stone.velocity, Velocity { x: 0, y: 0 });
}

#[test]
fn placing_on_an_unloaded_coordinate_creates_one_chunk() {
    let mut world = Sandbox::new();
    // Two empty ticks drain every dirty rectangle, so the initial chunks all
    // go inactive and any later full-dirty mark is observable.
    world.tick();
    world.tick();
    assert!(!world.get_chunk(p(1, 1)).unwrap().active());
    let chunks_before = world.chunks.len();
    let fresh_before = world.fresh_chunks.len();
    // World position (130, -10) lies in the unloaded chunk (2, 1).
    world.place_element(p(130, -10), element(ElementKind::Sand));
    assert_eq!(world.chunks.len(), chunks_before + 1);
    assert_eq!(world.fresh_chunks.len(), fresh_before + 1);
    assert_eq!(world.fresh_chunks[fresh_before], p(2, 1));
    let occurrences = world.fresh_chunks.iter().filter(|q| **q == p(2, 1)).count();
    assert_eq!(occurrences, 1);
    let created = world.get_chunk(p(2, 1)).expect("the chunk should now exist");
    assert_eq!(created.get_element(p(2, 54)).kind, ElementKind::Sand);
    // The three existing neighbors are marked fully dirty; a chunk that is
    // not adjacent stays clean.
    for y in 0..=2 {
        let neighbor = world.get_chunk(p(1, y)).unwrap();
        assert_eq!(neighbor.dirty_rect().min, p(0, 0));
        assert_eq!(neighbor.dirty_rect().max, p(64, 64));
    }
    assert!(!world.get_chunk(p(0, 1)).unwrap().active());
}

#[test]
fn fresh_chunk_queue_drains_once() {
    let mut world = Sandbox::new();
    let drained = world.take_fresh_chunks();
    assert_eq!(drained.len(), 9);
    assert_eq!(world.fresh_chunks.len(), 0);
    assert_eq!(world.take_fresh_chunks().len(), 0);
    world.place_element(p(200, 10), element(ElementKind::Stone));
    assert_eq!(world.take_fresh_chunks(), vec![p(3, 0)]);
}

#[test]
fn pooled_water_flows_sideways_at_the_boosted_speed() {
    // Water stacked on water, the down-diagonals walled off, both horizontal
    // neighbors open: the upper element must flow sideways with the boosted
    // speed of one and a tenth cells per tick, which after the horizontal
    // friction of the move leaves 0.88 cells per tick.
    let mut world = Sandbox::new();
    world.place_element(p(10, 63), element(ElementKind::Water));
    world.place_element(p(10, 62), element(ElementKind::Water));
    world.place_element(p(9, 63), element(ElementKind::Stone));
    world.place_element(p(11, 63), element(ElementKind::Stone));
    world.tick();
    assert_eq!(cell(&world, p(0, 0), p(10, 63)).kind, ElementKind::Water);
    assert_eq!(cell(&world, p(0, 0), p(10, 62)).kind, ElementKind::Air);
    let left = cell(&world, p(0, 0), p(9, 62));
    let right = cell(&world, p(0, 0), p(11, 62));
    if left.kind == ElementKind::Water {
        assert_eq!(right.kind, ElementKind::Air);
        assert_eq!(left.velocity, Velocity { x: -88, y: 0 });
    } else {
        assert_eq!(right.kind, ElementKind::Water);
        assert_eq!(right.velocity, Velocity { x: 88, y: 0 });
    }
}

#[test]
fn absent_chunks_read_as_an_opaque_wall() {
    let slots: Vec<Option<Chunk>> = vec![None, None, None, None, None, None, None, None, None];
    let mut api = LocalApi::new(p(0, 0), 1, (Element::default(), p(0, 0)), slots);
    // Reads from unloaded space yield the fixed boundary element, not air.
    let wall = api.get_element(p(5, 5));
    assert_eq!(wall.kind, ElementKind::Sand);
    assert_eq!(wall.color, (245, 226, 24));
    assert_eq!(wall.velocity, Velocity { x: 0, y: 0 });
    // Nothing may move into unloaded space.
    assert!(!api.can_move_to(p(5, 5)));
    // The coin toss only ever yields a unit direction.
    for _ in 0..32 {
        let d = api.random_direction();
        assert!(d == 1 || d == -1);
    }
    // A direct write materializes the missing chunk and records its slot.
    api.set_element(p(5, 5), Element {
        color: ElementKind::Stone.base_color(),
        velocity: Velocity { x: 0, y: 0 },
        kind: ElementKind::Stone,
        wframe: 0,
    });
    assert_eq!(api.new_chunks, vec![4]);
    assert_eq!(api.get_element(p(5, 5)).kind, ElementKind::Stone);
}

#[test]
fn unloaded_neighbors_act_as_walls() {
    // The bottom row of the lowest chunk borders unloaded space, which reads
    // as an impassable boundary: sand resting there never leaves the world.
    let mut world = Sandbox::new();
    world.place_element(p(20, 63), element(ElementKind::Sand));
    for _ in 0..10 {
        world.tick();
    }
    let grain = cell(&world, p(0, 0), p(20, 63));
    assert_eq!(grain.kind, ElementKind::Sand);
}
