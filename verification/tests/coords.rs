use rustycraft::coords::localize;
use rustycraft::world::World;

#[test]
fn localize_is_floor_division_across_zero() {
    for world in -33i32..33 {
        let (chunk, local) = localize(world);
        assert_eq!(chunk, (world as f64 / 16.0).floor() as i32);
        assert!(local < 16);
        assert_eq!(chunk * 16 + local as i32, world);
    }
}

#[test]
fn localize_minus_one_is_last_cell_of_chunk_minus_one() {
    assert_eq!(localize(-1), (-1, 15));
}

#[test]
fn localize_exact_values() {
    assert_eq!(localize(0), (0, 0));
    assert_eq!(localize(15), (0, 15));
    assert_eq!(localize(16), (1, 0));
    assert_eq!(localize(-16), (-1, 0));
    assert_eq!(localize(-17), (-2, 15));
    assert_eq!(localize(-33), (-3, 15));
    assert_eq!(localize(32), (2, 0));
}

#[test]
fn localize_handles_the_ends_of_the_range() {
    assert_eq!(localize(i32::MAX), (134217727, 15));
    assert_eq!(localize(i32::MIN), (-134217728, 0));
    let (chunk, local) = localize(i32::MIN + 1);
    assert_eq!((chunk, local), (-134217728, 1));
}

#[test]
fn world_localizes_both_axes() {
    let world = World::new_with_seed("coords", 1);
    assert_eq!(world.localize_coords_to_chunk(-1, 17), (-1, 1, 15, 1));
    assert_eq!(world.localize_coords_to_chunk(5, 5), (0, 0, 5, 5));
    assert_eq!(world.localize_coords_to_chunk(-16, -32), (-1, -2, 0, 0));
    for x in -40i32..40 {
        for z in -40i32..40 {
            let (cx, cz, lx, lz) = world.localize_coords_to_chunk(x, z);
            assert_eq!(cx * 16 + lx as i32, x);
            assert_eq!(cz * 16 + lz as i32, z);
            assert!(lx < 16 && lz < 16);
        }
    }
}
