use aftventure::render::FrameBuffer;
use aftventure::render::Style;
use aftventure::tile::TileRegistry;
use aftventure::world::chunk_coord;
use aftventure::world::local_coord;
use aftventure::world::Chunk;
use aftventure::world::World;
use aftventure::world::AIR_ID;
use aftventure::world::DIRT_ID;
use aftventure::world::GRASS_ID;
use aftventure::world::STONE_ID;

fn flat(_x: i32, _y: i32, _seed: u32) -> i32 {
    100
}

fn resident_window(world: &World, cx: i32, cy: i32, r: i32) {
    for i in (cx - r - 3)..=(cx + r + 3) {
        for j in (cy - r - 3)..=(cy + r + 3) {
            let inside = (i - cx).abs().max((j - cy).abs()) <= r;
            assert_eq!(world.is_resident((i, j)), inside, "chunk ({}, {})", i, j);
        }
    }
}

#[test]
fn floor_division_and_modulo() {
    assert_eq!(chunk_coord(-1), -1);
    assert_eq!(local_coord(-1), 31);
    assert_eq!(chunk_coord(-32), -1);
    assert_eq!(local_coord(-32), 0);
    assert_eq!(chunk_coord(-33), -2);
    assert_eq!(local_coord(-33), 31);
    assert_eq!(chunk_coord(31), 0);
    assert_eq!(local_coord(31), 31);
    assert_eq!(chunk_coord(32), 1);
    assert_eq!(local_coord(32), 0);
}

#[test]
fn chunk_layers_follow_surface() {
    let registry = TileRegistry::new();
    let chunk = Chunk::new((0, 0), 42, &registry, &flat);
    assert_eq!(chunk.get((3, 4, 100)), GRASS_ID);
    assert_eq!(chunk.get((3, 4, 101)), AIR_ID);
    assert_eq!(chunk.get((3, 4, 255)), AIR_ID);
    assert_eq!(chunk.get((3, 4, 99)), DIRT_ID);
    assert_eq!(chunk.get((3, 4, 97)), DIRT_ID);
    assert_eq!(chunk.get((3, 4, 96)), STONE_ID);
    assert_eq!(chunk.get((3, 4, 0)), STONE_ID);
    assert_eq!(chunk.coord_x(), 0);
    assert_eq!(chunk.coord_y(), 0);
}

#[test]
fn chunk_out_of_range_is_air() {
    let registry = TileRegistry::new();
    let chunk = Chunk::new((2, -3), 42, &registry, &flat);
    assert_eq!(chunk.get((-1, 0, 0)), AIR_ID);
    assert_eq!(chunk.get((32, 0, 0)), AIR_ID);
    assert_eq!(chunk.get((0, -1, 0)), AIR_ID);
    assert_eq!(chunk.get((0, 32, 0)), AIR_ID);
    assert_eq!(chunk.get((0, 0, -1)), AIR_ID);
    assert_eq!(chunk.get((0, 0, 256)), AIR_ID);
    assert_eq!(chunk.get((0, 0, 0)), STONE_ID);
}

fn ramp(x: i32, _y: i32, _seed: u32) -> i32 {
    50 + x
}

#[test]
fn chunk_seam_uses_world_columns() {
    let registry = TileRegistry::new();
    let left = Chunk::new((0, 0), 9, &registry, &ramp);
    let right = Chunk::new((1, 0), 9, &registry, &ramp);
    // World column 31 has its surface at 81, world column 32 at 82.
    assert_eq!(left.get((31, 5, 81)), GRASS_ID);
    assert_eq!(left.get((31, 5, 82)), AIR_ID);
    assert_eq!(right.get((0, 5, 82)), GRASS_ID);
    assert_eq!(right.get((0, 5, 81)), DIRT_ID);
    // Local column 0 of the right chunk is not world column 0.
    assert_ne!(right.get((0, 5, 50)), GRASS_ID);
}

#[test]
fn chunk_build_is_deterministic() {
    let registry = TileRegistry::new();
    let a = Chunk::new((-2, 7), 5, &registry, &ramp);
    let b = Chunk::new((-2, 7), 5, &registry, &ramp);
    for x in 0..32 {
        for z in 0..256 {
            assert_eq!(a.get((x, 3, z)), b.get((x, 3, z)));
        }
    }
}

fn dip_at_minus_one(x: i32, _y: i32, _seed: u32) -> i32 {
    if x == -1 {
        10
    } else {
        100
    }
}

#[test]
fn negative_coordinates_wrap_to_last_column() {
    let world = World::new(42, &dip_at_minus_one);
    assert_eq!(world.get((-1, 0, 10)), GRASS_ID);
    assert_eq!(world.get((-1, 0, 50)), AIR_ID);
    assert_eq!(world.get((-2, 0, 50)), STONE_ID);
    assert_eq!(world.get((1, 0, 50)), STONE_ID);
    assert_eq!(world.get((0, 0, 100)), GRASS_ID);
}

#[test]
fn absent_chunk_reads_as_air() {
    let world = World::new(42, &flat);
    assert_eq!(world.get((32 * 5, 0, 0)), AIR_ID);
    assert_eq!(world.get((32 * 4, 0, 0)), STONE_ID);
}

#[test]
fn end_to_end_window_moves_with_player() {
    let mut world = World::new(42, &flat);
    assert_eq!(world.seed(), 42);
    assert_eq!(world.chunk_count(), 81);
    for i in -4..=4 {
        for j in -4..=4 {
            assert!(world.is_resident((i, j)));
        }
    }
    resident_window(&world, 0, 0, 4);
    world.move_player(32, 0, 0, &flat);
    assert_eq!(world.player().x, 32);
    assert_eq!(world.chunk_count(), 81);
    for j in -4..=4 {
        assert!(!world.is_resident((-4, j)));
        assert!(world.is_resident((5, j)));
    }
    resident_window(&world, 1, 0, 4);
}

#[test]
fn load_chunk_twice_changes_nothing() {
    let mut world = World::new(1, &flat);
    world.load_chunk((10, 10), &flat);
    assert_eq!(world.chunk_count(), 82);
    let before = world.get((320 + 3, 320 + 4, 100));
    world.load_chunk((10, 10), &ramp);
    assert_eq!(world.chunk_count(), 82);
    assert_eq!(world.get((320 + 3, 320 + 4, 100)), before);
    assert_eq!(before, GRASS_ID);
}

#[test]
fn eviction_restores_square_after_moves() {
    let mut world = World::new(3, &flat);
    world.load_chunk((20, 20), &flat);
    world.move_player(-1, 0, 0, &flat);
    resident_window(&world, -1, 0, 4);
    assert!(!world.is_resident((20, 20)));
    world.move_player(-70, 100, 0, &flat);
    resident_window(&world, -3, 3, 4);
    assert_eq!(world.chunk_count(), 81);
    world.move_player(71, -100, 0, &flat);
    resident_window(&world, 0, 0, 4);
}

#[test]
fn vertical_moves_are_clamped() {
    let mut world = World::new(3, &flat);
    assert_eq!(world.player().z, 128);
    world.move_player(0, 0, -500, &flat);
    assert_eq!(world.player().z, 0);
    world.move_player(0, 0, 1000, &flat);
    assert_eq!(world.player().z, 255);
    world.move_player(0, 0, -5, &flat);
    assert_eq!(world.player().z, 250);
}

fn surface_below_player(_x: i32, _y: i32, _seed: u32) -> i32 {
    127
}

fn surface_at_player(_x: i32, _y: i32, _seed: u32) -> i32 {
    128
}

#[test]
fn air_above_grass_shows_grass_top() {
    let world = World::new(42, &surface_below_player);
    let mut buffer = FrameBuffer::new(5, 3);
    world.render((5, 3), &mut buffer);
    let (glyph, styles) = buffer.cell(0, 0);
    assert_eq!(glyph, '"');
    assert_eq!(styles.to_vec(), vec![Style::Fg(0, 255, 0), Style::Bold]);
    let (glyph, styles) = buffer.cell(4, 2);
    assert_eq!(glyph, '"');
    assert_eq!(styles.to_vec(), vec![Style::Fg(0, 255, 0), Style::Bold]);
}

#[test]
fn opaque_tile_shows_its_side() {
    let world = World::new(42, &surface_at_player);
    let mut buffer = FrameBuffer::new(4, 4);
    world.render((4, 4), &mut buffer);
    let (glyph, styles) = buffer.cell(1, 2);
    assert_eq!(glyph, '"');
    assert_eq!(styles.to_vec(), vec![Style::Fg(150, 75, 0), Style::Bold]);
}

#[test]
fn air_above_air_shows_blank() {
    let mut world = World::new(42, &surface_below_player);
    world.move_player(0, 0, 10, &surface_below_player);
    let mut buffer = FrameBuffer::new(3, 3);
    world.render((3, 3), &mut buffer);
    let (glyph, styles) = buffer.cell(1, 1);
    assert_eq!(glyph, ' ');
    assert!(styles.is_empty());
}

#[test]
fn player_drawn_on_centre_cell() {
    let world = World::new(42, &surface_below_player);
    let mut buffer = FrameBuffer::new(6, 4);
    buffer.render_world(&world);
    let (glyph, styles) = buffer.cell(2, 1);
    assert_eq!(glyph, world.player().sprite);
    assert_eq!(styles.to_vec(), vec![Style::Bold]);
    let (glyph, _) = buffer.cell(3, 1);
    assert_eq!(glyph, '"');
}

#[test]
fn render_draws_only_the_given_size() {
    let world = World::new(42, &surface_below_player);
    let mut buffer = FrameBuffer::new(4, 4);
    world.render((2, 1), &mut buffer);
    assert_eq!(buffer.cell(1, 0).0, '"');
    assert_eq!(buffer.cell(2, 0).0, ' ');
    assert_eq!(buffer.cell(0, 1).0, ' ');
}
