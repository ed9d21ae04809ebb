use aftventure::render::FrameBuffer;
use aftventure::render::Style;
use aftventure::tile::add_tiles;
use aftventure::tile::Air;
use aftventure::tile::Dirt;
use aftventure::tile::Grass;
use aftventure::tile::Stone;
use aftventure::tile::Tile;
use aftventure::tile::TileKind;
use aftventure::tile::TileRegistry;

#[test]
fn registry_ids_follow_registration_order() {
    let registry = TileRegistry::new();
    assert_eq!(registry.len(), 4);
    assert_eq!(registry.id_of(&"air".to_string()), 0);
    assert_eq!(registry.id_of(&"dirt".to_string()), 1);
    assert_eq!(registry.id_of(&"stone".to_string()), 2);
    assert_eq!(registry.id_of(&"grass".to_string()), 3);
    assert_eq!(registry.tile_at(3).name(), "grass");
}

#[test]
fn add_tiles_appends_fixed_set() {
    let mut tiles = vec![TileKind::Stone(Stone::new())];
    add_tiles(&mut tiles);
    assert_eq!(tiles.len(), 5);
    let names: Vec<String> = tiles.iter().map(|t| t.name()).collect();
    assert_eq!(names, vec!["stone", "air", "dirt", "stone", "grass"]);
}

#[test]
fn tile_properties() {
    assert!(Air::new().transparent());
    assert!(Air::new().habitable());
    assert!(!Air::new_out_of_bounds().transparent());
    assert!(!Grass::new().transparent());
    assert!(!Grass::new().habitable());
    assert!(!Dirt::new().transparent());
    assert!(!Stone::new().transparent());
    assert_eq!(Air::new().name(), "air");
    assert_eq!(Dirt::new().name(), "dirt");
    assert_eq!(Stone::new().name(), "stone");
    assert_eq!(Grass::new().name(), "grass");
}

#[test]
fn tile_glyphs() {
    let mut buffer = FrameBuffer::new(4, 2);
    Grass::new().render((1, 1), (4, 2), &mut buffer);
    Grass::new().render_top((2, 1), (4, 2), &mut buffer);
    Dirt::new().render((3, 1), (4, 2), &mut buffer);
    Dirt::new().render_top((4, 1), (4, 2), &mut buffer);
    Stone::new().render((1, 2), (4, 2), &mut buffer);
    Stone::new().render_top((2, 2), (4, 2), &mut buffer);
    TileKind::Air(Air::new()).render((3, 2), (4, 2), &mut buffer);
    assert_eq!(buffer.cell(0, 0).0, '"');
    assert_eq!(buffer.cell(0, 0).1.to_vec(), vec![Style::Fg(150, 75, 0), Style::Bold]);
    assert_eq!(buffer.cell(1, 0).1.to_vec(), vec![Style::Fg(0, 255, 0), Style::Bold]);
    assert_eq!(buffer.cell(2, 0).1.to_vec(), vec![Style::Fg(150, 75, 0)]);
    assert_eq!(buffer.cell(3, 0).0, '.');
    assert_eq!(buffer.cell(0, 1).0, '#');
    assert_eq!(buffer.cell(0, 1).1.to_vec(), vec![Style::Fg(128, 128, 128)]);
    assert_eq!(buffer.cell(1, 1).0, '.');
    assert_eq!(buffer.cell(2, 1).0, ' ');
}
