use simple_tile_map::tile::{Tile, TileColor, TileFlags, FLIP_X, FLIP_Y};

#[test]
fn default_tile_is_untinted_and_unflipped() {
    let t = Tile::default();
    assert_eq!(t.sprite_index, 0);
    assert_eq!(t.color, TileColor::new(255, 255, 255, 255));
    assert_eq!(t.flags.bits, 0);
    assert!(!t.flags.flips_x());
    assert!(!t.flags.flips_y());
}

#[test]
fn flags_are_independent_bits() {
    let x = TileFlags::from_bits(FLIP_X);
    assert!(x.flips_x() && !x.flips_y());
    let y = TileFlags::from_bits(FLIP_Y);
    assert!(!y.flips_x() && y.flips_y());
    let both = TileFlags::from_bits(FLIP_X | FLIP_Y);
    assert!(both.flips_x() && both.flips_y());
    assert_eq!(TileFlags::default(), TileFlags::empty());
}

#[test]
fn new_tile_carries_its_sprite_index() {
    assert_eq!(Tile::new(42).sprite_index, 42);
}
