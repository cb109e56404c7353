use osm_tiler::model::Loc;
use osm_tiler::tiling::{
    GeoError, Quadkey, TileCoord, clamp_tile_index, tile_coord_for_loc, tile_coord_to_quadkey,
    tile_x_for_nano_lon,
};

#[test]
fn latitude_just_inside_range_succeeds() {
    // 85.0511287 degrees, just inside the Web-Mercator limit of 85.05112878.
    let loc = Loc { nano_lat: 85_051_128_700, nano_lon: 0 };
    assert!(tile_coord_for_loc(&loc, 7, 0).is_ok());
}

#[test]
fn latitude_out_of_range_fails() {
    let loc = Loc { nano_lat: 85_100_000_000, nano_lon: 0 };
    assert_eq!(tile_coord_for_loc(&loc, 7, 0), Err(GeoError::LatitudeOutOfRange));
    let neg = Loc { nano_lat: -85_100_000_000, nano_lon: 0 };
    assert_eq!(tile_coord_for_loc(&neg, 7, 0), Err(GeoError::LatitudeOutOfRange));
}

#[test]
fn longitude_out_of_range_fails() {
    let loc = Loc { nano_lat: 0, nano_lon: 180_100_000_000 };
    assert_eq!(tile_coord_for_loc(&loc, 7, 0), Err(GeoError::LongitudeOutOfRange));
}

#[test]
fn tile_x_matches_the_formula() {
    // x = floor((lon + 180) / 360 * 2^zoom)
    assert_eq!(tile_x_for_nano_lon(0, 7), 64);
    assert_eq!(tile_x_for_nano_lon(-180_000_000_000, 7), 0);
    // lon = 180 hits 2^zoom exactly and is clamped to the last column.
    assert_eq!(tile_x_for_nano_lon(180_000_000_000, 7), 127);
    // Stockholm-ish: lon 18.06 at zoom 7: floor(198.06 / 360 * 128) = 70.
    assert_eq!(tile_x_for_nano_lon(18_060_000_000, 7), 70);
}

#[test]
fn clamping_guards_the_upper_edge() {
    assert_eq!(clamp_tile_index(5, 7), 5);
    assert_eq!(clamp_tile_index(127, 7), 127);
    assert_eq!(clamp_tile_index(128, 7), 127);
    assert_eq!(clamp_tile_index(1_000_000, 7), 127);
}

#[test]
fn quadkey_has_one_digit_per_zoom_level() {
    for zoom in 0u8..=10 {
        let t = TileCoord { x: 1, y: 1, zoom };
        assert_eq!(tile_coord_to_quadkey(&t).len(), zoom as usize);
    }
}

#[test]
fn quadkey_digits_match_the_bit_interleaving() {
    // x = 5 (101), y = 3 (011) at zoom 3: digits 1, 2, 3.
    let t = TileCoord { x: 5, y: 3, zoom: 3 };
    assert_eq!(tile_coord_to_quadkey(&t), "123");
    let origin = TileCoord { x: 0, y: 0, zoom: 4 };
    assert_eq!(tile_coord_to_quadkey(&origin), "0000");
    let corner = TileCoord { x: 7, y: 7, zoom: 3 };
    assert_eq!(tile_coord_to_quadkey(&corner), "333");
}

#[test]
fn quadkey_encoding_is_deterministic() {
    let t = TileCoord { x: 70, y: 41, zoom: 7 };
    let first = tile_coord_to_quadkey(&t);
    let second = tile_coord_to_quadkey(&t);
    assert_eq!(first, second);
    assert_eq!(first.len(), 7);
}

#[test]
fn quadkey_address_renders_like_its_tile_coordinate() {
    let t = TileCoord { x: 70, y: 41, zoom: 7 };
    let q = Quadkey::from_tile_coord(&t);
    assert_eq!(q.digits(), tile_coord_to_quadkey(&t));
}

#[test]
fn resolving_a_coordinate_clamps_the_row() {
    let loc = Loc { nano_lat: 0, nano_lon: 0 };
    let t = tile_coord_for_loc(&loc, 7, 64).unwrap();
    assert_eq!((t.x, t.y, t.zoom), (64, 64, 7));
    let clamped = tile_coord_for_loc(&loc, 7, 400).unwrap();
    assert_eq!(clamped.y, 127);
}
