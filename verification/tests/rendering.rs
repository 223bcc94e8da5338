use waveflow::canvas::{render_tile, stitch_assignment, Canvas};
use waveflow::color::{hex_to_rgba, ColorError, Rgba};
use waveflow::errors::{FatalKind, SolveError};
use waveflow::sector::Sector as SectorData;
use waveflow::shape::Shape;
use waveflow::solver::Assignment;
use waveflow::tile::{Sector, Tile};

fn rgba(r: u8, g: u8, b: u8, a: u8) -> Rgba {
    Rgba { r, g, b, a }
}

#[test]
fn hex_six_digits_is_opaque() {
    assert_eq!(hex_to_rgba("#FF00AA"), Ok(rgba(255, 0, 170, 255)));
    assert_eq!(hex_to_rgba("FF00AA"), Ok(rgba(255, 0, 170, 255)));
}

#[test]
fn hex_eight_digits_carries_alpha() {
    assert_eq!(hex_to_rgba("#FF00AA80"), Ok(rgba(255, 0, 170, 128)));
}

#[test]
fn hex_lowercase_digits() {
    assert_eq!(hex_to_rgba("#a1b2c3"), Ok(rgba(161, 178, 195, 255)));
}

#[test]
fn hex_repeated_hash_signs_are_stripped() {
    assert_eq!(hex_to_rgba("##00FF00"), Ok(rgba(0, 255, 0, 255)));
}

#[test]
fn hex_component_may_carry_plus_sign() {
    // the byte-radix parse accepts a plus sign before a single digit
    assert_eq!(hex_to_rgba("+f0000ff"), Ok(rgba(15, 0, 0, 255)));
}

#[test]
fn hex_bad_length_rejected() {
    assert_eq!(hex_to_rgba("#FF00A"), Err(ColorError::BadLength));
    assert_eq!(hex_to_rgba(""), Err(ColorError::BadLength));
    assert_eq!(hex_to_rgba("#########"), Err(ColorError::BadLength));
}

#[test]
fn hex_bad_components_reported_in_order() {
    assert_eq!(hex_to_rgba("xx0000"), Err(ColorError::BadRed));
    assert_eq!(hex_to_rgba("00xx00"), Err(ColorError::BadGreen));
    assert_eq!(hex_to_rgba("0000xx"), Err(ColorError::BadBlue));
    assert_eq!(hex_to_rgba("000000xx"), Err(ColorError::BadAlpha));
}

#[test]
fn solid_canvas_holds_one_color() {
    let c = Canvas::solid(3, 2, rgba(1, 2, 3, 4));
    assert_eq!(c.width, 3);
    assert_eq!(c.height, 2);
    assert_eq!(c.pixels.len(), 6);
    assert!(c.pixels.iter().all(|p| *p == rgba(1, 2, 3, 4)));
}

#[test]
fn fill_rect_is_clipped() {
    let mut c = Canvas::solid(2, 2, rgba(0, 0, 0, 255));
    // a 3x3 rectangle at (1, 1) only covers the bottom-right pixel
    c.fill_rect(1, 1, 3, 3, rgba(9, 9, 9, 255));
    assert_eq!(c.get_pixel(0, 0), rgba(0, 0, 0, 255));
    assert_eq!(c.get_pixel(1, 0), rgba(0, 0, 0, 255));
    assert_eq!(c.get_pixel(0, 1), rgba(0, 0, 0, 255));
    assert_eq!(c.get_pixel(1, 1), rgba(9, 9, 9, 255));
}

#[test]
fn render_tile_paints_base_and_sectors() {
    let tile = Tile {
        name: "grass".to_string(),
        path: "grass.yaml".to_string(),
        description: "".to_string(),
        color_code: "#FF0000".to_string(),
        dimensions: (2, 2),
        sectors: vec![Sector {
            path: "well.yaml".to_string(),
            dimensions: (1, 1),
            origin: (1, 1),
        }],
    };
    let data = vec![SectorData { name: "well".to_string(), color_code: "#00FF00".to_string() }];
    let c = render_tile(&tile, &data).expect("both color codes are valid");
    assert_eq!((c.width, c.height), (2, 2));
    assert_eq!(c.get_pixel(0, 0), rgba(255, 0, 0, 255));
    assert_eq!(c.get_pixel(1, 0), rgba(255, 0, 0, 255));
    assert_eq!(c.get_pixel(0, 1), rgba(255, 0, 0, 255));
    assert_eq!(c.get_pixel(1, 1), rgba(0, 255, 0, 255));
}

#[test]
fn render_tile_reports_bad_sector_color() {
    let tile = Tile {
        name: "t".to_string(),
        path: "t.yaml".to_string(),
        description: "".to_string(),
        color_code: "#FF0000".to_string(),
        dimensions: (1, 1),
        sectors: vec![Sector {
            path: "s.yaml".to_string(),
            dimensions: (1, 1),
            origin: (0, 0),
        }],
    };
    let data = vec![SectorData { name: "s".to_string(), color_code: "nope".to_string() }];
    match render_tile(&tile, &data) {
        Err(e) => assert_eq!(e, ColorError::BadLength),
        Ok(_) => panic!("expected an error for a bad sector color"),
    }
}

#[test]
fn stitch_places_tiles_in_scan_order() {
    let red = Canvas::solid(1, 1, rgba(255, 0, 0, 255));
    let blue = Canvas::solid(1, 1, rgba(0, 0, 255, 255));
    let tiles = vec![red, blue];
    let a = Assignment { shape: Shape::Line { length: 3 }, tiles: vec![1, 0, 1] };
    let c = stitch_assignment(&tiles, &a, 1, 1).expect("all assets present");
    assert_eq!((c.width, c.height), (3, 1));
    assert_eq!(c.get_pixel(0, 0), rgba(0, 0, 255, 255));
    assert_eq!(c.get_pixel(1, 0), rgba(255, 0, 0, 255));
    assert_eq!(c.get_pixel(2, 0), rgba(0, 0, 255, 255));
}

#[test]
fn stitch_missing_asset_is_fatal() {
    let red = Canvas::solid(1, 1, rgba(255, 0, 0, 255));
    let tiles = vec![red];
    let a = Assignment { shape: Shape::Line { length: 2 }, tiles: vec![0, 1] };
    match stitch_assignment(&tiles, &a, 1, 1) {
        Err(SolveError::Fatal { kind }) => {
            assert_eq!(kind, FatalKind::MissingAsset { tile: 1 });
        },
        other => panic!("expected Fatal, got {:?}", other),
    }
}

#[test]
fn stitch_two_dimensional_layout() {
    let a0 = Canvas::solid(2, 1, rgba(10, 0, 0, 255));
    let a1 = Canvas::solid(2, 1, rgba(0, 10, 0, 255));
    let tiles = vec![a0, a1];
    let a = Assignment { shape: Shape::Rect { width: 2, height: 2 }, tiles: vec![0, 1, 1, 0] };
    let c = stitch_assignment(&tiles, &a, 2, 1).expect("all assets present");
    assert_eq!((c.width, c.height), (4, 2));
    assert_eq!(c.get_pixel(0, 0), rgba(10, 0, 0, 255));
    assert_eq!(c.get_pixel(2, 0), rgba(0, 10, 0, 255));
    assert_eq!(c.get_pixel(1, 1), rgba(0, 10, 0, 255));
    assert_eq!(c.get_pixel(3, 1), rgba(10, 0, 0, 255));
}
