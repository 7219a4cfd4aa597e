use rsts::grid::{compose_grid, compose_row, grid_fits_exec, parse_direction, Direction, GridCell, GridError, GridRowImages};
use rsts::raster::{decode_image, encode_image, Raster};
use rsts::reply::{failure_reply, Body, Failure};

const RED: [u8; 4] = [255, 0, 0, 255];
const BLUE: [u8; 4] = [0, 0, 255, 255];
const GREEN: [u8; 4] = [0, 255, 0, 255];
const CLEAR: [u8; 4] = [0, 0, 0, 0];

fn solid(w: u32, h: u32, px: [u8; 4]) -> Raster {
    let mut v = Vec::new();
    for _ in 0..(w * h) {
        v.extend_from_slice(&px);
    }
    Raster::from_rgba(w, h, v).unwrap()
}

fn pixels(rows: &[&[[u8; 4]]]) -> Vec<u8> {
    rows.iter().flat_map(|r| r.iter().flat_map(|p| p.iter().copied())).collect()
}

fn cell(dir: &str, img: Raster) -> GridCell {
    GridCell { direction: dir.to_string(), image: img }
}

fn row(dir: &str, cells: Vec<GridCell>) -> GridRowImages {
    GridRowImages { direction: dir.to_string(), cells }
}

#[test]
fn raster_needs_four_bytes_per_pixel() {
    assert!(Raster::from_rgba(2, 2, vec![0; 15]).is_none());
    assert!(Raster::from_rgba(2, 2, vec![0; 17]).is_none());
    let r = Raster::from_rgba(2, 2, vec![0; 16]).unwrap();
    assert_eq!((r.width(), r.height()), (2, 2));
}

#[test]
fn blank_is_transparent() {
    let b = Raster::blank(3, 2);
    assert_eq!(b.pixels(), &vec![0u8; 24]);
}

#[test]
fn place_right_joins_side_by_side() {
    let r = Raster::place_right(&solid(1, 2, RED), &solid(2, 1, BLUE));
    assert_eq!((r.width(), r.height()), (3, 2));
    assert_eq!(r.into_pixels(), pixels(&[&[RED, BLUE, BLUE], &[RED, CLEAR, CLEAR]]));
}

#[test]
fn place_below_stacks() {
    let r = Raster::place_below(&solid(1, 1, RED), &solid(2, 1, BLUE));
    assert_eq!((r.width(), r.height()), (2, 2));
    assert_eq!(r.into_pixels(), pixels(&[&[RED, CLEAR], &[BLUE, BLUE]]));
}

#[test]
fn directions() {
    assert_eq!(parse_direction("right"), Direction::Right);
    assert_eq!(parse_direction("bottom"), Direction::Bottom);
    assert_eq!(parse_direction("Right"), Direction::Other);
    assert_eq!(parse_direction(""), Direction::Other);
}

#[test]
fn single_map_grid_is_the_map() {
    let grid = vec![row("bottom", vec![cell("right", solid(2, 3, GREEN))])];
    assert!(grid_fits_exec(&grid));
    let img = compose_grid(grid).unwrap();
    assert_eq!((img.width(), img.height()), (2, 3));
    assert_eq!(img.into_pixels(), solid(2, 3, GREEN).into_pixels());
}

#[test]
fn grid_rows_and_columns() {
    let grid = vec![
        row("ignored", vec![cell("x", solid(1, 1, RED)), cell("right", solid(1, 1, BLUE))]),
        row("bottom", vec![cell("x", solid(1, 1, GREEN))]),
    ];
    assert!(grid_fits_exec(&grid));
    let img = compose_grid(grid).unwrap();
    assert_eq!((img.width(), img.height()), (2, 2));
    assert_eq!(img.into_pixels(), pixels(&[&[RED, BLUE], &[GREEN, CLEAR]]));
}

#[test]
fn unknown_direction_in_row_replaces_previous_maps() {
    let r = compose_row(vec![cell("right", solid(1, 1, RED)), cell("up", solid(2, 2, BLUE))]).unwrap();
    assert_eq!((r.width(), r.height()), (2, 2));
    assert_eq!(r.into_pixels(), solid(2, 2, BLUE).into_pixels());
}

#[test]
fn unknown_direction_between_rows_drops_row() {
    let grid = vec![
        row("right", vec![cell("right", solid(1, 1, RED))]),
        row("sideways", vec![cell("right", solid(5, 5, BLUE))]),
    ];
    let img = compose_grid(grid).unwrap();
    assert_eq!((img.width(), img.height()), (1, 1));
}

#[test]
fn empty_rows_are_skipped() {
    let grid = vec![row("right", vec![]), row("right", vec![cell("right", solid(1, 1, RED))])];
    let img = compose_grid(grid).unwrap();
    assert_eq!(img.into_pixels(), RED.to_vec());
}

#[test]
fn grid_without_maps_fails() {
    let err = compose_grid(vec![row("right", vec![])]).unwrap_err();
    assert_eq!(err, GridError::NoMaps);
    assert_eq!(err.message(), "no maps to render");
    assert!(compose_grid(vec![]).is_err());
    assert!(compose_row(vec![]).is_none());
}

#[test]
fn oversized_grid_is_reported() {
    let wide = Raster::from_rgba(u32::MAX, 0, vec![]).unwrap();
    let grid = vec![row("right", vec![cell("right", wide), cell("right", solid(1, 1, RED))])];
    assert!(!grid_fits_exec(&grid));
}

#[test]
fn png_encoding_and_decoding_round_trip() {
    let img = Raster::place_right(&solid(1, 1, RED), &solid(1, 1, BLUE));
    let reply = encode_image(&img);
    assert_eq!(reply.status, 200);
    assert_eq!(reply.content_type, "image/png");
    let png = match reply.body {
        Body::Bytes(b) => b,
        other => panic!("unexpected body {:?}", other),
    };
    assert_eq!(&png[..8], &[0x89, b'P', b'N', b'G', 0x0d, 0x0a, 0x1a, 0x0a]);
    let back = decode_image(&png).unwrap();
    assert_eq!((back.rgba.width(), back.rgba.height()), (2, 1));
    assert_eq!((back.native.width(), back.native.height()), (2, 1));
    assert_eq!(back.rgba.into_pixels(), pixels(&[&[RED, BLUE]]));
}

#[test]
fn undecodable_image_is_an_error() {
    assert!(decode_image(b"not an image").is_err());
    assert!(decode_image(&[]).is_err());
}

#[test]
fn failure_messages() {
    let r = failure_reply(Failure::StaticMap, "boom");
    assert_eq!(r.status, 500);
    assert_eq!(r.content_type, "text/plain; charset=utf-8");
    assert_eq!(r.body, Body::Text("error generating map: boom".to_string()));
    assert_eq!(failure_reply(Failure::MultiMap, "x").body, Body::Text("error generating multi-map: x".to_string()));
    assert_eq!(failure_reply(Failure::Template, "y").body, Body::Text("error rendering template: y".to_string()));
}

#[test]
fn decoding_keeps_the_original_colour_type() {
    let gray = image::DynamicImage::ImageLuma8(image::GrayImage::from_raw(2, 1, vec![10, 200]).unwrap());
    let mut png = std::io::Cursor::new(Vec::new());
    gray.write_to(&mut png, image::ImageFormat::Png).unwrap();
    let decoded = decode_image(png.get_ref()).unwrap();
    assert_eq!(decoded.native.color(), image::ColorType::L8);
    assert_eq!(decoded.rgba.into_pixels(), vec![10, 10, 10, 255, 200, 200, 200, 255]);
}

#[test]
fn round_trip_keeps_partly_transparent_pixels() {
    let px = vec![1, 2, 3, 4, 250, 251, 252, 128, 0, 0, 0, 0];
    let img = Raster::from_rgba(3, 1, px.clone()).unwrap();
    let png = match encode_image(&img).body {
        Body::Bytes(b) => b,
        other => panic!("unexpected body {:?}", other),
    };
    let back = decode_image(&png).unwrap();
    assert_eq!(back.rgba.into_pixels(), px);
}

#[test]
fn placement_shows_opaque_pixels_and_hides_transparent_ones() {
    let a = Raster::from_rgba(2, 1, pixels(&[&[RED, CLEAR]])).unwrap();
    let b = Raster::from_rgba(1, 2, pixels(&[&[GREEN], &[[9, 9, 9, 0]]])).unwrap();
    let r = Raster::place_right(&a, &b);
    assert_eq!((r.width(), r.height()), (3, 2));
    assert_eq!(r.into_pixels(), pixels(&[&[RED, CLEAR, GREEN], &[CLEAR, CLEAR, CLEAR]]));
    let r = Raster::place_below(&b, &a);
    assert_eq!((r.width(), r.height()), (2, 3));
    assert_eq!(r.into_pixels(), pixels(&[&[GREEN, CLEAR], &[CLEAR, CLEAR], &[RED, CLEAR]]));
}

#[test]
fn decoded_image_is_the_file_as_decoded() {
    let rgb = image::DynamicImage::ImageRgb8(image::RgbImage::from_raw(1, 2, vec![1, 2, 3, 4, 5, 6]).unwrap());
    let mut png = std::io::Cursor::new(Vec::new());
    rgb.write_to(&mut png, image::ImageFormat::Png).unwrap();
    let decoded = decode_image(png.get_ref()).unwrap();
    assert_eq!(decoded.native, image::load_from_memory(png.get_ref()).unwrap());
    assert_eq!(decoded.native, rgb);
    assert_eq!(decoded.rgba.into_pixels(), vec![1, 2, 3, 255, 4, 5, 6, 255]);
}
