use rsts::config::{Config, TileSources};
use rsts::json::{JsonNumber, JsonValue};
use rsts::overlays::{
    floats_equal, float_value, inject_overlays_into_style, style_shape_ok_exec, MarkerOverlay, Overlays,
    ShapeOverlay, StyleError, ONE_BITS,
};
use rsts::style::{
    choose_style, local_tiles_address, rewrite_string, rewrite_urls_recursive, style_response_error, StyleSource,
};

fn s(v: &str) -> JsonValue {
    JsonValue::Str(v.to_string())
}

fn obj(members: Vec<(&str, JsonValue)>) -> JsonValue {
    JsonValue::Object(members.into_iter().map(|(k, v)| (k.to_string(), v)).collect())
}

fn num(v: u64) -> JsonValue {
    JsonValue::Number(JsonNumber::PosInt(v))
}

fn fl(v: f64) -> JsonValue {
    JsonValue::Number(JsonNumber::Float(v.to_bits()))
}

fn pos(lon: f64, lat: f64) -> JsonValue {
    JsonValue::Array(vec![fl(lon), fl(lat)])
}

fn config() -> Config {
    Config {
        martin_url: "http://martin:3000".to_string(),
        thread_count: Some(2),
        cache_size_gb: Some(1),
        tile_sources: TileSources::from_entries(vec![("osm".to_string(), "https://t/{z}/{x}/{y}".to_string())]),
    }
}

#[test]
fn own_addresses_are_rewritten_everywhere() {
    let mut style = obj(vec![
        ("sprite", s("http://localhost:3000/sprite/basic")),
        ("glyphs", s("{base}/font/{fontstack}/{range}")),
        ("sources", obj(vec![("t", obj(vec![("url", s("http://127.0.0.1:3000/planet"))]))])),
        ("tiles", JsonValue::Array(vec![s("http://localhost:3000/a"), num(3)])),
        ("http://localhost:3000", s("key stays")),
    ]);
    rewrite_urls_recursive(&mut style, "https://maps.example.com//");
    let expected = obj(vec![
        ("sprite", s("https://maps.example.com/sprite/basic")),
        ("glyphs", s("https://maps.example.com/font/{fontstack}/{range}")),
        ("sources", obj(vec![("t", obj(vec![("url", s("https://maps.example.com/planet"))]))])),
        ("tiles", JsonValue::Array(vec![s("https://maps.example.com/a"), num(3)])),
        ("http://localhost:3000", s("key stays")),
    ]);
    assert_eq!(style, expected);
}

#[test]
fn foreign_style_is_left_alone() {
    let unchanged = obj(vec![("a", s("https://elsewhere/x")), ("b", JsonValue::Array(vec![JsonValue::Null, JsonValue::Bool(false)]))]);
    let mut style = obj(vec![("a", s("https://elsewhere/x")), ("b", JsonValue::Array(vec![JsonValue::Null, JsonValue::Bool(false)]))]);
    rewrite_urls_recursive(&mut style, "https://maps.example.com");
    assert_eq!(style, unchanged);
}

#[test]
fn rewrite_string_order() {
    assert_eq!(rewrite_string("http://localhost:3000|{base}|http://127.0.0.1:3000", "B"), "B|B|B");
}

#[test]
fn raster_source_gets_local_raster_style() {
    let c = config();
    match choose_style(&c, "osm", Some(2)) {
        StyleSource::Document(doc) => {
            let expected = obj(vec![
                ("version", num(8)),
                (
                    "sources",
                    obj(vec![(
                        "raster-tiles",
                        obj(vec![
                            ("type", s("raster")),
                            ("tiles", JsonValue::Array(vec![s("http://localhost:3001/tiles/osm/{z}/{x}/{y}?scale=2")])),
                            ("tileSize", num(256)),
                        ]),
                    )]),
                ),
                (
                    "layers",
                    JsonValue::Array(vec![obj(vec![
                        ("id", s("simple-tiles")),
                        ("type", s("raster")),
                        ("source", s("raster-tiles")),
                        ("minzoom", num(0)),
                        ("maxzoom", num(22)),
                    ])]),
                ),
            ]);
            assert_eq!(doc, expected);
        }
        other => panic!("unexpected {:?}", other),
    }
    assert_eq!(local_tiles_address("osm", 1), "http://localhost:3001/tiles/osm/{z}/{x}/{y}?scale=1");
}

#[test]
fn vector_style_comes_from_tile_server() {
    let c = config();
    match choose_style(&c, "basic", None) {
        StyleSource::Remote(url) => assert_eq!(url, "http://martin:3000/style/basic.json"),
        other => panic!("unexpected {:?}", other),
    }
}

fn shape(points: &[(f64, f64)], fill: Option<&str>, stroke: Option<&str>, width: Option<u32>) -> ShapeOverlay {
    ShapeOverlay {
        points: points.iter().map(|(lat, lon)| (lat.to_bits(), lon.to_bits())).collect(),
        fill_color: fill.map(|c| c.to_string()),
        stroke_color: stroke.map(|c| c.to_string()),
        stroke_width: width,
    }
}

fn geojson(ring: Vec<JsonValue>) -> JsonValue {
    obj(vec![
        ("type", s("geojson")),
        (
            "data",
            obj(vec![
                ("type", s("Feature")),
                ("geometry", obj(vec![("type", s("Polygon")), ("coordinates", JsonValue::Array(vec![JsonValue::Array(ring)]))])),
            ]),
        ),
    ])
}

#[test]
fn overlays_become_sources_and_layers() {
    let mut style = obj(vec![
        ("version", num(8)),
        ("layers", JsonValue::Array(vec![obj(vec![("id", s("base"))])])),
    ]);
    let overlays = Overlays {
        polygons: vec![shape(&[(1.0, 2.0), (3.0, 4.0), (5.0, 6.0)], Some("#f00"), Some("#00f"), None)],
        circles: vec![shape(&[(1.0, 1.0), (2.0, 2.0)], None, Some("#0f0"), Some(3))],
        markers: vec![
            MarkerOverlay { image_url: None, west: 0, east: 0, north: 0, south: 0 },
            MarkerOverlay {
                image_url: Some("file:///tmp/m.png".to_string()),
                west: 1.0f64.to_bits(),
                east: 2.0f64.to_bits(),
                north: 4.0f64.to_bits(),
                south: 3.0f64.to_bits(),
            },
        ],
    };
    assert!(style_shape_ok_exec(&style));
    inject_overlays_into_style(&mut style, &overlays).unwrap();
    let expected = obj(vec![
        ("version", num(8)),
        (
            "layers",
            JsonValue::Array(vec![
                obj(vec![("id", s("base"))]),
                obj(vec![
                    ("id", s("poly_fill_0")),
                    ("type", s("fill")),
                    ("source", s("poly_source_0")),
                    ("paint", obj(vec![("fill-color", s("#f00")), ("fill-opacity", fl(1.0))])),
                ]),
                obj(vec![
                    ("id", s("poly_stroke_0")),
                    ("type", s("line")),
                    ("source", s("poly_source_0")),
                    ("paint", obj(vec![("line-color", s("#00f")), ("line-width", num(1))])),
                ]),
                obj(vec![
                    ("id", s("circle_stroke_0")),
                    ("type", s("line")),
                    ("source", s("circle_source_0")),
                    ("paint", obj(vec![("line-color", s("#0f0")), ("line-width", num(3))])),
                ]),
                obj(vec![
                    ("id", s("marker_layer_1")),
                    ("type", s("raster")),
                    ("source", s("marker_source_1")),
                    ("paint", obj(vec![("raster-fade-duration", num(0))])),
                ]),
            ]),
        ),
        (
            "sources",
            obj(vec![
                ("poly_source_0", geojson(vec![pos(2.0, 1.0), pos(4.0, 3.0), pos(6.0, 5.0), pos(2.0, 1.0)])),
                ("circle_source_0", geojson(vec![pos(1.0, 1.0), pos(2.0, 2.0), pos(1.0, 1.0)])),
                (
                    "marker_source_1",
                    obj(vec![
                        ("type", s("image")),
                        ("url", s("file:///tmp/m.png")),
                        ("coordinates", JsonValue::Array(vec![pos(1.0, 4.0), pos(2.0, 4.0), pos(2.0, 3.0), pos(1.0, 3.0)])),
                    ]),
                ),
            ]),
        ),
    ]);
    assert_eq!(style, expected);
}

#[test]
fn closed_polygon_is_not_closed_twice() {
    let mut style = obj(vec![("sources", obj(vec![])), ("layers", JsonValue::Array(vec![]))]);
    let overlays = Overlays {
        polygons: vec![shape(&[(0.0, 1.0), (2.0, 3.0), (-0.0, 1.0)], None, None, None)],
        circles: vec![],
        markers: vec![],
    };
    inject_overlays_into_style(&mut style, &overlays).unwrap();
    let expected = obj(vec![
        ("sources", obj(vec![("poly_source_0", geojson(vec![pos(1.0, 0.0), pos(3.0, 2.0), pos(1.0, -0.0)]))])),
        ("layers", JsonValue::Array(vec![])),
    ]);
    assert_eq!(style, expected);
}

#[test]
fn existing_source_of_same_name_is_replaced() {
    let mut style = obj(vec![("sources", obj(vec![("poly_source_0", JsonValue::Null), ("keep", num(1))]))]);
    let overlays = Overlays { polygons: vec![shape(&[], None, None, None)], circles: vec![], markers: vec![] };
    inject_overlays_into_style(&mut style, &overlays).unwrap();
    let expected = obj(vec![
        ("sources", obj(vec![("poly_source_0", geojson(vec![])), ("keep", num(1))])),
        ("layers", JsonValue::Array(vec![])),
    ]);
    assert_eq!(style, expected);
}

#[test]
fn style_that_is_not_an_object_is_refused() {
    let mut style = JsonValue::Array(vec![]);
    let overlays = Overlays { polygons: vec![], circles: vec![], markers: vec![] };
    let err = inject_overlays_into_style(&mut style, &overlays).unwrap_err();
    assert_eq!(err, StyleError::NotAnObject);
    assert_eq!(err.message(), "invalid style object");
    assert_eq!(style, JsonValue::Array(vec![]));
}

#[test]
fn style_shapes() {
    assert!(style_shape_ok_exec(&JsonValue::Null));
    assert!(!style_shape_ok_exec(&obj(vec![("sources", num(5))])));
    assert!(!style_shape_ok_exec(&obj(vec![("layers", obj(vec![]))])));
    assert!(style_shape_ok_exec(&obj(vec![("layers", JsonValue::Array(vec![]))])));
}

#[test]
fn double_comparison_and_json_numbers() {
    assert!(floats_equal(0.0f64.to_bits(), (-0.0f64).to_bits()));
    assert!(!floats_equal(f64::NAN.to_bits(), f64::NAN.to_bits()));
    assert!(floats_equal(1.5f64.to_bits(), 1.5f64.to_bits()));
    assert!(!floats_equal(1.5f64.to_bits(), 2.5f64.to_bits()));
    assert_eq!(float_value(f64::INFINITY.to_bits()), JsonValue::Null);
    assert_eq!(float_value(f64::NAN.to_bits()), JsonValue::Null);
    assert_eq!(float_value(2.5f64.to_bits()), fl(2.5));
    assert_eq!(ONE_BITS, 1.0f64.to_bits());
}

#[test]
fn failed_style_request_names_url_and_status() {
    let url = "http://martin:3000/style/streets.json";
    assert_eq!(style_response_error(url, 200), None);
    assert_eq!(style_response_error(url, 204), None);
    assert_eq!(
        style_response_error(url, 404).as_deref(),
        Some("failed to fetch style from http://martin:3000/style/streets.json: 404 Not Found")
    );
    assert_eq!(
        style_response_error(url, 503).as_deref(),
        Some("failed to fetch style from http://martin:3000/style/streets.json: 503 Service Unavailable")
    );
    assert_eq!(
        style_response_error(url, 302).as_deref(),
        Some("failed to fetch style from http://martin:3000/style/streets.json: 302 Found")
    );
}

#[test]
fn configured_sources_choose_the_local_style() {
    let c = config();
    assert!(matches!(choose_style(&c, "osm", None), StyleSource::Document(_)));
    match choose_style(&c, "streets", None) {
        StyleSource::Remote(u) => assert_eq!(u, "http://martin:3000/style/streets.json"),
        StyleSource::Document(_) => panic!("expected a remote style"),
    }
}
