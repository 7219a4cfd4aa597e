//! Overlays drawn on a static map: polygons, circles and marker images become GeoJSON
//! and image sources and fill, line and raster layers added to the map's style.
//! Coordinates arrive as the bit patterns of IEEE-754 doubles (`f64::to_bits`); the
//! library compares them as doubles compare and never computes with them.
use vstd::prelude::*;
use crate::json::{
    Json, JsonNumber, JsonValue, member_models, models, array_of, object_of, str_of, member,
    insert_member, member_index, set_member, reversed, entry, object2, object3, object4, array1,
    array2,
};
use crate::text::{decimal, owned, push_decimal};

verus! {

/// The bits of the double `1.0`.
pub const ONE_BITS: u64 = 0x3ff0_0000_0000_0000;

/// Mask of the exponent field of a double, shifted down.
pub const EXPONENT_MASK: u64 = 0x7ff;

/// Mask of the fraction field of a double.
pub const FRACTION_MASK: u64 = 0x000f_ffff_ffff_ffff;

/// Mask of all bits of a double but the sign.
pub const MAGNITUDE_MASK: u64 = 0x7fff_ffff_ffff_ffff;

/// `true` when the double with these bits is a NaN.
pub open spec fn is_nan_bits(b: u64) -> bool {
    (b >> 52u64) & EXPONENT_MASK == EXPONENT_MASK && b & FRACTION_MASK != 0
}

/// `true` when the double with these bits is finite (neither infinite nor NaN).
pub open spec fn is_finite_bits(b: u64) -> bool {
    (b >> 52u64) & EXPONENT_MASK != EXPONENT_MASK
}

/// `true` when the doubles with these bits compare equal with `==`: neither is a NaN, and
/// the bits are the same or both are zeros (of either sign).
pub open spec fn same_float(a: u64, b: u64) -> bool {
    &&& !is_nan_bits(a)
    &&& !is_nan_bits(b)
    &&& (a == b || (a & MAGNITUDE_MASK == 0 && b & MAGNITUDE_MASK == 0))
}

/// The JSON value of a double: the number where it is finite, `null` otherwise.
pub open spec fn float_json(b: u64) -> Json {
    if is_finite_bits(b) {
        Json::Number(JsonNumber::Float(b))
    } else {
        Json::Null
    }
}

/// Whether the doubles with these bits compare equal with `==`.
pub fn floats_equal(a: u64, b: u64) -> (r: bool)
    ensures
        r == same_float(a, b),
{
    let a_nan = (a >> 52u64) & EXPONENT_MASK == EXPONENT_MASK && a & FRACTION_MASK != 0;
    let b_nan = (b >> 52u64) & EXPONENT_MASK == EXPONENT_MASK && b & FRACTION_MASK != 0;
    !a_nan && !b_nan && (a == b || (a & MAGNITUDE_MASK == 0 && b & MAGNITUDE_MASK == 0))
}

/// A polygon or circle overlay.
pub struct ShapeOverlay {
    /// The outline, as (latitude, longitude) pairs.
    pub points: Vec<(u64, u64)>,
    pub fill_color: Option<String>,
    pub stroke_color: Option<String>,
    pub stroke_width: Option<u32>,
}

/// A marker overlay: where its image lies, and the local URL of its image where that
/// could be fetched.
pub struct MarkerOverlay {
    pub image_url: Option<String>,
    pub west: u64,
    pub east: u64,
    pub north: u64,
    pub south: u64,
}

/// The overlays of a request, in the order in which they are drawn.
pub struct Overlays {
    pub polygons: Vec<ShapeOverlay>,
    pub circles: Vec<ShapeOverlay>,
    pub markers: Vec<MarkerOverlay>,
}

/// A GeoJSON position: `[longitude, latitude]`.
pub open spec fn position(lon: u64, lat: u64) -> Json {
    Json::Array(seq![float_json(lon), float_json(lat)])
}

/// `true` when two (latitude, longitude) points are equal as positions.
pub open spec fn same_point(p: (u64, u64), q: (u64, u64)) -> bool {
    same_float(p.1, q.1) && same_float(p.0, q.0)
}

/// A polygon's ring: its points, closed by repeating the first one where the last one
/// differs from it.
pub open spec fn polygon_ring(points: Seq<(u64, u64)>) -> Seq<(u64, u64)> {
    if points.len() > 0 && !same_point(points[0], points.last()) {
        points.push(points[0])
    } else {
        points
    }
}

/// A circle's ring: its points, closed by repeating the first one.
pub open spec fn circle_ring(points: Seq<(u64, u64)>) -> Seq<(u64, u64)> {
    if points.len() > 0 {
        points.push(points[0])
    } else {
        points
    }
}

/// The positions of a ring.
pub open spec fn ring_json(ring: Seq<(u64, u64)>) -> Json {
    Json::Array(Seq::new(ring.len(), |i: int| position(ring[i].1, ring[i].0)))
}

/// The GeoJSON source of a polygon with the given ring.
pub open spec fn polygon_source(ring: Seq<(u64, u64)>) -> Json {
    Json::Object(
        seq![
            ("type"@, Json::Str("geojson"@)),
            (
                "data"@,
                Json::Object(
                    seq![
                        ("type"@, Json::Str("Feature"@)),
                        (
                            "geometry"@,
                            Json::Object(
                                seq![
                                    ("type"@, Json::Str("Polygon"@)),
                                    ("coordinates"@, Json::Array(seq![ring_json(ring)])),
                                ],
                            ),
                        ),
                    ],
                ),
            ),
        ],
    )
}

/// A fill layer.
pub open spec fn fill_layer(id: Seq<char>, source: Seq<char>, color: Seq<char>) -> Json {
    Json::Object(
        seq![
            ("id"@, Json::Str(id)),
            ("type"@, Json::Str("fill"@)),
            ("source"@, Json::Str(source)),
            (
                "paint"@,
                Json::Object(
                    seq![
                        ("fill-color"@, Json::Str(color)),
                        ("fill-opacity"@, Json::Number(JsonNumber::Float(ONE_BITS))),
                    ],
                ),
            ),
        ],
    )
}

/// A line layer.
pub open spec fn line_layer(id: Seq<char>, source: Seq<char>, color: Seq<char>, width: u32) -> Json {
    Json::Object(
        seq![
            ("id"@, Json::Str(id)),
            ("type"@, Json::Str("line"@)),
            ("source"@, Json::Str(source)),
            (
                "paint"@,
                Json::Object(
                    seq![
                        ("line-color"@, Json::Str(color)),
                        ("line-width"@, Json::Number(JsonNumber::PosInt(width as u64))),
                    ],
                ),
            ),
        ],
    )
}

/// The image source of a marker.
pub open spec fn marker_source(url: Seq<char>, m: MarkerOverlay) -> Json {
    Json::Object(
        seq![
            ("type"@, Json::Str("image"@)),
            ("url"@, Json::Str(url)),
            (
                "coordinates"@,
                Json::Array(
                    seq![
                        position(m.west, m.north),
                        position(m.east, m.north),
                        position(m.east, m.south),
                        position(m.west, m.south),
                    ],
                ),
            ),
        ],
    )
}

/// The raster layer of a marker.
pub open spec fn raster_layer(id: Seq<char>, source: Seq<char>) -> Json {
    Json::Object(
        seq![
            ("id"@, Json::Str(id)),
            ("type"@, Json::Str("raster"@)),
            ("source"@, Json::Str(source)),
            ("paint"@, Json::Object(seq![("raster-fade-duration"@, Json::Number(JsonNumber::PosInt(0)))])),
        ],
    )
}

/// A name followed by a number: `poly_source_3`.
pub open spec fn numbered(prefix: Seq<char>, i: nat) -> Seq<char> {
    prefix + decimal(i)
}

/// The names used for the overlays of one kind.
pub struct ShapeNames {
    pub source: Seq<char>,
    pub fill: Seq<char>,
    pub stroke: Seq<char>,
}

/// The names of polygon overlays.
pub open spec fn polygon_names() -> ShapeNames {
    ShapeNames { source: "poly_source_"@, fill: "poly_fill_"@, stroke: "poly_stroke_"@ }
}

/// The names of circle overlays.
pub open spec fn circle_names() -> ShapeNames {
    ShapeNames { source: "circle_source_"@, fill: "circle_fill_"@, stroke: "circle_stroke_"@ }
}

/// The layers of the `i`-th shape: a fill layer where it has a fill color, then a line
/// layer (one pixel wide unless it says otherwise) where it has a stroke color.
pub open spec fn shape_layers(names: ShapeNames, i: nat, shape: ShapeOverlay) -> Seq<Json> {
    let source = numbered(names.source, i);
    (match shape.fill_color {
        Some(c) => seq![fill_layer(numbered(names.fill, i), source, c@)],
        None => Seq::empty(),
    }) + (match shape.stroke_color {
        Some(c) => seq![
            line_layer(
                numbered(names.stroke, i),
                source,
                c@,
                match shape.stroke_width {
                    Some(w) => w,
                    None => 1,
                },
            ),
        ],
        None => Seq::empty(),
    })
}

/// The layers of a list of shapes, in order.
pub open spec fn shapes_layers(names: ShapeNames, shapes: Seq<ShapeOverlay>) -> Seq<Json>
    decreases shapes.len(),
{
    if shapes.len() == 0 {
        Seq::empty()
    } else {
        shapes_layers(names, shapes.drop_last()) + shape_layers(
            names,
            (shapes.len() - 1) as nat,
            shapes.last(),
        )
    }
}

/// The sources of a list of shapes: one per shape, named by its index.
pub open spec fn shapes_sources(names: ShapeNames, shapes: Seq<ShapeOverlay>, polygons: bool) -> Seq<
    (Seq<char>, Json),
> {
    Seq::new(
        shapes.len(),
        |i: int|
            (
                numbered(names.source, i as nat),
                polygon_source(
                    if polygons {
                        polygon_ring(shapes[i].points@)
                    } else {
                        circle_ring(shapes[i].points@)
                    },
                ),
            ),
    )
}

/// The sources of the markers whose image is at hand, named by their index among all
/// markers.
pub open spec fn marker_sources(markers: Seq<MarkerOverlay>) -> Seq<(Seq<char>, Json)>
    decreases markers.len(),
{
    if markers.len() == 0 {
        Seq::empty()
    } else {
        let before = marker_sources(markers.drop_last());
        match markers.last().image_url {
            Some(u) => before.push(
                (
                    numbered("marker_source_"@, (markers.len() - 1) as nat),
                    marker_source(u@, markers.last()),
                ),
            ),
            None => before,
        }
    }
}

/// The layers of the markers whose image is at hand.
pub open spec fn marker_layers(markers: Seq<MarkerOverlay>) -> Seq<Json>
    decreases markers.len(),
{
    if markers.len() == 0 {
        Seq::empty()
    } else {
        let before = marker_layers(markers.drop_last());
        match markers.last().image_url {
            Some(u) => before.push(
                raster_layer(
                    numbered("marker_layer_"@, (markers.len() - 1) as nat),
                    numbered("marker_source_"@, (markers.len() - 1) as nat),
                ),
            ),
            None => before,
        }
    }
}

/// All new sources: polygons, circles, markers.
pub open spec fn overlay_sources(ov: Overlays) -> Seq<(Seq<char>, Json)> {
    shapes_sources(polygon_names(), ov.polygons@, true) + shapes_sources(
        circle_names(),
        ov.circles@,
        false,
    ) + marker_sources(ov.markers@)
}

/// All new layers, in drawing order: polygons, circles, markers.
pub open spec fn overlay_layers(ov: Overlays) -> Seq<Json> {
    shapes_layers(polygon_names(), ov.polygons@) + shapes_layers(circle_names(), ov.circles@)
        + marker_layers(ov.markers@)
}

/// `members` with each of `entries` set in turn (see `insert_member`).
pub open spec fn insert_all(members: Seq<(Seq<char>, Json)>, entries: Seq<(Seq<char>, Json)>) -> Seq<
    (Seq<char>, Json),
>
    decreases entries.len(),
{
    if entries.len() == 0 {
        members
    } else {
        let before = insert_all(members, entries.drop_last());
        insert_member(before, entries.last().0, entries.last().1)
    }
}

/// `true` when a style can take overlays without failing midway: where it has
/// `sources`, that is an object, and where it has `layers`, that is an array.
pub open spec fn style_shape_ok(style: Json) -> bool {
    style matches Json::Object(members) ==> {
        &&& member(members, "sources"@) matches Some(s) ==> s is Object
        &&& member(members, "layers"@) matches Some(l) ==> l is Array
    }
}

/// The members of a style object with `key` added, set to `empty`, where it is missing.
pub open spec fn with_default(members: Seq<(Seq<char>, Json)>, key: Seq<char>, empty: Json) -> Seq<
    (Seq<char>, Json),
> {
    if member(members, key) is None {
        insert_member(members, key, empty)
    } else {
        members
    }
}

/// The style with the overlays added: `None` where the style is not an object. Missing
/// `sources` and `layers` are added empty; the new sources are set in the sources object,
/// and the new layers go after the existing ones.
pub open spec fn injected(style: Json, ov: Overlays) -> Option<Json> {
    match style {
        Json::Object(m0) => {
            let m1 = with_default(m0, "sources"@, Json::Object(Seq::empty()));
            let m2 = with_default(m1, "layers"@, Json::Array(Seq::empty()));
            let sources = member(m2, "sources"@).unwrap()->Object_0;
            let layers = member(m2, "layers"@).unwrap()->Array_0;
            Some(
                Json::Object(
                    insert_member(
                        insert_member(
                            m2,
                            "sources"@,
                            Json::Object(insert_all(sources, overlay_sources(ov))),
                        ),
                        "layers"@,
                        Json::Array(layers + overlay_layers(ov)),
                    ),
                ),
            )
        },
        _ => None,
    }
}

/// A style that could not take the overlays.
#[derive(Debug, PartialEq, Eq, Structural)]
pub enum StyleError {
    /// The style is not a JSON object.
    NotAnObject,
}

impl StyleError {
    /// The message the server answers with.
    pub fn message(&self) -> (m: String)
        ensures
            m@ == "invalid style object"@,
    {
        owned("invalid style object")
    }
}

/// The JSON value of a double.
pub fn float_value(b: u64) -> (r: JsonValue)
    ensures
        r.model() == float_json(b),
{
    if (b >> 52u64) & EXPONENT_MASK != EXPONENT_MASK {
        JsonValue::Number(JsonNumber::Float(b))
    } else {
        JsonValue::Null
    }
}

/// A GeoJSON position.
fn position_value(lon: u64, lat: u64) -> (r: JsonValue)
    ensures
        r.model() == position(lon, lat),
{
    array2(float_value(lon), float_value(lat))
}

/// The positions of a ring.
fn ring_value(ring: &Vec<(u64, u64)>) -> (r: JsonValue)
    ensures
        r.model() == ring_json(ring@),
{
    let mut items: Vec<JsonValue> = Vec::new();
    let mut i: usize = 0;
    while i < ring.len()
        invariant
            i <= ring.len(),
            items.len() == i,
            forall|j: int| 0 <= j < i ==> (#[trigger] items@[j]).model() == position(ring@[j].1, ring@[j].0),
        decreases ring.len() - i,
    {
        let (lat, lon) = ring[i];
        items.push(position_value(lon, lat));
        i = i + 1;
    }
    let r = array_of(items);
    assert(models(items@) =~= Seq::new(ring@.len(), |j: int| position(ring@[j].1, ring@[j].0)));
    r
}

/// The ring of a shape's points: closed where `polygon` asks for it only when the last
/// point differs from the first, always otherwise.
fn ring_of(points: &Vec<(u64, u64)>, polygon: bool) -> (r: Vec<(u64, u64)>)
    ensures
        polygon ==> r@ == polygon_ring(points@),
        !polygon ==> r@ == circle_ring(points@),
{
    let mut ring: Vec<(u64, u64)> = Vec::new();
    let mut i: usize = 0;
    while i < points.len()
        invariant
            i <= points.len(),
            ring@ == points@.take(i as int),
        decreases points.len() - i,
    {
        ring.push(points[i]);
        assert(ring@ =~= points@.take(i + 1));
        i = i + 1;
    }
    assert(ring@ =~= points@);
    if points.len() > 0 {
        let first = points[0];
        let last = points[points.len() - 1];
        let same = floats_equal(first.1, last.1) && floats_equal(first.0, last.0);
        if !polygon || !same {
            ring.push(first);
        }
    }
    ring
}

/// The GeoJSON source of a polygon with the given ring.
fn polygon_source_value(ring: &Vec<(u64, u64)>) -> (r: JsonValue)
    ensures
        r.model() == polygon_source(ring@),
{
    let geometry = object2(
        entry("type", str_of("Polygon")),
        entry("coordinates", array1(ring_value(ring))),
    );
    let data = object2(entry("type", str_of("Feature")), entry("geometry", geometry));
    object2(entry("type", str_of("geojson")), entry("data", data))
}

/// A name followed by a number.
fn numbered_string(prefix: &str, i: usize) -> (r: String)
    ensures
        r@ == numbered(prefix@, i as nat),
{
    let mut r = owned(prefix);
    push_decimal(&mut r, i as u64);
    r
}

/// A string value.
fn string_value(s: &String) -> (r: JsonValue)
    ensures
        r.model() == Json::Str(s@),
{
    JsonValue::Str(s.clone())
}

/// A fill layer.
fn fill_layer_value(id: String, source: &String, color: &String) -> (r: JsonValue)
    ensures
        r.model() == fill_layer(id@, source@, color@),
{
    let paint = object2(
        entry("fill-color", string_value(color)),
        entry("fill-opacity", JsonValue::Number(JsonNumber::Float(ONE_BITS))),
    );
    object4(
        entry("id", JsonValue::Str(id)),
        entry("type", str_of("fill")),
        entry("source", string_value(source)),
        entry("paint", paint),
    )
}

/// A line layer.
fn line_layer_value(id: String, source: &String, color: &String, width: u32) -> (r: JsonValue)
    ensures
        r.model() == line_layer(id@, source@, color@, width),
{
    let paint = object2(
        entry("line-color", string_value(color)),
        entry("line-width", JsonValue::Number(JsonNumber::PosInt(width as u64))),
    );
    object4(
        entry("id", JsonValue::Str(id)),
        entry("type", str_of("line")),
        entry("source", string_value(source)),
        entry("paint", paint),
    )
}

/// The image source of a marker.
fn marker_source_value(url: &String, m: &MarkerOverlay) -> (r: JsonValue)
    ensures
        r.model() == marker_source(url@, *m),
{
    let ghost corners = seq![
        position(m.west, m.north),
        position(m.east, m.north),
        position(m.east, m.south),
        position(m.west, m.south),
    ];
    let mut items: Vec<JsonValue> = Vec::new();
    items.push(position_value(m.west, m.north));
    items.push(position_value(m.east, m.north));
    items.push(position_value(m.east, m.south));
    items.push(position_value(m.west, m.south));
    assert(models(items@) =~= corners);
    object3(
        entry("type", str_of("image")),
        entry("url", string_value(url)),
        entry("coordinates", array_of(items)),
    )
}

/// The raster layer of a marker.
fn raster_layer_value(id: String, source: String) -> (r: JsonValue)
    ensures
        r.model() == raster_layer(id@, source@),
{
    let ghost fade = seq![("raster-fade-duration"@, Json::Number(JsonNumber::PosInt(0)))];
    let mut paint_members: Vec<(String, JsonValue)> = Vec::new();
    paint_members.push(entry("raster-fade-duration", JsonValue::Number(JsonNumber::PosInt(0))));
    assert(member_models(paint_members@) =~= fade);
    object4(
        entry("id", JsonValue::Str(id)),
        entry("type", str_of("raster")),
        entry("source", JsonValue::Str(source)),
        entry("paint", object_of(paint_members)),
    )
}

/// The names of one kind of shape, as strings.
struct ShapeNameStrings<'a> {
    source: &'a str,
    fill: &'a str,
    stroke: &'a str,
}

/// Adds the sources and layers of a list of shapes.
fn add_shapes(
    names: ShapeNameStrings,
    Ghost(spec_names): Ghost<ShapeNames>,
    shapes: &Vec<ShapeOverlay>,
    polygons: bool,
    sources: &mut Vec<(String, JsonValue)>,
    layers: &mut Vec<JsonValue>,
)
    requires
        names.source@ == spec_names.source,
        names.fill@ == spec_names.fill,
        names.stroke@ == spec_names.stroke,
    ensures
        member_models(final(sources)@) == member_models(old(sources)@) + shapes_sources(
            spec_names,
            shapes@,
            polygons,
        ),
        models(final(layers)@) == models(old(layers)@) + shapes_layers(spec_names, shapes@),
{
    let ghost src0 = member_models(sources@);
    let ghost lay0 = models(layers@);
    let mut i: usize = 0;
    assert(shapes@.take(0) =~= Seq::<ShapeOverlay>::empty());
    assert(member_models(sources@) =~= src0 + shapes_sources(spec_names, shapes@.take(0), polygons));
    assert(models(layers@) =~= lay0 + shapes_layers(spec_names, shapes@.take(0)));
    while i < shapes.len()
        invariant
            names.source@ == spec_names.source,
            names.fill@ == spec_names.fill,
            names.stroke@ == spec_names.stroke,
            i <= shapes.len(),
            member_models(sources@) == src0 + shapes_sources(spec_names, shapes@.take(i as int), polygons),
            models(layers@) == lay0 + shapes_layers(spec_names, shapes@.take(i as int)),
        decreases shapes.len() - i,
    {
        let shape = &shapes[i];
        let ghost before_src = member_models(sources@);
        let ghost before_lay = models(layers@);
        let source_id = numbered_string(names.source, i);
        let ring = ring_of(&shape.points, polygons);
        let source = polygon_source_value(&ring);
        sources.push((source_id.clone(), source));
        assert(shapes@.take(i + 1).drop_last() =~= shapes@.take(i as int));
        assert(shapes@.take(i + 1).last() == shapes@[i as int]);
        assert(shapes_sources(spec_names, shapes@.take(i + 1), polygons) =~= shapes_sources(
            spec_names,
            shapes@.take(i as int),
            polygons,
        ).push((source_id@, source.model())));
        assert(member_models(sources@) =~= before_src.push((source_id@, source.model())));
        assert(member_models(sources@) =~= src0 + shapes_sources(
            spec_names,
            shapes@.take(i + 1),
            polygons,
        ));
        let ghost fills: Seq<Json> = match &shape.fill_color {
            Some(c) => seq![fill_layer(numbered(spec_names.fill, i as nat), source_id@, c@)],
            None => Seq::empty(),
        };
        match &shape.fill_color {
            Some(color) => {
                let id = numbered_string(names.fill, i);
                layers.push(fill_layer_value(id, &source_id, color));
            },
            None => {},
        }
        assert(models(layers@) =~= before_lay + fills);
        match &shape.stroke_color {
            Some(color) => {
                let id = numbered_string(names.stroke, i);
                let width = match shape.stroke_width {
                    Some(w) => w,
                    None => 1,
                };
                layers.push(line_layer_value(id, &source_id, color, width));
            },
            None => {},
        }
        assert(models(layers@) =~= before_lay + shape_layers(spec_names, i as nat, shapes@[i as int]));
        i = i + 1;
    }
    assert(shapes@.take(shapes.len() as int) =~= shapes@);
}

/// Adds the sources and layers of the markers whose image is at hand.
fn add_markers(
    markers: &Vec<MarkerOverlay>,
    sources: &mut Vec<(String, JsonValue)>,
    layers: &mut Vec<JsonValue>,
)
    ensures
        member_models(final(sources)@) == member_models(old(sources)@) + marker_sources(markers@),
        models(final(layers)@) == models(old(layers)@) + marker_layers(markers@),
{
    let ghost src0 = member_models(sources@);
    let ghost lay0 = models(layers@);
    let mut i: usize = 0;
    assert(markers@.take(0) =~= Seq::<MarkerOverlay>::empty());
    assert(member_models(sources@) =~= src0 + marker_sources(markers@.take(0)));
    assert(models(layers@) =~= lay0 + marker_layers(markers@.take(0)));
    while i < markers.len()
        invariant
            i <= markers.len(),
            member_models(sources@) == src0 + marker_sources(markers@.take(i as int)),
            models(layers@) == lay0 + marker_layers(markers@.take(i as int)),
        decreases markers.len() - i,
    {
        let m = &markers[i];
        let ghost before_src = member_models(sources@);
        let ghost before_lay = models(layers@);
        assert(markers@.take(i + 1).drop_last() =~= markers@.take(i as int));
        assert(markers@.take(i + 1).last() == markers@[i as int]);
        match &m.image_url {
            Some(url) => {
                let source_id = numbered_string("marker_source_", i);
                let source = marker_source_value(url, m);
                sources.push((source_id.clone(), source));
                let layer_id = numbered_string("marker_layer_", i);
                layers.push(raster_layer_value(layer_id, source_id));
                assert(member_models(sources@) =~= before_src.push(
                    (numbered("marker_source_"@, i as nat), marker_source(url@, *m)),
                ));
                assert(models(layers@) =~= before_lay.push(
                    raster_layer(numbered("marker_layer_"@, i as nat), numbered("marker_source_"@, i as nat)),
                ));
            },
            None => {},
        }
        i = i + 1;
    }
    assert(markers@.take(markers.len() as int) =~= markers@);
}

/// Sets each of `entries` in `members` in turn.
fn set_all(members: &mut Vec<(String, JsonValue)>, entries: Vec<(String, JsonValue)>)
    ensures
        member_models(final(members)@) == insert_all(member_models(old(members)@), member_models(entries@)),
{
    let ghost m0 = member_models(members@);
    let ghost all = member_models(entries@);
    let n = entries.len();
    let mut rest = reversed(entries);
    assert(all.take(0) =~= Seq::<(Seq<char>, Json)>::empty());
    while rest.len() > 0
        invariant
            n == all.len(),
            rest.len() <= n,
            forall|j: int|
                0 <= j < rest.len() ==> ((#[trigger] rest@[j]).0@, rest@[j].1.model()) == all[n - 1 - j],
            member_models(members@) == insert_all(m0, all.take(n - rest.len())),
        decreases rest.len(),
    {
        let k = n - rest.len();
        let (key, value) = rest.pop().unwrap();
        assert(all.take(k + 1).drop_last() =~= all.take(k as int));
        assert(all.take(k + 1).last() == all[k as int]);
        set_member(members, key, value);
    }
    assert(all.take(n as int) =~= all);
}

/// Whether a style can take overlays (see `style_shape_ok`), the precondition of
/// `inject_overlays_into_style`.
pub fn style_shape_ok_exec(style: &JsonValue) -> (b: bool)
    ensures
        b == style_shape_ok(style.model()),
{
    match style {
        JsonValue::Object(members) => {
            proof {
                crate::json::lemma_object_model(*members);
            }
            let ghost mm = member_models(members@);
            let sources_ok = match member_index(members, "sources") {
                Some(i) => {
                    proof {
                        crate::json::lemma_first_member(mm, "sources"@, Json::Null, i as int);
                    }
                    match &members[i].1 {
                        JsonValue::Object(_) => true,
                        _ => false,
                    }
                },
                None => {
                    proof {
                        crate::json::lemma_no_member(mm, "sources"@, Json::Null);
                    }
                    true
                },
            };
            let layers_ok = match member_index(members, "layers") {
                Some(i) => {
                    proof {
                        crate::json::lemma_first_member(mm, "layers"@, Json::Null, i as int);
                    }
                    match &members[i].1 {
                        JsonValue::Array(_) => true,
                        _ => false,
                    }
                },
                None => {
                    proof {
                        crate::json::lemma_no_member(mm, "layers"@, Json::Null);
                    }
                    true
                },
            };
            sources_ok && layers_ok
        },
        _ => true,
    }
}

/// Adds `empty` under `key` where the members have no member of that name.
fn add_default(members: &mut Vec<(String, JsonValue)>, key: &str, empty: JsonValue)
    ensures
        member_models(final(members)@) == with_default(member_models(old(members)@), key@, empty.model()),
{
    let ghost m0 = member_models(members@);
    let found = member_index(members, key);
    proof {
        match found {
            Some(i) => crate::json::lemma_first_member(m0, key@, Json::Null, i as int),
            None => crate::json::lemma_no_member(m0, key@, Json::Null),
        }
    }
    if found.is_none() {
        set_member(members, owned(key), empty);
    }
}

/// The index of the first member named `key`, which exists.
fn existing_member(members: &Vec<(String, JsonValue)>, key: &str) -> (i: usize)
    requires
        member(member_models(members@), key@) is Some,
    ensures
        i < members@.len(),
        members@[i as int].0@ == key@,
        forall|j: int| 0 <= j < i ==> members@[j].0@ != key@,
{
    match member_index(members, key) {
        Some(i) => i,
        None => {
            proof {
                crate::json::lemma_no_member(member_models(members@), key@, Json::Null);
            }
            0
        },
    }
}

/// Replaces the value of the first member named `key` with `value`.
fn replace_member(members: &mut Vec<(String, JsonValue)>, i: usize, key: &str, value: JsonValue)
    requires
        i < old(members)@.len(),
        old(members)@[i as int].0@ == key@,
        forall|j: int| 0 <= j < i ==> old(members)@[j].0@ != key@,
    ensures
        member_models(final(members)@) == insert_member(member_models(old(members)@), key@, value.model()),
{
    let ghost m0 = member_models(members@);
    proof {
        crate::json::lemma_first_member(m0, key@, value.model(), i as int);
    }
    let (name, _) = members.remove(i);
    members.insert(i, (name, value));
    assert(member_models(members@) =~= m0.update(i as int, (key@, value.model())));
}

/// Sets the new sources in the `sources` object of the style's members.
fn merge_sources(members: &mut Vec<(String, JsonValue)>, new_sources: Vec<(String, JsonValue)>)
    requires
        member(member_models(old(members)@), "sources"@) matches Some(s) && s is Object,
    ensures
        member_models(final(members)@) == insert_member(
            member_models(old(members)@),
            "sources"@,
            Json::Object(
                insert_all(
                    member(member_models(old(members)@), "sources"@).unwrap()->Object_0,
                    member_models(new_sources@),
                ),
            ),
        ),
{
    let ghost m0 = member_models(members@);
    let i = existing_member(members, "sources");
    proof {
        crate::json::lemma_first_member(m0, "sources"@, Json::Null, i as int);
    }
    let (name, value) = members.remove(i);
    let merged = match value {
        JsonValue::Object(entries) => {
            proof {
                crate::json::lemma_object_model(entries);
            }
            let mut entries = entries;
            set_all(&mut entries, new_sources);
            object_of(entries)
        },
        other => other,
    };
    members.insert(i, (name, merged));
    proof {
        crate::json::lemma_first_member(m0, "sources"@, merged.model(), i as int);
    }
    assert(member_models(members@) =~= m0.update(i as int, ("sources"@, merged.model())));
}

/// Appends the new layers to the `layers` array of the style's members.
fn append_layers(members: &mut Vec<(String, JsonValue)>, new_layers: Vec<JsonValue>)
    requires
        member(member_models(old(members)@), "layers"@) matches Some(l) && l is Array,
    ensures
        member_models(final(members)@) == insert_member(
            member_models(old(members)@),
            "layers"@,
            Json::Array(member(member_models(old(members)@), "layers"@).unwrap()->Array_0 + models(new_layers@)),
        ),
{
    let ghost m0 = member_models(members@);
    let i = existing_member(members, "layers");
    proof {
        crate::json::lemma_first_member(m0, "layers"@, Json::Null, i as int);
    }
    let (name, value) = members.remove(i);
    let merged = match value {
        JsonValue::Array(items) => {
            proof {
                crate::json::lemma_array_model(items);
            }
            let ghost before = items@;
            let mut items = items;
            let mut added = new_layers;
            let ghost added_view = added@;
            items.append(&mut added);
            assert(models(items@) =~= models(before) + models(added_view));
            array_of(items)
        },
        other => other,
    };
    members.insert(i, (name, merged));
    proof {
        crate::json::lemma_first_member(m0, "layers"@, merged.model(), i as int);
    }
    assert(member_models(members@) =~= m0.update(i as int, ("layers"@, merged.model())));
}

/// The sources and layers of all overlays.
fn overlay_parts(overlays: &Overlays) -> (r: (Vec<(String, JsonValue)>, Vec<JsonValue>))
    ensures
        member_models(r.0@) == overlay_sources(*overlays),
        models(r.1@) == overlay_layers(*overlays),
{
    let mut new_sources: Vec<(String, JsonValue)> = Vec::new();
    let mut new_layers: Vec<JsonValue> = Vec::new();
    assert(member_models(new_sources@) =~= Seq::<(Seq<char>, Json)>::empty());
    assert(models(new_layers@) =~= Seq::<Json>::empty());
    add_shapes(
        ShapeNameStrings { source: "poly_source_", fill: "poly_fill_", stroke: "poly_stroke_" },
        Ghost(polygon_names()),
        &overlays.polygons,
        true,
        &mut new_sources,
        &mut new_layers,
    );
    add_shapes(
        ShapeNameStrings { source: "circle_source_", fill: "circle_fill_", stroke: "circle_stroke_" },
        Ghost(circle_names()),
        &overlays.circles,
        false,
        &mut new_sources,
        &mut new_layers,
    );
    add_markers(&overlays.markers, &mut new_sources, &mut new_layers);
    assert(member_models(new_sources@) =~= overlay_sources(*overlays));
    assert(models(new_layers@) =~= overlay_layers(*overlays));
    (new_sources, new_layers)
}

/// Adds the overlays of a request to a map style: their sources to its `sources` object
/// and their layers after its `layers`, creating either where it is missing. Fails, and
/// leaves the style as it was, where the style is not an object.
pub fn inject_overlays_into_style(style: &mut JsonValue, overlays: &Overlays) -> (r: Result<(), StyleError>)
    requires
        style_shape_ok(old(style).model()),
    ensures
        r is Err <==> injected(old(style).model(), *overlays) is None,
        r matches Err(e) ==> e == StyleError::NotAnObject && final(style).model() == old(style).model(),
        r is Ok ==> injected(old(style).model(), *overlays) == Some(final(style).model()),
{
    let mut taken = JsonValue::Null;
    std::mem::swap(&mut taken, style);
    match taken {
        JsonValue::Object(members) => {
            proof {
                crate::json::lemma_object_model(members);
            }
            let mut members = members;
            let ghost m0 = member_models(members@);
            let empty_sources: Vec<(String, JsonValue)> = Vec::new();
            assert(member_models(empty_sources@) =~= Seq::<(Seq<char>, Json)>::empty());
            add_default(&mut members, "sources", object_of(empty_sources));
            let ghost m1 = member_models(members@);
            let empty_layers: Vec<JsonValue> = Vec::new();
            assert(models(empty_layers@) =~= Seq::<Json>::empty());
            add_default(&mut members, "layers", array_of(empty_layers));
            let ghost m2 = member_models(members@);
            proof {
                reveal_strlit("sources");
                reveal_strlit("layers");
                assert("sources"@.len() != "layers"@.len());
                crate::json::lemma_member_after_insert(m0, "sources"@, Json::Object(Seq::empty()), "sources"@);
                crate::json::lemma_member_after_insert(m0, "sources"@, Json::Object(Seq::empty()), "layers"@);
                crate::json::lemma_member_after_insert(m1, "layers"@, Json::Array(Seq::empty()), "sources"@);
                crate::json::lemma_member_after_insert(m1, "layers"@, Json::Array(Seq::empty()), "layers"@);
            }
            let (new_sources, new_layers) = overlay_parts(overlays);
            let ghost sources_model = member(m2, "sources"@).unwrap()->Object_0;
            merge_sources(&mut members, new_sources);
            proof {
                crate::json::lemma_member_after_insert(
                    m2,
                    "sources"@,
                    Json::Object(insert_all(sources_model, overlay_sources(*overlays))),
                    "layers"@,
                );
            }
            append_layers(&mut members, new_layers);
            *style = object_of(members);
            Ok(())
        },
        other => {
            *style = other;
            Err(StyleError::NotAnObject)
        },
    }
}

} // verus!
