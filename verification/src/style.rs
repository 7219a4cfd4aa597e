//! Map styles: which style a request renders with, and how a style fetched from the
//! tile server is pointed at the configured server address.
use vstd::prelude::*;
use crate::config::{Config, source_for};
use crate::json::{Json, JsonNumber, JsonValue, entry, object1, object3, object5, array1, str_of};
use crate::text::{decimal, owned, push_decimal, push_str, replaced, trim_end_all, replace_all, trim_end_matches};

verus! {

/// A string of a style with the addresses under which the tile server knows itself
/// replaced by `base`: first `http://localhost:3000`, then `http://127.0.0.1:3000`,
/// then the placeholder `{base}`.
pub open spec fn rewrite_text(s: Seq<char>, base: Seq<char>) -> Seq<char> {
    replaced(
        replaced(replaced(s, "http://localhost:3000"@, base), "http://127.0.0.1:3000"@, base),
        "{base}"@,
        base,
    )
}

/// A document with `rewrite_text` applied to every string value, at any depth.
/// Object member names are left as they are.
pub open spec fn rewrite_urls(v: Json, base: Seq<char>) -> Json
    decreases v,
{
    match v {
        Json::Str(s) => Json::Str(rewrite_text(s, base)),
        Json::Array(items) => Json::Array(
            Seq::new(
                items.len(),
                |i: int|
                    if 0 <= i < items.len() {
                        rewrite_urls(items[i], base)
                    } else {
                        Json::Null
                    },
            ),
        ),
        Json::Object(members) => Json::Object(
            Seq::new(
                members.len(),
                |i: int|
                    if 0 <= i < members.len() {
                        (members[i].0, rewrite_urls(members[i].1, base))
                    } else {
                        (Seq::empty(), Json::Null)
                    },
            ),
        ),
        _ => v,
    }
}

/// The string `s` with the tile server's own addresses replaced by `base`.
pub fn rewrite_string(s: &str, base: &str) -> (r: String)
    ensures
        r@ == rewrite_text(s@, base@),
{
    proof {
        reveal_strlit("http://localhost:3000");
        reveal_strlit("http://127.0.0.1:3000");
        reveal_strlit("{base}");
    }
    let a = replace_all(s, "http://localhost:3000", base);
    let b = replace_all(a.as_str(), "http://127.0.0.1:3000", base);
    replace_all(b.as_str(), "{base}", base)
}

/// `v` with every string value rewritten against `base`.
fn rewritten(v: JsonValue, base: &str) -> (r: JsonValue)
    ensures
        r.model() == rewrite_urls(v.model(), base@),
    decreases v,
{
    match v {
        JsonValue::Str(s) => JsonValue::Str(rewrite_string(s.as_str(), base)),
        JsonValue::Array(items) => {
            let ghost orig = items@;
            let n = items.len();
            let mut rest = crate::json::reversed(items);
            let mut out: Vec<JsonValue> = Vec::new();
            while rest.len() > 0
                invariant
                    out.len() + rest.len() == n,
                    n == orig.len(),
                    forall|j: int|
                        0 <= j < rest.len() ==> #[trigger] rest@[j] == orig[n - 1 - j],
                    forall|j: int|
                        0 <= j < out.len() ==> #[trigger] out@[j].model() == rewrite_urls(
                            orig[j].model(),
                            base@,
                        ),
                    forall|j: int| 0 <= j < n ==> decreases_to!(v => #[trigger] orig[j]),
                decreases rest.len(),
            {
                let item = rest.pop().unwrap();
                assert(item == orig[out.len() as int]);
                let done = rewritten(item, base);
                out.push(done);
            }
            let r = JsonValue::Array(out);
            assert(r.model() == rewrite_urls(v.model(), base@)) by {
                if let Json::Array(src) = v.model() {
                    if let Json::Array(dst) = r.model() {
                        if let Json::Array(want) = rewrite_urls(v.model(), base@) {
                            assert forall|j: int| 0 <= j < n implies dst[j] == want[j] by {
                                assert(src[j] == orig[j].model());
                                assert(dst[j] == out@[j].model());
                            }
                            assert(dst =~= want);
                        }
                    }
                }
            }
            r
        },
        JsonValue::Object(members) => {
            let ghost orig = members@;
            let n = members.len();
            let mut rest = crate::json::reversed(members);
            let mut out: Vec<(String, JsonValue)> = Vec::new();
            while rest.len() > 0
                invariant
                    out.len() + rest.len() == n,
                    n == orig.len(),
                    forall|j: int|
                        0 <= j < rest.len() ==> #[trigger] rest@[j] == orig[n - 1 - j],
                    forall|j: int|
                        0 <= j < out.len() ==> (#[trigger] out@[j]).0@ == orig[j].0@ && out@[j].1.model()
                            == rewrite_urls(orig[j].1.model(), base@),
                    forall|j: int| 0 <= j < n ==> decreases_to!(v => #[trigger] orig[j].1),
                decreases rest.len(),
            {
                let (key, item) = rest.pop().unwrap();
                assert(item == orig[out.len() as int].1);
                let done = rewritten(item, base);
                out.push((key, done));
            }
            let r = JsonValue::Object(out);
            assert(r.model() == rewrite_urls(v.model(), base@)) by {
                if let Json::Object(src) = v.model() {
                    if let Json::Object(dst) = r.model() {
                        if let Json::Object(want) = rewrite_urls(v.model(), base@) {
                            assert(dst =~= want);
                        }
                    }
                }
            }
            r
        },
        other => other,
    }
}

/// Points every address of the tile server's own in the style at `martin_url`
/// (with trailing slashes removed).
pub fn rewrite_urls_recursive(value: &mut JsonValue, martin_url: &str)
    ensures
        final(value).model() == rewrite_urls(old(value).model(), trim_end_all(martin_url@, "/"@)),
{
    proof {
        reveal_strlit("/");
    }
    let base = trim_end_matches(martin_url, "/");
    let mut taken = JsonValue::Null;
    std::mem::swap(&mut taken, value);
    let done = rewritten(taken, base.as_str());
    *value = done;
}

/// The pixel ratio a request renders at: its `scale`, one where absent.
pub open spec fn scale_of(scale: Option<u32>) -> u32 {
    match scale {
        Some(s) => s,
        None => 1,
    }
}

/// The address under which this server's own tile proxy serves a raster source.
pub open spec fn local_tiles_url(style: Seq<char>, scale: u32) -> Seq<char> {
    "http://localhost:3001/tiles/"@ + style + "/{z}/{x}/{y}?scale="@ + decimal(scale as nat)
}

/// The style of a raster tile source: one raster source with 256-pixel tiles from
/// `tiles_url`, drawn by one raster layer at every zoom from 0 to 22.
pub open spec fn raster_style(tiles_url: Seq<char>) -> Json {
    Json::Object(
        seq![
            ("version"@, Json::Number(JsonNumber::PosInt(8))),
            (
                "sources"@,
                Json::Object(
                    seq![
                        (
                            "raster-tiles"@,
                            Json::Object(
                                seq![
                                    ("type"@, Json::Str("raster"@)),
                                    ("tiles"@, Json::Array(seq![Json::Str(tiles_url)])),
                                    ("tileSize"@, Json::Number(JsonNumber::PosInt(256))),
                                ],
                            ),
                        ),
                    ],
                ),
            ),
            (
                "layers"@,
                Json::Array(
                    seq![
                        Json::Object(
                            seq![
                                ("id"@, Json::Str("simple-tiles"@)),
                                ("type"@, Json::Str("raster"@)),
                                ("source"@, Json::Str("raster-tiles"@)),
                                ("minzoom"@, Json::Number(JsonNumber::PosInt(0))),
                                ("maxzoom"@, Json::Number(JsonNumber::PosInt(22))),
                            ],
                        ),
                    ],
                ),
            ),
        ],
    )
}

/// Where the style of a vector style comes from: `{martin_url}/style/{style}.json`.
pub open spec fn remote_style_url(martin_url: Seq<char>, style: Seq<char>) -> Seq<char> {
    martin_url + "/style/"@ + style + ".json"@
}

/// The style a static map is rendered with.
#[derive(Debug)]
pub enum StyleSource {
    /// A style built here, for a configured raster tile source.
    Document(JsonValue),
    /// A style to be fetched from the tile server at this URL.
    Remote(String),
}

/// The address of this server's tile proxy for a raster source.
pub fn local_tiles_address(style: &str, scale: u32) -> (u: String)
    ensures
        u@ == local_tiles_url(style@, scale),
{
    let mut u = owned("http://localhost:3001/tiles/");
    push_str(&mut u, style);
    push_str(&mut u, "/{z}/{x}/{y}?scale=");
    push_decimal(&mut u, scale as u64);
    u
}

/// The style of a raster tile source.
pub fn raster_style_document(tiles_url: String) -> (d: JsonValue)
    ensures
        d.model() == raster_style(tiles_url@),
{
    let source = object3(
        entry("type", str_of("raster")),
        entry("tiles", array1(JsonValue::Str(tiles_url))),
        entry("tileSize", JsonValue::Number(JsonNumber::PosInt(256))),
    );
    let layer = object5(
        entry("id", str_of("simple-tiles")),
        entry("type", str_of("raster")),
        entry("source", str_of("raster-tiles")),
        entry("minzoom", JsonValue::Number(JsonNumber::PosInt(0))),
        entry("maxzoom", JsonValue::Number(JsonNumber::PosInt(22))),
    );
    crate::json::object3(
        entry("version", JsonValue::Number(JsonNumber::PosInt(8))),
        entry("sources", object1(entry("raster-tiles", source))),
        entry("layers", array1(layer)),
    )
}

/// The style to render `style` with: for a configured raster tile source, a style that
/// reads its tiles through this server's tile proxy; otherwise the tile server's style of
/// that name.
pub fn choose_style(config: &Config, style: &str, scale: Option<u32>) -> (r: StyleSource)
    ensures
        source_for(config.tile_sources@, style@) is Some ==> (r matches StyleSource::Document(d)
            && d.model() == raster_style(local_tiles_url(style@, scale_of(scale)))),
        source_for(config.tile_sources@, style@) is None ==> (r matches StyleSource::Remote(u)
            && u@ == remote_style_url(config.martin_url@, style@)),
{
    let s = match scale {
        Some(s) => s,
        None => 1,
    };
    if config.has_tile_source(style) {
        StyleSource::Document(raster_style_document(local_tiles_address(style, s)))
    } else {
        let mut u = config.martin_url.clone();
        push_str(&mut u, "/style/");
        push_str(&mut u, style);
        push_str(&mut u, ".json");
        StyleSource::Remote(u)
    }
}

/// The text of an HTTP status as `reqwest::StatusCode` displays it: the number, a
/// space, and its reason phrase.
pub uninterp spec fn status_text(status: u16) -> Seq<char>;

/// The text of an HTTP status (`Display` of `reqwest::StatusCode`, made from the number
/// with `StatusCode::from_u16`, which accepts 100 to 999).
#[verifier::external_body]
fn status_line(status: u16) -> (r: String)
    requires
        100 <= status <= 999,
    ensures
        r@ == status_text(status),
{
    reqwest::StatusCode::from_u16(status).unwrap().to_string()
}

/// The message of a failed style request.
pub open spec fn style_failure_message(url: Seq<char>, status: u16) -> Seq<char> {
    "failed to fetch style from "@ + url + ": "@ + status_text(status)
}

/// The error a style request ends in: none for a success status (200 to 299), otherwise
/// `failed to fetch style from <url>: <status>`.
pub fn style_response_error(url: &str, status: u16) -> (r: Option<String>)
    requires
        100 <= status <= 999,
    ensures
        r is None <==> 200 <= status < 300,
        r matches Some(m) ==> m@ == style_failure_message(url@, status),
{
    if 200 <= status && status < 300 {
        None
    } else {
        let mut m = owned("failed to fetch style from ");
        push_str(&mut m, url);
        push_str(&mut m, ": ");
        let line = status_line(status);
        push_str(&mut m, line.as_str());
        Some(m)
    }
}

} // verus!
