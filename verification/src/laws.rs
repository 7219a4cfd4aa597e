//! Properties of the library as a whole, each proved over the specifications that the
//! functions' contracts use.
use vstd::prelude::*;
use crate::config::Config;
use crate::grid::{
    GridCell, GridRowImages, composed, cell_steps, direction_of, row_image, row_results, stacked,
};
use crate::raster::{Img, blank_pixels, max_nat, overlaid};
use crate::json::{Json, insert_member, lemma_first_member, member};
use crate::overlays::{
    Overlays, ShapeNames, ShapeOverlay, circle_ring, fill_layer, injected, line_layer, numbered,
    overlay_layers, polygon_ring, polygon_source, shape_layers, shapes_layers, shapes_sources,
    with_default,
};
use crate::query::{
    context_of, folded, key_index, lemma_merged_by_name, lemma_values_under_nonempty, merged, unique_keys,
    values_under,
};
use crate::style::{local_tiles_url, raster_style, rewrite_text, rewrite_urls, scale_of};
use crate::text::{decimal, digit_char, occurs_at, occurs_in, replaced};
use crate::tiles::{TileAction, TileEvent, TileState, cache_file_name_of, tile_cache_key, tile_step};

verus! {

/// Replacing a pattern that does not occur leaves a string as it is.
pub proof fn law_replace_without_occurrence(s: Seq<char>, pat: Seq<char>, rep: Seq<char>)
    requires
        pat.len() > 0,
        !occurs_in(s, pat),
    ensures
        replaced(s, pat, rep) == s,
    decreases s.len(),
{
    if s.len() > 0 {
        assert(!occurs_at(s, 0, pat));
        let rest = s.subrange(1, s.len() as int);
        assert(!occurs_in(rest, pat)) by {
            if occurs_in(rest, pat) {
                let i = choose|i: int| occurs_at(rest, i, pat);
                assert(s.subrange(i + 1, i + 1 + pat.len()) =~= rest.subrange(i, i + pat.len()));
                assert(occurs_at(s, i + 1, pat));
            }
        }
        law_replace_without_occurrence(rest, pat, rep);
        assert(seq![s[0]] + rest =~= s);
    }
}

/// A character that is neither in the string nor in the replacement is not in the result
/// of a replacement.
pub proof fn lemma_replaced_keeps_out(s: Seq<char>, pat: Seq<char>, rep: Seq<char>, c: char)
    requires
        pat.len() > 0,
        !s.contains(c),
        !rep.contains(c),
    ensures
        !replaced(s, pat, rep).contains(c),
    decreases s.len(),
{
    if s.len() > 0 {
        let r = replaced(s, pat, rep);
        if occurs_at(s, 0, pat) {
            let rest = s.subrange(pat.len() as int, s.len() as int);
            assert(!rest.contains(c)) by {
                if rest.contains(c) {
                    let j = choose|j: int| 0 <= j < rest.len() && rest[j] == c;
                    assert(s[j + pat.len()] == c);
                }
            }
            lemma_replaced_keeps_out(rest, pat, rep, c);
            let tail = replaced(rest, pat, rep);
            assert(r == rep + tail);
            assert(!r.contains(c)) by {
                if r.contains(c) {
                    let j = choose|j: int| 0 <= j < r.len() && r[j] == c;
                    if j < rep.len() {
                        assert(rep[j] == c);
                    } else {
                        assert(tail[j - rep.len()] == c);
                    }
                }
            }
        } else {
            let rest = s.subrange(1, s.len() as int);
            assert(!rest.contains(c)) by {
                if rest.contains(c) {
                    let j = choose|j: int| 0 <= j < rest.len() && rest[j] == c;
                    assert(s[j + 1] == c);
                }
            }
            lemma_replaced_keeps_out(rest, pat, rep, c);
            let tail = replaced(rest, pat, rep);
            assert(r == seq![s[0]] + tail);
            assert(!r.contains(c)) by {
                if r.contains(c) {
                    let j = choose|j: int| 0 <= j < r.len() && r[j] == c;
                    if j == 0 {
                        assert(s[0] == c);
                    } else {
                        assert(tail[j - 1] == c);
                    }
                }
            }
        }
    }
}

/// Replacing every occurrence of a single character by a text without it removes that
/// character.
pub proof fn lemma_replaced_removes(s: Seq<char>, c: char, rep: Seq<char>)
    requires
        !rep.contains(c),
    ensures
        !replaced(s, seq![c], rep).contains(c),
    decreases s.len(),
{
    if s.len() > 0 {
        let r = replaced(s, seq![c], rep);
        if occurs_at(s, 0, seq![c]) {
            let rest = s.subrange(1, s.len() as int);
            lemma_replaced_removes(rest, c, rep);
            let tail = replaced(rest, seq![c], rep);
            assert(r == rep + tail);
            assert(!r.contains(c)) by {
                if r.contains(c) {
                    let j = choose|j: int| 0 <= j < r.len() && r[j] == c;
                    if j < rep.len() {
                        assert(rep[j] == c);
                    } else {
                        assert(tail[j - rep.len()] == c);
                    }
                }
            }
        } else {
            assert(s.subrange(0, 1) =~= seq![s[0]]);
            assert(s[0] != c);
            let rest = s.subrange(1, s.len() as int);
            lemma_replaced_removes(rest, c, rep);
            let tail = replaced(rest, seq![c], rep);
            assert(r == seq![s[0]] + tail);
            assert(!r.contains(c)) by {
                if r.contains(c) {
                    let j = choose|j: int| 0 <= j < r.len() && r[j] == c;
                    if j > 0 {
                        assert(tail[j - 1] == c);
                    }
                }
            }
        }
    }
}

/// The file a tile is cached in stays inside the cache directory: its name holds no `/`
/// (and no `:`), whatever the tile's key, and it ends in `.bin`.
pub proof fn law_cache_file_name_is_flat(key: Seq<char>)
    ensures
        !cache_file_name_of(key).contains('/'),
        !cache_file_name_of(key).contains(':'),
        cache_file_name_of(key).subrange(
            cache_file_name_of(key).len() - 4,
            cache_file_name_of(key).len() as int,
        ) == ".bin"@,
{
    reveal_strlit("/");
    reveal_strlit(":");
    reveal_strlit("_");
    reveal_strlit(".bin");
    assert("/"@ =~= seq!['/']);
    assert(":"@ =~= seq![':']);
    let under = "_"@;
    assert(!under.contains('/')) by {
        if under.contains('/') {
            let j = choose|j: int| 0 <= j < under.len() && under[j] == '/';
            assert(under[0] == '_');
        }
    }
    assert(!under.contains(':')) by {
        if under.contains(':') {
            let j = choose|j: int| 0 <= j < under.len() && under[j] == ':';
            assert(under[0] == '_');
        }
    }
    let bin = ".bin"@;
    assert(!bin.contains('/') && !bin.contains(':')) by {
        if bin.contains('/') || bin.contains(':') {
            let j = choose|j: int| 0 <= j < bin.len() && (bin[j] == '/' || bin[j] == ':');
            assert(bin[0] == '.' && bin[1] == 'b' && bin[2] == 'i' && bin[3] == 'n');
        }
    }
    let r1 = replaced(key, "/"@, under);
    lemma_replaced_removes(key, '/', under);
    let r2 = replaced(r1, ":"@, under);
    lemma_replaced_removes(r1, ':', under);
    lemma_replaced_keeps_out(r1, ":"@, under, '/');
    let name = r2 + bin;
    assert(name == cache_file_name_of(key));
    assert(!name.contains('/') && !name.contains(':')) by {
        if name.contains('/') || name.contains(':') {
            let j = choose|j: int| 0 <= j < name.len() && (name[j] == '/' || name[j] == ':');
            if j < r2.len() {
                assert(r2[j] == name[j]);
            } else {
                assert(bin[j - r2.len()] == name[j]);
            }
        }
    }
    assert(name.subrange(name.len() - 4, name.len() as int) =~= bin);
}

/// A decimal rendering is never empty and holds digits only, so no `/`.
pub proof fn lemma_decimal_shape(n: nat)
    ensures
        decimal(n).len() >= 1,
        n < 10 <==> decimal(n).len() == 1,
        !decimal(n).contains('/'),
    decreases n,
{
    if n >= 10 {
        lemma_decimal_shape(n / 10);
        let p = decimal(n / 10);
        let d = decimal(n);
        assert(d == p.push(digit_char(n % 10)));
        assert(!d.contains('/')) by {
            if d.contains('/') {
                let j = choose|j: int| 0 <= j < d.len() && d[j] == '/';
                if j < p.len() {
                    assert(p[j] == '/');
                }
            }
        }
    } else {
        let d = decimal(n);
        assert(!d.contains('/')) by {
            if d.contains('/') {
                let j = choose|j: int| 0 <= j < d.len() && d[j] == '/';
                assert(d[0] == digit_char(n));
            }
        }
    }
}

/// Different numbers have different decimal renderings.
pub proof fn lemma_decimal_injective(n: nat, m: nat)
    requires
        decimal(n) == decimal(m),
    ensures
        n == m,
    decreases n,
{
    lemma_decimal_shape(n);
    lemma_decimal_shape(m);
    if n < 10 && m < 10 {
        assert(decimal(n)[0] == digit_char(n));
        assert(decimal(m)[0] == digit_char(m));
    } else if n >= 10 && m >= 10 {
        let dn = decimal(n);
        let dm = decimal(m);
        assert(dn.last() == digit_char(n % 10));
        assert(dm.last() == digit_char(m % 10));
        assert(dn.drop_last() =~= decimal(n / 10));
        assert(dm.drop_last() =~= decimal(m / 10));
        lemma_decimal_injective(n / 10, m / 10);
    }
}

/// Splitting at the first `/`: where neither head holds a `/`, the heads and the tails
/// of two equal joined sequences are equal.
pub proof fn lemma_split_at_slash(a: Seq<char>, b: Seq<char>, a2: Seq<char>, b2: Seq<char>)
    requires
        !a.contains('/'),
        !a2.contains('/'),
        a + seq!['/'] + b == a2 + seq!['/'] + b2,
    ensures
        a == a2,
        b == b2,
{
    let l = a + seq!['/'] + b;
    let r = a2 + seq!['/'] + b2;
    if a.len() < a2.len() {
        assert(l[a.len() as int] == '/');
        assert(r[a.len() as int] == a2[a.len() as int]);
    } else if a2.len() < a.len() {
        assert(r[a2.len() as int] == '/');
        assert(l[a2.len() as int] == a[a2.len() as int]);
    }
    assert(a =~= l.subrange(0, a.len() as int));
    assert(a2 =~= r.subrange(0, a2.len() as int));
    assert(b =~= l.subrange(a.len() as int + 1, l.len() as int));
    assert(b2 =~= r.subrange(a2.len() as int + 1, r.len() as int));
}

/// Tiles of one source at one scale never share a cache entry: the cache key tells the
/// zoom level and coordinates apart.
pub proof fn law_tile_keys_are_distinct(
    id: Seq<char>,
    scale: Seq<char>,
    z: u32,
    x: u32,
    y: u32,
    z2: u32,
    x2: u32,
    y2: u32,
)
    requires
        tile_cache_key(id, z, x, y, scale) == tile_cache_key(id, z2, x2, y2, scale),
    ensures
        z == z2 && x == x2 && y == y2,
{
    reveal_strlit(":");
    reveal_strlit("/");
    assert("/"@ =~= seq!['/']);
    let slash = seq!['/'];
    let head = id + ":"@;
    let (dz, dx, dy) = (decimal(z as nat), decimal(x as nat), decimal(y as nat));
    let (ez, ex, ey) = (decimal(z2 as nat), decimal(x2 as nat), decimal(y2 as nat));
    let mid = dz + slash + (dx + slash + dy);
    let mid2 = ez + slash + (ex + slash + ey);
    let k = tile_cache_key(id, z, x, y, scale);
    let k2 = tile_cache_key(id, z2, x2, y2, scale);
    assert(k =~= head + mid + (slash + scale));
    assert(k2 =~= head + mid2 + (slash + scale));
    assert(mid =~= k.subrange(head.len() as int, k.len() - 1 - scale.len()));
    assert(mid2 =~= k2.subrange(head.len() as int, k2.len() - 1 - scale.len()));
    lemma_decimal_shape(z as nat);
    lemma_decimal_shape(x as nat);
    lemma_decimal_shape(z2 as nat);
    lemma_decimal_shape(x2 as nat);
    lemma_split_at_slash(dz, dx + slash + dy, ez, ex + slash + ey);
    lemma_split_at_slash(dx, dy, ex, ey);
    lemma_decimal_injective(z as nat, z2 as nat);
    lemma_decimal_injective(x as nat, x2 as nat);
    lemma_decimal_injective(y as nat, y2 as nat);
}

/// `true` when no string value in the document mentions one of the tile server's own
/// addresses or the `{base}` placeholder.
pub open spec fn free_of_own_addresses(v: Json) -> bool
    decreases v,
{
    match v {
        Json::Str(s) => {
            &&& !occurs_in(s, "http://localhost:3000"@)
            &&& !occurs_in(s, "http://127.0.0.1:3000"@)
            &&& !occurs_in(s, "{base}"@)
        },
        Json::Array(items) => forall|i: int|
            0 <= i < items.len() ==> free_of_own_addresses(#[trigger] items[i]),
        Json::Object(members) => forall|i: int|
            0 <= i < members.len() ==> free_of_own_addresses(#[trigger] members[i].1),
        _ => true,
    }
}

/// Pointing a style at the configured server changes nothing in a style that does not
/// mention the tile server's own addresses.
pub proof fn law_rewrite_leaves_foreign_styles_alone(v: Json, base: Seq<char>)
    requires
        free_of_own_addresses(v),
    ensures
        rewrite_urls(v, base) == v,
    decreases v,
{
    reveal_strlit("http://localhost:3000");
    reveal_strlit("http://127.0.0.1:3000");
    reveal_strlit("{base}");
    match v {
        Json::Str(s) => {
            law_replace_without_occurrence(s, "http://localhost:3000"@, base);
            law_replace_without_occurrence(s, "http://127.0.0.1:3000"@, base);
            law_replace_without_occurrence(s, "{base}"@, base);
            assert(rewrite_text(s, base) == s);
        },
        Json::Array(items) => {
            assert forall|i: int| 0 <= i < items.len() implies rewrite_urls(items[i], base)
                == items[i] by {
                law_rewrite_leaves_foreign_styles_alone(items[i], base);
            }
            if let Json::Array(out) = rewrite_urls(v, base) {
                assert(out =~= items);
            }
        },
        Json::Object(members) => {
            assert forall|i: int| 0 <= i < members.len() implies rewrite_urls(members[i].1, base)
                == members[i].1 by {
                law_rewrite_leaves_foreign_styles_alone(members[i].1, base);
            }
            if let Json::Object(out) = rewrite_urls(v, base) {
                assert(out =~= members);
            }
        },
        _ => {},
    }
}

/// Query parameters with distinct names reach the template context unchanged and in
/// their order.
pub proof fn law_distinct_parameters_unchanged(params: Seq<(Seq<char>, Json)>)
    requires
        unique_keys(params),
    ensures
        merged(params) == params,
    decreases params.len(),
{
    if params.len() > 0 {
        let before = params.drop_last();
        assert(unique_keys(before));
        law_distinct_parameters_unchanged(before);
        assert(key_index(before, params.last().0) is None) by {
            if exists|i: int| 0 <= i < before.len() && before[i].0 == params.last().0 {
                let i = choose|i: int| 0 <= i < before.len() && before[i].0 == params.last().0;
                assert(params[i].0 == params[params.len() - 1].0);
            }
        }
        assert(before.push(params.last()) =~= params);
    }
}

/// Reordering the query parameters leaves the template context as it is, as long as the
/// values given under each name keep their order among themselves (a permutation of the
/// parameters that keeps the relative order of those sharing a name is such a
/// reordering, and every such reordering is one).
pub proof fn law_context_ignores_reordering(
    params: Seq<(Seq<char>, Json)>,
    reordered: Seq<(Seq<char>, Json)>,
)
    requires
        forall|k: Seq<char>| #[trigger] values_under(params, k) == values_under(reordered, k),
    ensures
        context_of(merged(params)) == context_of(merged(reordered)),
{
    lemma_merged_by_name(params);
    lemma_merged_by_name(reordered);
    let a = context_of(merged(params));
    let b = context_of(merged(reordered));
    assert forall|k: Seq<char>| a.dom().contains(k) <==> b.dom().contains(k) by {
        assert(values_under(params, k) == values_under(reordered, k));
    }
    assert forall|k: Seq<char>| a.dom().contains(k) implies a[k] == b[k] by {
        assert(values_under(params, k) == values_under(reordered, k));
    }
    assert(a =~= b);
}

/// The names in the template context are exactly the names of the query parameters, and
/// a name given once holds the value it was given.
pub proof fn law_context_names_and_single_values(params: Seq<(Seq<char>, Json)>)
    ensures
        forall|k: Seq<char>|
            #[trigger] context_of(merged(params)).dom().contains(k) <==> exists|i: int|
                0 <= i < params.len() && params[i].0 == k,
        forall|k: Seq<char>|
            values_under(params, k).len() == 1 ==> #[trigger] context_of(merged(params))[k]
                == values_under(params, k)[0],
{
    lemma_merged_by_name(params);
    assert forall|k: Seq<char>|
        #[trigger] context_of(merged(params)).dom().contains(k) <==> exists|i: int|
            0 <= i < params.len() && params[i].0 == k by {
        lemma_values_under_nonempty(params, k);
    }
}

/// A multi-map of one row holding one map is that map, whatever directions it names.
pub proof fn law_single_map_grid(rows: Seq<GridRowImages>)
    requires
        rows.len() == 1,
        rows[0].cells@.len() == 1,
    ensures
        composed(rows) == Some(rows[0].cells@[0].image@),
{
    let steps = cell_steps(rows[0].cells@);
    assert(steps.len() == 1);
    assert(steps.drop_last() =~= Seq::<(crate::grid::Direction, crate::raster::Img)>::empty());
    assert(row_image(steps.drop_last()) is None);
    assert(steps.last().1 == rows[0].cells@[0].image@);
    assert(row_image(steps) == Some(rows[0].cells@[0].image@));
    assert(rows.drop_last() =~= Seq::<GridRowImages>::empty());
    assert(row_results(rows.drop_last()) =~= Seq::empty());
    assert(rows.last() == rows[0]);
    let results = row_results(rows);
    assert(results.len() == 1);
    assert(stacked(results) == rows[0].cells@[0].image@);
}

/// A tile fetched after a cache miss is stored under the key the cache was asked for,
/// which is the tile's cache key, and exactly the bytes the client is sent are stored.
pub proof fn law_tile_stored_under_looked_up_key(
    config: Config,
    request: TileEvent,
    fetched: TileEvent,
    s1: TileState,
    a1: TileAction,
    s2: TileState,
    a2: TileAction,
    s3: TileState,
    a3: TileAction,
)
    requires
        request is Requested,
        tile_step(config, TileState::Idle, request, s1, a1),
        tile_step(config, s1, TileEvent::CacheMiss, s2, a2),
        tile_step(config, s2, fetched, s3, a3),
        a3 is StoreAndRespond,
    ensures
        a1 matches TileAction::LookupCache { key } && a3 matches TileAction::StoreAndRespond {
            key: stored,
            bytes,
            reply,
        } && stored@ == key@ && (reply.body matches crate::reply::Body::Bytes(b) && b@ == bytes@)
            && stored@ == tile_cache_key(
            request->Requested_id@,
            request->Requested_z,
            request->Requested_x,
            request->Requested_y,
            crate::tiles::scale_or_default(
                match request->Requested_scale {
                    Some(t) => Some(t@),
                    None => None,
                },
            ),
        ),
{
}

/// Overlays are drawn over the style: the style's own layers come first, in their order,
/// and the overlays' layers after them.
pub proof fn law_overlays_drawn_on_top(members: Seq<(Seq<char>, Json)>, ov: Overlays)
    requires
        member(members, "layers"@) matches Some(l) && l is Array,
    ensures
        injected(Json::Object(members), ov) matches Some(Json::Object(out)) && member(out, "layers"@)
            == Some(Json::Array(member(members, "layers"@).unwrap()->Array_0 + overlay_layers(ov))),
{
    reveal_strlit("sources");
    reveal_strlit("layers");
    assert("sources"@.len() != "layers"@.len());
    let m1 = with_default(members, "sources"@, Json::Object(Seq::empty()));
    crate::json::lemma_member_after_insert(members, "sources"@, Json::Object(Seq::empty()), "layers"@);
    let m2 = with_default(m1, "layers"@, Json::Array(Seq::empty()));
    assert(m2 == m1);
    let sources = member(m2, "sources"@).unwrap()->Object_0;
    let m3 = insert_member(
        m2,
        "sources"@,
        Json::Object(crate::overlays::insert_all(sources, crate::overlays::overlay_sources(ov))),
    );
    crate::json::lemma_member_after_insert(
        m2,
        "sources"@,
        Json::Object(crate::overlays::insert_all(sources, crate::overlays::overlay_sources(ov))),
        "layers"@,
    );
    let layers = member(m2, "layers"@).unwrap()->Array_0;
    crate::json::lemma_member_after_insert(
        m3,
        "layers"@,
        Json::Array(layers + overlay_layers(ov)),
        "layers"@,
    );
}

/// An upstream answer is stored in the tile cache only when its status is a success
/// (200 to 299), and always then; any other answer is relayed without being stored.
pub proof fn law_only_successful_answers_are_stored(
    config: Config,
    state: TileState,
    event: TileEvent,
    next: TileState,
    action: TileAction,
)
    requires
        tile_step(config, state, event, next, action),
    ensures
        action is StoreAndRespond <==> (state is Fetching && event is Fetched && 200
            <= event->Fetched_status <= 299),
        (state is Fetching && event is Fetched && !(200 <= event->Fetched_status <= 299))
            ==> action is Respond,
{
}

/// A name given two or more times holds an array of every value given under it, in
/// order; where the first value is itself an array, the later values are appended to
/// its items.
pub proof fn law_repeated_name_lists_every_value(params: Seq<(Seq<char>, Json)>, k: Seq<char>)
    requires
        values_under(params, k).len() >= 2,
    ensures
        ({
            let vs = values_under(params, k);
            let rest = vs.subrange(1, vs.len() as int);
            context_of(merged(params))[k] == match vs[0] {
                Json::Array(items) => Json::Array(items + rest),
                _ => Json::Array(vs),
            }
        }),
        !(values_under(params, k)[0] is Array) ==> context_of(merged(params))[k] == Json::Array(
            values_under(params, k),
        ),
{
    lemma_merged_by_name(params);
    lemma_folded_lists(values_under(params, k));
}

/// Folding two or more values lists them after the first one's items (or after the first
/// one, where it is no array).
proof fn lemma_folded_lists(vs: Seq<Json>)
    requires
        vs.len() >= 2,
    ensures
        folded(vs) == match vs[0] {
            Json::Array(items) => Json::Array(items + vs.subrange(1, vs.len() as int)),
            _ => Json::Array(vs),
        },
    decreases vs.len(),
{
    let d = vs.drop_last();
    if vs.len() == 2 {
        assert(folded(d) == vs[0]);
        match vs[0] {
            Json::Array(items) => {
                assert(items.push(vs[1]) =~= items + vs.subrange(1, 2));
            },
            _ => {
                assert(seq![vs[0], vs[1]] =~= vs);
            },
        }
    } else {
        lemma_folded_lists(d);
        assert(d[0] == vs[0]);
        match vs[0] {
            Json::Array(items) => {
                assert((items + d.subrange(1, d.len() as int)).push(vs.last()) =~= items
                    + vs.subrange(1, vs.len() as int));
            },
            _ => {
                assert(d.push(vs.last()) =~= vs);
            },
        }
    }
}

/// The local raster style of a tile source asks for tiles at the scale the map is drawn
/// at: the requested scale where one is given, and a request without a scale gets the
/// same tiles as one with scale 1.
pub proof fn law_tile_scale_follows_render_scale(style: Seq<char>, s: u32)
    ensures
        local_tiles_url(style, scale_of(Some(s))) == "http://localhost:3001/tiles/"@ + style
            + "/{z}/{x}/{y}?scale="@ + decimal(s as nat),
        raster_style(local_tiles_url(style, scale_of(None))) == raster_style(
            local_tiles_url(style, scale_of(Some(1u32))),
        ),
{
}

/// `b` drawn beside `a`: a transparent canvas as wide as both and as high as the higher
/// one, with `a` drawn at its origin and then `b` at `a`'s width on the top edge.
pub open spec fn beside_on_blank(a: Img, b: Img) -> Img {
    let w = a.width + b.width;
    let h = max_nat(a.height, b.height);
    Img {
        width: w,
        height: h,
        pixels: overlaid(
            overlaid(
                blank_pixels(w, h),
                w as u32,
                h as u32,
                a.pixels,
                a.width as u32,
                a.height as u32,
                0,
                0,
            ),
            w as u32,
            h as u32,
            b.pixels,
            b.width as u32,
            b.height as u32,
            a.width as i64,
            0,
        ),
    }
}

/// `b` drawn below `a`: a transparent canvas as wide as the wider one and as high as
/// both, with `a` drawn at its origin and then `b` at `a`'s height on the left edge.
pub open spec fn below_on_blank(a: Img, b: Img) -> Img {
    let w = max_nat(a.width, b.width);
    let h = a.height + b.height;
    Img {
        width: w,
        height: h,
        pixels: overlaid(
            overlaid(
                blank_pixels(w, h),
                w as u32,
                h as u32,
                a.pixels,
                a.width as u32,
                a.height as u32,
                0,
                0,
            ),
            w as u32,
            h as u32,
            b.pixels,
            b.width as u32,
            b.height as u32,
            0,
            a.height as i64,
        ),
    }
}

/// Joining a further row to a grid: a row that says `right` is drawn beside what the
/// rows before it make, one that says `bottom` below it, each with the earlier image
/// at the origin; a row that says anything else is left out. An empty row changes
/// nothing.
pub proof fn law_grid_rows_join(rows: Seq<GridRowImages>, row: GridRowImages)
    requires
        composed(rows) is Some,
    ensures
        ({
            let acc = composed(rows)->0;
            let joined = composed(rows.push(row));
            match row_image(cell_steps(row.cells@)) {
                None => joined == composed(rows),
                Some(img) => if row.direction@ == "right"@ {
                    joined == Some(beside_on_blank(acc, img))
                } else if row.direction@ == "bottom"@ {
                    joined == Some(below_on_blank(acc, img))
                } else {
                    joined == composed(rows)
                },
            }
        }),
{
    let all = rows.push(row);
    assert(all.drop_last() =~= rows);
    let results = row_results(rows);
    match row_image(cell_steps(row.cells@)) {
        None => {},
        Some(img) => {
            let r2 = results.push((direction_of(row.direction@), img));
            assert(row_results(all) == r2);
            assert(r2.drop_last() =~= results);
        },
    }
}

/// Adding a further map to a grid row: a map that says `right` is drawn beside what the
/// maps before it make, one that says `bottom` below it, each with the earlier image at
/// the origin; a map that says anything else replaces what came before it in the row.
pub proof fn law_row_maps_join(cells: Seq<GridCell>, cell: GridCell)
    requires
        row_image(cell_steps(cells)) is Some,
    ensures
        ({
            let acc = row_image(cell_steps(cells))->0;
            let joined = row_image(cell_steps(cells.push(cell)));
            if cell.direction@ == "right"@ {
                joined == Some(beside_on_blank(acc, cell.image@))
            } else if cell.direction@ == "bottom"@ {
                joined == Some(below_on_blank(acc, cell.image@))
            } else {
                joined == Some(cell.image@)
            }
        }),
{
    let steps = cell_steps(cells.push(cell));
    assert(steps.drop_last() =~= cell_steps(cells));
    assert(steps.last() == (direction_of(cell.direction@), cell.image@));
}

/// Member `key` of a layer object.
pub open spec fn layer_member(layer: Json, key: Seq<char>) -> Option<Json> {
    match layer {
        Json::Object(m) => member(m, key),
        _ => None,
    }
}

/// Member `key` of a layer's `paint` object.
pub open spec fn paint_member(layer: Json, key: Seq<char>) -> Option<Json> {
    match layer_member(layer, "paint"@) {
        Some(Json::Object(p)) => member(p, key),
        _ => None,
    }
}

/// `true` when `layer` draws the shape numbered `i` from that shape's own source: its
/// `source` names the shape's source, and it is either the shape's fill layer, painted
/// in its fill color, or its outline layer, painted in its stroke color.
pub open spec fn draws_shape(layer: Json, names: ShapeNames, i: nat, shape: ShapeOverlay) -> bool {
    &&& layer_member(layer, "source"@) == Some(Json::Str(numbered(names.source, i)))
    &&& {
        ||| {
            &&& shape.fill_color is Some
            &&& layer_member(layer, "id"@) == Some(Json::Str(numbered(names.fill, i)))
            &&& paint_member(layer, "fill-color"@) == Some(Json::Str(shape.fill_color->0@))
        }
        ||| {
            &&& shape.stroke_color is Some
            &&& layer_member(layer, "id"@) == Some(Json::Str(numbered(names.stroke, i)))
            &&& paint_member(layer, "line-color"@) == Some(Json::Str(shape.stroke_color->0@))
        }
    }
}

/// What a fill layer and a line layer say of their name, source and color.
proof fn lemma_layer_members(id: Seq<char>, source: Seq<char>, color: Seq<char>, width: u32)
    ensures
        layer_member(fill_layer(id, source, color), "id"@) == Some(Json::Str(id)),
        layer_member(fill_layer(id, source, color), "source"@) == Some(Json::Str(source)),
        paint_member(fill_layer(id, source, color), "fill-color"@) == Some(Json::Str(color)),
        layer_member(line_layer(id, source, color, width), "id"@) == Some(Json::Str(id)),
        layer_member(line_layer(id, source, color, width), "source"@) == Some(Json::Str(source)),
        paint_member(line_layer(id, source, color, width), "line-color"@) == Some(
            Json::Str(color),
        ),
{
    reveal_strlit("id");
    reveal_strlit("type");
    reveal_strlit("source");
    reveal_strlit("paint");
    reveal_strlit("fill-color");
    reveal_strlit("line-color");
    let f = fill_layer(id, source, color)->Object_0;
    let l = line_layer(id, source, color, width)->Object_0;
    let unit = Json::Null;
    assert("id"@.len() == 2 && "type"@.len() == 4 && "source"@.len() == 6 && "paint"@.len() == 5);
    assert("id"@ != "source"@ && "type"@ != "source"@);
    assert("id"@ != "paint"@ && "type"@ != "paint"@ && "source"@ != "paint"@);
    assert(f[0].0 == "id"@ && f[1].0 == "type"@ && f[2].0 == "source"@);
    assert(l[0].0 == "id"@ && l[1].0 == "type"@ && l[2].0 == "source"@);
    lemma_first_member(f, "id"@, unit, 0);
    lemma_first_member(f, "source"@, unit, 2);
    lemma_first_member(f, "paint"@, unit, 3);
    lemma_first_member(f[3].1->Object_0, "fill-color"@, unit, 0);
    lemma_first_member(l, "id"@, unit, 0);
    lemma_first_member(l, "source"@, unit, 2);
    lemma_first_member(l, "paint"@, unit, 3);
    lemma_first_member(l[3].1->Object_0, "line-color"@, unit, 0);
}

/// Every layer of the shape numbered `i` draws that shape from its own source.
proof fn lemma_shape_layers_draw(names: ShapeNames, i: nat, shape: ShapeOverlay)
    ensures
        forall|j: int|
            0 <= j < shape_layers(names, i, shape).len() ==> draws_shape(
                #[trigger] shape_layers(names, i, shape)[j],
                names,
                i,
                shape,
            ),
        shape.fill_color is Some ==> layer_member(shape_layers(names, i, shape)[0], "id"@) == Some(
            Json::Str(numbered(names.fill, i)),
        ),
        shape.stroke_color is Some ==> layer_member(
            shape_layers(names, i, shape).last(),
            "id"@,
        ) == Some(Json::Str(numbered(names.stroke, i))),
        shape.fill_color is Some ==> shape_layers(names, i, shape).len() >= 1,
        shape.stroke_color is Some ==> shape_layers(names, i, shape).len() >= 1,
{
    let source = numbered(names.source, i);
    let w: u32 = match shape.stroke_width {
        Some(w) => w,
        None => 1,
    };
    match shape.fill_color {
        Some(c) => lemma_layer_members(numbered(names.fill, i), source, c@, w),
        None => {},
    }
    match shape.stroke_color {
        Some(c) => lemma_layer_members(numbered(names.stroke, i), source, c@, w),
        None => {},
    }
}

/// Every layer drawn for a list of shapes draws one of those shapes, from that shape's
/// own source and in that shape's colors.
pub proof fn law_shape_layers_draw_their_own_shape(names: ShapeNames, shapes: Seq<ShapeOverlay>)
    ensures
        forall|j: int|
            0 <= j < shapes_layers(names, shapes).len() ==> exists|i: int|
                0 <= i < shapes.len() && draws_shape(
                    #[trigger] shapes_layers(names, shapes)[j],
                    names,
                    i as nat,
                    shapes[i],
                ),
    decreases shapes.len(),
{
    if shapes.len() > 0 {
        let d = shapes.drop_last();
        let n = (shapes.len() - 1) as nat;
        law_shape_layers_draw_their_own_shape(names, d);
        lemma_shape_layers_draw(names, n, shapes.last());
        let before = shapes_layers(names, d);
        let last = shape_layers(names, n, shapes.last());
        assert(shapes_layers(names, shapes) == before + last);
        assert forall|j: int| 0 <= j < shapes_layers(names, shapes).len() implies exists|i: int|
            0 <= i < shapes.len() && draws_shape(
                #[trigger] shapes_layers(names, shapes)[j],
                names,
                i as nat,
                shapes[i],
            ) by {
            if j < before.len() {
                assert(shapes_layers(names, shapes)[j] == before[j]);
                let i = choose|i: int| 0 <= i < d.len() && draws_shape(before[j], names, i as nat, d[i]);
                assert(shapes[i] == d[i]);
            } else {
                assert(shapes_layers(names, shapes)[j] == last[j - before.len()]);
                assert(draws_shape(last[j - before.len()], names, n, shapes.last()));
                assert(shapes[n as int] == shapes.last());
            }
        }
    }
}

/// Every shape with a fill color gets its fill layer, and every shape with a stroke
/// color its outline layer, each drawing the shape from its own source.
pub proof fn law_colored_shapes_are_drawn(names: ShapeNames, shapes: Seq<ShapeOverlay>, i: int)
    requires
        0 <= i < shapes.len(),
    ensures
        shapes[i].fill_color is Some ==> exists|j: int|
            0 <= j < shapes_layers(names, shapes).len() && draws_shape(
                #[trigger] shapes_layers(names, shapes)[j],
                names,
                i as nat,
                shapes[i],
            ) && layer_member(shapes_layers(names, shapes)[j], "id"@) == Some(
                Json::Str(numbered(names.fill, i as nat)),
            ),
        shapes[i].stroke_color is Some ==> exists|j: int|
            0 <= j < shapes_layers(names, shapes).len() && draws_shape(
                #[trigger] shapes_layers(names, shapes)[j],
                names,
                i as nat,
                shapes[i],
            ) && layer_member(shapes_layers(names, shapes)[j], "id"@) == Some(
                Json::Str(numbered(names.stroke, i as nat)),
            ),
    decreases shapes.len(),
{
    let d = shapes.drop_last();
    let n = (shapes.len() - 1) as nat;
    let before = shapes_layers(names, d);
    let last = shape_layers(names, n, shapes.last());
    assert(shapes_layers(names, shapes) == before + last);
    if i < n {
        law_colored_shapes_are_drawn(names, d, i);
        assert(shapes[i] == d[i]);
        if shapes[i].fill_color is Some {
            let j = choose|j: int|
                0 <= j < before.len() && draws_shape(before[j], names, i as nat, d[i])
                    && layer_member(before[j], "id"@) == Some(Json::Str(numbered(names.fill, i as nat)));
            assert(shapes_layers(names, shapes)[j] == before[j]);
        }
        if shapes[i].stroke_color is Some {
            let j = choose|j: int|
                0 <= j < before.len() && draws_shape(before[j], names, i as nat, d[i])
                    && layer_member(before[j], "id"@) == Some(Json::Str(numbered(names.stroke, i as nat)));
            assert(shapes_layers(names, shapes)[j] == before[j]);
        }
    } else {
        lemma_shape_layers_draw(names, n, shapes.last());
        if shapes[i].fill_color is Some {
            let j = before.len() as int;
            assert(shapes_layers(names, shapes)[j] == last[0]);
            assert(draws_shape(last[0], names, n, shapes.last()));
        }
        if shapes[i].stroke_color is Some {
            let j = (before.len() + last.len() - 1) as int;
            assert(shapes_layers(names, shapes)[j] == last.last());
            assert(draws_shape(last[last.len() - 1], names, n, shapes.last()));
        }
    }
}

/// The source named after the shape numbered `i` holds that shape's ring: the polygon's
/// outline closed where it is open, the circle's outline closed.
pub proof fn law_shape_sources_hold_their_ring(
    names: ShapeNames,
    shapes: Seq<ShapeOverlay>,
    polygons: bool,
    i: int,
)
    requires
        0 <= i < shapes.len(),
    ensures
        member(shapes_sources(names, shapes, polygons), numbered(names.source, i as nat)) == Some(
            polygon_source(
                if polygons {
                    polygon_ring(shapes[i].points@)
                } else {
                    circle_ring(shapes[i].points@)
                },
            ),
        ),
{
    let src = shapes_sources(names, shapes, polygons);
    assert forall|j: int| 0 <= j < i implies src[j].0 != numbered(names.source, i as nat) by {
        if src[j].0 == numbered(names.source, i as nat) {
            let p = names.source;
            assert(numbered(p, j as nat).subrange(p.len() as int, numbered(p, j as nat).len() as int)
                =~= decimal(j as nat));
            assert(numbered(p, i as nat).subrange(p.len() as int, numbered(p, i as nat).len() as int)
                =~= decimal(i as nat));
            lemma_decimal_injective(j as nat, i as nat);
        }
    }
    lemma_first_member(src, numbered(names.source, i as nat), Json::Null, i);
}

} // verus!
