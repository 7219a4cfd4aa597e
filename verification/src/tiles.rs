//! The tile proxy (`GET /tiles/{id}/{z}/{x}/{y}`): which upstream URL a tile comes from,
//! under which key it is cached, and what the client is answered at each step; and the
//! decisions of the tile cache on disk.
use vstd::prelude::*;
use crate::config::{Config, source_for};
use crate::reply::{Body, Reply, image_png, is_bytes_reply, is_text_reply, png_reply, text_reply};
use crate::text::{decimal, owned, push_decimal, push_str, replace_all, replaced};

verus! {

/// The scale of a tile request: the `scale` query parameter, `1` where absent.
pub open spec fn scale_or_default(scale: Option<Seq<char>>) -> Seq<char> {
    match scale {
        Some(s) => s,
        None => "1"@,
    }
}

/// The cache key of a tile: `{id}:{z}/{x}/{y}/{scale}`.
pub open spec fn tile_cache_key(id: Seq<char>, z: u32, x: u32, y: u32, scale: Seq<char>) -> Seq<char> {
    id + ":"@ + decimal(z as nat) + "/"@ + decimal(x as nat) + "/"@ + decimal(y as nat) + "/"@ + scale
}

/// The upstream URL of a tile: the source's template with `{z}`, `{x}`, `{y}` and
/// `{scale}` filled in, in that order.
pub open spec fn tile_url(template: Seq<char>, z: u32, x: u32, y: u32, scale: Seq<char>) -> Seq<char> {
    replaced(
        replaced(
            replaced(replaced(template, "{z}"@, decimal(z as nat)), "{x}"@, decimal(x as nat)),
            "{y}"@,
            decimal(y as nat),
        ),
        "{scale}"@,
        scale,
    )
}

/// The cache key of a tile.
pub fn tile_key(id: &str, z: u32, x: u32, y: u32, scale: &str) -> (k: String)
    ensures
        k@ == tile_cache_key(id@, z, x, y, scale@),
{
    let mut k = owned(id);
    push_str(&mut k, ":");
    push_decimal(&mut k, z as u64);
    push_str(&mut k, "/");
    push_decimal(&mut k, x as u64);
    push_str(&mut k, "/");
    push_decimal(&mut k, y as u64);
    push_str(&mut k, "/");
    push_str(&mut k, scale);
    k
}

/// The upstream URL of a tile.
pub fn fill_tile_url(template: &str, z: u32, x: u32, y: u32, scale: &str) -> (u: String)
    ensures
        u@ == tile_url(template@, z, x, y, scale@),
{
    proof {
        reveal_strlit("{z}");
        reveal_strlit("{x}");
        reveal_strlit("{y}");
        reveal_strlit("{scale}");
    }
    let zs = crate::text::decimal_string(z as u64);
    let xs = crate::text::decimal_string(x as u64);
    let ys = crate::text::decimal_string(y as u64);
    let a = replace_all(template, "{z}", zs.as_str());
    let b = replace_all(a.as_str(), "{x}", xs.as_str());
    let c = replace_all(b.as_str(), "{y}", ys.as_str());
    replace_all(c.as_str(), "{scale}", scale)
}

/// Where a tile request stands.
#[derive(Debug)]
pub enum TileState {
    /// No request yet.
    Idle,
    /// The cache is being asked for the tile under `key`; `url` is where it comes from
    /// otherwise.
    CheckingCache { key: String, url: String },
    /// The tile is being fetched from upstream; it would be cached under `key`.
    Fetching { key: String },
    /// The client has been answered.
    Finished,
}

/// What happened.
#[derive(Debug)]
pub enum TileEvent {
    /// A client asked for a tile; `scale` is its `scale` query parameter.
    Requested { id: String, z: u32, x: u32, y: u32, scale: Option<String> },
    /// The cache holds the tile.
    CacheHit { bytes: Vec<u8> },
    /// The cache does not hold the tile, or could not be read.
    CacheMiss,
    /// The upstream server answered. `content_type` is its `content-type` header where
    /// that is present and readable as text.
    Fetched { status: u16, content_type: Option<String>, body: Vec<u8> },
    /// The upstream server could not be reached.
    FetchFailed,
}

/// What is to be done next.
#[derive(Debug)]
pub enum TileAction {
    /// Look the tile up in the cache.
    LookupCache { key: String },
    /// Fetch the tile from upstream.
    Fetch { url: String },
    /// Answer the client.
    Respond { reply: Reply },
    /// Store `bytes` in the cache under `key`, and answer the client.
    StoreAndRespond { key: String, bytes: Vec<u8>, reply: Reply },
    /// Nothing: the event does not belong to this state.
    Nothing,
}

/// The status the client gets for an upstream status: the same where it is a valid
/// HTTP status (100 to 999), 500 otherwise.
pub open spec fn relayed_status(status: u16) -> u16 {
    if 100 <= status <= 999 {
        status
    } else {
        500
    }
}

/// Whether an upstream answer is cached: for a success status (200 to 299).
pub open spec fn is_success(status: u16) -> bool {
    200 <= status <= 299
}

/// `true` when `reply` relays an upstream answer.
pub open spec fn is_relayed_reply(
    reply: Reply,
    status: u16,
    content_type: Option<String>,
    body: Seq<u8>,
) -> bool {
    is_bytes_reply(
        reply,
        relayed_status(status),
        match content_type {
            Some(c) => c@,
            None => image_png(),
        },
        body,
    )
}

/// One step of a tile request: `state` and `event` lead to `next` and `action`.
pub open spec fn tile_step(
    config: Config,
    state: TileState,
    event: TileEvent,
    next: TileState,
    action: TileAction,
) -> bool {
    match (state, event) {
        (TileState::Idle, TileEvent::Requested { id, z, x, y, scale }) => match source_for(
            config.tile_sources@,
            id@,
        ) {
            None => {
                &&& next is Finished
                &&& action matches TileAction::Respond { reply }
                &&& is_text_reply(reply, 404, "tile source not found"@)
            },
            Some(template) => {
                let s = scale_or_default(
                    match scale {
                        Some(t) => Some(t@),
                        None => None,
                    },
                );
                &&& next matches TileState::CheckingCache { key, url }
                &&& key@ == tile_cache_key(id@, z, x, y, s)
                &&& url@ == tile_url(template, z, x, y, s)
                &&& action matches TileAction::LookupCache { key: k } && k@ == key@
            },
        },
        (TileState::CheckingCache { key, url }, TileEvent::CacheHit { bytes }) => {
            &&& next is Finished
            &&& action matches TileAction::Respond { reply }
            &&& is_bytes_reply(reply, 200, image_png(), bytes@)
        },
        (TileState::CheckingCache { key, url }, TileEvent::CacheMiss) => {
            &&& next matches TileState::Fetching { key: k } && k@ == key@
            &&& action matches TileAction::Fetch { url: u } && u@ == url@
        },
        (TileState::Fetching { key }, TileEvent::Fetched { status, content_type, body }) => {
            &&& next is Finished
            &&& if is_success(status) {
                &&& action matches TileAction::StoreAndRespond { key: k, bytes, reply }
                &&& k@ == key@
                &&& bytes@ == body@
                &&& is_relayed_reply(reply, status, content_type, body@)
            } else {
                &&& action matches TileAction::Respond { reply }
                &&& is_relayed_reply(reply, status, content_type, body@)
            }
        },
        (TileState::Fetching { key }, TileEvent::FetchFailed) => {
            &&& next is Finished
            &&& action matches TileAction::Respond { reply }
            &&& is_text_reply(reply, 500, "external tile source error"@)
        },
        (s, _) => next == s && action is Nothing,
    }
}

/// The reply relaying an upstream answer.
fn relay(status: u16, content_type: Option<String>, body: Vec<u8>) -> (r: Reply)
    ensures
        is_relayed_reply(r, status, content_type, body@),
{
    let code = if 100 <= status && status <= 999 {
        status
    } else {
        500
    };
    let ct = match content_type {
        Some(c) => c,
        None => owned("image/png"),
    };
    Reply { status: code, content_type: ct, body: Body::Bytes(body) }
}

/// Advances a tile request by one event.
pub fn tile_proxy_step(config: &Config, state: TileState, event: TileEvent) -> (r: (TileState, TileAction))
    ensures
        tile_step(*config, state, event, r.0, r.1),
{
    match (state, event) {
        (TileState::Idle, TileEvent::Requested { id, z, x, y, scale }) => {
            match config.tile_source(id.as_str()) {
                None => (TileState::Finished, TileAction::Respond {
                    reply: text_reply(404, "tile source not found"),
                }),
                Some(template) => {
                    let s = match scale {
                        Some(t) => t,
                        None => owned("1"),
                    };
                    let key = tile_key(id.as_str(), z, x, y, s.as_str());
                    let url = fill_tile_url(template.as_str(), z, x, y, s.as_str());
                    let k = key.clone();
                    (TileState::CheckingCache { key, url }, TileAction::LookupCache { key: k })
                },
            }
        },
        (TileState::CheckingCache { key, url }, TileEvent::CacheHit { bytes }) => {
            (TileState::Finished, TileAction::Respond { reply: png_reply(bytes) })
        },
        (TileState::CheckingCache { key, url }, TileEvent::CacheMiss) => {
            (TileState::Fetching { key }, TileAction::Fetch { url })
        },
        (TileState::Fetching { key }, TileEvent::Fetched { status, content_type, body }) => {
            if 200 <= status && status <= 299 {
                let stored = body.clone();
                let reply = relay(status, content_type, body);
                (TileState::Finished, TileAction::StoreAndRespond { key, bytes: stored, reply })
            } else {
                let reply = relay(status, content_type, body);
                (TileState::Finished, TileAction::Respond { reply })
            }
        },
        (TileState::Fetching { key }, TileEvent::FetchFailed) => {
            (TileState::Finished, TileAction::Respond {
                reply: text_reply(500, "external tile source error"),
            })
        },
        (s, _) => (s, TileAction::Nothing),
    }
}

/// The name of the file a cached tile is kept in: its key with every `/` and then
/// every `:` replaced by `_`, and `.bin` appended.
pub open spec fn cache_file_name_of(key: Seq<char>) -> Seq<char> {
    replaced(replaced(key, "/"@, "_"@), ":"@, "_"@) + ".bin"@
}

/// The name of the file a cached tile is kept in.
pub fn cache_file_name(key: &str) -> (f: String)
    ensures
        f@ == cache_file_name_of(key@),
{
    proof {
        reveal_strlit("/");
        reveal_strlit(":");
    }
    let a = replace_all(key, "/", "_");
    let mut b = replace_all(a.as_str(), ":", "_");
    push_str(&mut b, ".bin");
    b
}

/// Bytes per GiB.
pub const BYTES_PER_GB: u64 = 1073741824;

/// The size limit of the cache in bytes for a limit in GiB.
pub fn cache_limit_bytes(gb: u64) -> (b: u64)
    requires
        gb * BYTES_PER_GB <= u64::MAX,
    ensures
        b == gb * BYTES_PER_GB,
{
    gb * BYTES_PER_GB
}

/// Whether the cache must evict: the total size of its entries (as the database sums
/// it, read as unsigned) exceeds the limit.
pub fn must_evict(total_size: i64, limit_bytes: u64) -> (b: bool)
    ensures
        b == ((total_size as u64) > limit_bytes),
{
    (total_size as u64) > limit_bytes
}

/// The number of least-used entries evicted at once.
pub const EVICTION_BATCH: u32 = 100;

/// What the database holds for a key the cache is asked for.
pub enum CacheLookup {
    /// No row for the key.
    NoRow,
    /// A row naming the file the tile is kept in and its hit count, and whether that
    /// file exists.
    Row { file: String, hit_count: i64, file_exists: bool },
}

/// What the cache does after looking a key up.
#[derive(PartialEq, Eq, Debug)]
pub enum CacheAction {
    /// Read `file`, set the row's hit count to `hits` and its access time to now, and
    /// answer with the file's bytes.
    Serve { file: String, hits: i64 },
    /// The file is gone: delete the row, and answer that the tile is not cached.
    Purge,
    /// Answer that the tile is not cached.
    Miss,
}

/// What the cache does after a lookup: a row whose file exists is a hit counted once
/// more; a row whose file is gone is deleted and, like a missing row, is a miss.
pub open spec fn lookup_action(lookup: CacheLookup) -> CacheAction {
    match lookup {
        CacheLookup::NoRow => CacheAction::Miss,
        CacheLookup::Row { file, hit_count, file_exists } => if file_exists {
            CacheAction::Serve { file, hits: (hit_count + 1) as i64 }
        } else {
            CacheAction::Purge
        },
    }
}

/// The step of the cache after a lookup (see `lookup_action`).
pub fn cache_lookup_step(lookup: CacheLookup) -> (a: CacheAction)
    requires
        lookup matches CacheLookup::Row { hit_count, file_exists, .. } ==> (file_exists
            ==> hit_count < i64::MAX),
    ensures
        a == lookup_action(lookup),
{
    match lookup {
        CacheLookup::NoRow => CacheAction::Miss,
        CacheLookup::Row { file, hit_count, file_exists } => {
            if file_exists {
                CacheAction::Serve { file, hits: hit_count + 1 }
            } else {
                CacheAction::Purge
            }
        },
    }
}

/// What the cache does with an entry chosen for eviction.
#[derive(PartialEq, Eq, Debug)]
pub enum EvictionAction {
    /// Remove the entry's file (a failure to remove it is ignored), then its row.
    RemoveFileAndRow,
    /// The file is already gone: remove the row.
    RemoveRow,
}

/// The step of the cache for an entry chosen for eviction, given whether its file exists.
pub fn eviction_step(file_exists: bool) -> (a: EvictionAction)
    ensures
        file_exists ==> a == EvictionAction::RemoveFileAndRow,
        !file_exists ==> a == EvictionAction::RemoveRow,
{
    if file_exists {
        EvictionAction::RemoveFileAndRow
    } else {
        EvictionAction::RemoveRow
    }
}

} // verus!
