//! HTTP replies as the library decides them: status, content type and body.
use vstd::prelude::*;

verus! {

/// The body of a reply.
#[derive(Debug, PartialEq)]
pub enum Body {
    Bytes(Vec<u8>),
    Text(String),
}

/// A reply: status code, value of the `content-type` header, body.
#[derive(Debug, PartialEq)]
pub struct Reply {
    pub status: u16,
    pub content_type: String,
    pub body: Body,
}

/// The content type of a plain-text reply.
pub open spec fn text_plain() -> Seq<char> {
    "text/plain; charset=utf-8"@
}

/// The content type of a PNG reply.
pub open spec fn image_png() -> Seq<char> {
    "image/png"@
}

/// `true` when `r` is a plain-text reply with the given status and message.
pub open spec fn is_text_reply(r: Reply, status: u16, message: Seq<char>) -> bool {
    &&& r.status == status
    &&& r.content_type@ == text_plain()
    &&& r.body matches Body::Text(t) && t@ == message
}

/// `true` when `r` carries `bytes` with the given status and content type.
pub open spec fn is_bytes_reply(r: Reply, status: u16, content_type: Seq<char>, bytes: Seq<u8>) -> bool {
    &&& r.status == status
    &&& r.content_type@ == content_type
    &&& r.body matches Body::Bytes(b) && b@ == bytes
}

/// A plain-text reply.
pub fn text_reply(status: u16, message: &str) -> (r: Reply)
    ensures
        is_text_reply(r, status, message@),
{
    Reply {
        status,
        content_type: crate::text::owned("text/plain; charset=utf-8"),
        body: Body::Text(crate::text::owned(message)),
    }
}

/// A successful PNG reply carrying `bytes`.
pub fn png_reply(bytes: Vec<u8>) -> (r: Reply)
    ensures
        is_bytes_reply(r, 200, image_png(), bytes@),
{
    Reply { status: 200, content_type: crate::text::owned("image/png"), body: Body::Bytes(bytes) }
}

/// What a map endpoint was doing when it failed.
#[derive(Clone, Copy, PartialEq, Eq, Structural, Debug)]
pub enum Failure {
    /// Generating a static map (`/staticmap`).
    StaticMap,
    /// Generating a multi-map (`/multistaticmap`).
    MultiMap,
    /// Rendering a template and the map it describes (`/.../{template}`).
    Template,
}

/// The beginning of the message for a failure.
pub open spec fn failure_prefix(kind: Failure) -> Seq<char> {
    match kind {
        Failure::StaticMap => "error generating map: "@,
        Failure::MultiMap => "error generating multi-map: "@,
        Failure::Template => "error rendering template: "@,
    }
}

/// The reply of a map endpoint that failed: status 500 and a message naming what failed,
/// followed by the error's own description.
pub fn failure_reply(kind: Failure, detail: &str) -> (r: Reply)
    ensures
        is_text_reply(r, 500, failure_prefix(kind) + detail@),
{
    let mut message = match kind {
        Failure::StaticMap => crate::text::owned("error generating map: "),
        Failure::MultiMap => crate::text::owned("error generating multi-map: "),
        Failure::Template => crate::text::owned("error rendering template: "),
    };
    crate::text::push_str(&mut message, detail);
    Reply {
        status: 500,
        content_type: crate::text::owned("text/plain; charset=utf-8"),
        body: Body::Text(message),
    }
}

} // verus!
