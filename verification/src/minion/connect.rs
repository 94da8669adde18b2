//! What goes into the requests by which a worker reaches its relay.

use base64::Engine;
use vstd::prelude::*;
use crate::text::joined;

verus! {

/// The bytes in base64, with the standard alphabet and padding.
pub uninterp spec fn base64_text(bytes: Seq<u8>) -> Seq<char>;

/// `base64::Engine::encode` of the engine `STANDARD`: the bytes in base64.
/// The outcome depends on the bytes alone, so the contract names it.
#[verifier::external_body]
fn base64_of(key: &[u8; 16]) -> (r: String)
    ensures
        r@ == base64_text(key@),
{
    base64::engine::general_purpose::STANDARD.encode(key)
}

/// `rand::random::<[u8; 16]>()`: sixteen bytes from the thread's random
/// generator. Nothing is claimed of them.
#[verifier::external_body]
fn random_bytes() -> [u8; 16] {
    rand::random::<[u8; 16]>()
}

/// A nonce for a handshake.
fn random_key() -> [u8; 16] {
    random_bytes()
}

/// A line of the head of a request.
#[derive(Debug)]
pub struct Header {
    pub name: String,
    pub value: String,
}

/// A line of the head of a request as mathematics.
pub struct HeaderView {
    pub name: Seq<char>,
    pub value: Seq<char>,
}

impl View for Header {
    type V = HeaderView;

    open spec fn view(&self) -> HeaderView {
        HeaderView { name: self.name@, value: self.value@ }
    }
}

/// The views of the headers, in their order.
pub open spec fn header_views(headers: Seq<Header>) -> Seq<HeaderView> {
    headers.map_values(|h: Header| h@)
}

fn header(name: &str, value: &str) -> (r: Header)
    ensures
        r@ == (HeaderView { name: name@, value: value@ }),
{
    Header { name: name.to_owned(), value: value.to_owned() }
}

/// Where the capability document of the relay at `host` is found.
pub fn capability_url(host: &str) -> (r: String)
    ensures
        r@ == "https://"@ + host@,
{
    joined("https://", host)
}

/// The headers of the request for the capability document.
pub open spec fn capability_head(host: Seq<char>) -> Seq<HeaderView> {
    seq![
        HeaderView { name: "Host"@, value: host },
        HeaderView { name: "Accept"@, value: "application/nostr+json"@ },
    ]
}

/// The headers of the request for the capability document.
pub fn capability_headers(host: &str) -> (r: Vec<Header>)
    ensures
        header_views(r@) == capability_head(host@),
{
    let mut out: Vec<Header> = Vec::new();
    out.push(header("Host", host));
    out.push(header("Accept", "application/nostr+json"));
    assert(header_views(out@) =~= capability_head(host@));
    out
}

/// The headers of the request that turns a connection to `host` into a
/// websocket, with the nonce `key`.
pub open spec fn upgrade_head(host: Seq<char>, key: Seq<u8>) -> Seq<HeaderView> {
    seq![
        HeaderView { name: "Host"@, value: host },
        HeaderView { name: "Connection"@, value: "Upgrade"@ },
        HeaderView { name: "Upgrade"@, value: "websocket"@ },
        HeaderView { name: "Sec-WebSocket-Version"@, value: "13"@ },
        HeaderView { name: "Sec-WebSocket-Key"@, value: base64_text(key) },
    ]
}

/// The headers of the request that turns a connection to `host` into a
/// websocket, with the nonce `key`.
pub fn upgrade_headers_with(host: &str, key: &[u8; 16]) -> (r: Vec<Header>)
    ensures
        header_views(r@) == upgrade_head(host@, key@),
{
    let encoded = base64_of(key);
    let mut out: Vec<Header> = Vec::new();
    out.push(header("Host", host));
    out.push(header("Connection", "Upgrade"));
    out.push(header("Upgrade", "websocket"));
    out.push(header("Sec-WebSocket-Version", "13"));
    out.push(header("Sec-WebSocket-Key", encoded.as_str()));
    assert(header_views(out@) =~= upgrade_head(host@, key@));
    out
}

/// The headers of the request that turns a connection to `host` into a
/// websocket, with a nonce made for the occasion.
pub fn upgrade_headers(host: &str) -> (r: Vec<Header>)
    ensures
        exists|key: Seq<u8>| header_views(r@) == #[trigger] upgrade_head(host@, key),
{
    let key = random_key();
    upgrade_headers_with(host, &key)
}

} // verus!
