//! The request handler: translates an HTTP request — method, path, body —
//! into store operations and maps the outcome to a status code and body.
//!
//! Routes: `GET /data/{key}` looks a value up, `PUT /data/{key}` stores the
//! request body under the key.  The key is a single non-empty path segment,
//! percent-decoded; a `PUT` body must be well-formed UTF-8.  Absence of a key
//! and a malformed body are expected conditions answered with 404 and 400;
//! they never escape as failures.

use vstd::prelude::*;
use crate::encoding::is_utf8;
use crate::encoding::check_utf8;
use crate::encoding::pct_decode;
use crate::encoding::percent_decode;
use crate::encoding::lemma_pct_decode_nonempty;
use crate::store::DataManager;
use crate::store::copy_bytes;

verus! {

/// The request methods the handler distinguishes.  Anything besides `GET`
/// and `PUT` falls under `Other` and is refused.
#[derive(Clone, Copy, PartialEq, Eq, Structural, Debug)]
pub enum Method {
    Get,
    Put,
    Other,
}

/// The error kinds a request can end in.
///
/// `NotFound` and `InvalidEncoding` are expected client-visible conditions;
/// `InternalError` stands for an unexpected failure around the store, such
/// as a poisoned lock, which the transport layer reports with 500 instead of
/// terminating the serving process.
#[derive(Clone, Copy, PartialEq, Eq, Structural, Debug)]
pub enum HandlerError {
    NotFound,
    InvalidEncoding,
    InternalError,
}

/// An HTTP response: the status code and the body bytes.
pub struct Response {
    pub status: u16,
    pub body: Vec<u8>,
}

/// The status code that reports each error kind.
pub open spec fn spec_status_of(e: HandlerError) -> u16 {
    match e {
        HandlerError::NotFound => 404,
        HandlerError::InvalidEncoding => 400,
        HandlerError::InternalError => 500,
    }
}

/// The diagnostic body that reports each error kind.
pub open spec fn spec_message_of(e: HandlerError) -> Seq<u8> {
    match e {
        HandlerError::NotFound => seq![0x6E, 0x6F, 0x74, 0x20, 0x66, 0x6F, 0x75, 0x6E, 0x64],
        HandlerError::InvalidEncoding => seq![
            0x62,
            0x61,
            0x64,
            0x20,
            0x65,
            0x6E,
            0x63,
            0x6F,
            0x64,
            0x69,
            0x6E,
            0x67,
        ],
        HandlerError::InternalError => seq![
            0x69,
            0x6E,
            0x74,
            0x65,
            0x72,
            0x6E,
            0x61,
            0x6C,
            0x20,
            0x65,
            0x72,
            0x72,
            0x6F,
            0x72,
        ],
    }
}

/// The status code for an error kind.
pub fn status_of(e: HandlerError) -> (s: u16)
    ensures
        s == spec_status_of(e),
{
    match e {
        HandlerError::NotFound => 404,
        HandlerError::InvalidEncoding => 400,
        HandlerError::InternalError => 500,
    }
}

/// The diagnostic body for an error kind.
pub fn message_of(e: HandlerError) -> (m: Vec<u8>)
    ensures
        m@ == spec_message_of(e),
{
    let mut m: Vec<u8> = Vec::new();
    match e {
        HandlerError::NotFound => {
            m.push(0x6E);
            m.push(0x6F);
            m.push(0x74);
            m.push(0x20);
            m.push(0x66);
            m.push(0x6F);
            m.push(0x75);
            m.push(0x6E);
            m.push(0x64);
        },
        HandlerError::InvalidEncoding => {
            m.push(0x62);
            m.push(0x61);
            m.push(0x64);
            m.push(0x20);
            m.push(0x65);
            m.push(0x6E);
            m.push(0x63);
            m.push(0x6F);
            m.push(0x64);
            m.push(0x69);
            m.push(0x6E);
            m.push(0x67);
        },
        HandlerError::InternalError => {
            m.push(0x69);
            m.push(0x6E);
            m.push(0x74);
            m.push(0x65);
            m.push(0x72);
            m.push(0x6E);
            m.push(0x61);
            m.push(0x6C);
            m.push(0x20);
            m.push(0x65);
            m.push(0x72);
            m.push(0x72);
            m.push(0x6F);
            m.push(0x72);
        },
    }
    proof {
        assert(m@ =~= spec_message_of(e));
    }
    m
}

/// The response that reports an error kind: its status code and a non-empty
/// diagnostic body.
pub fn error_response(e: HandlerError) -> (r: Response)
    ensures
        r.status == spec_status_of(e),
        r.body@ == spec_message_of(e),
        r.body@.len() > 0,
{
    Response { status: status_of(e), body: message_of(e) }
}

/// The path prefix of the data route, `/data/`.
pub open spec fn data_prefix() -> Seq<u8> {
    seq![0x2F, 0x64, 0x61, 0x74, 0x61, 0x2F]
}

/// The raw key segment is well-formed: non-empty and free of `/`, so the
/// path holds exactly one segment after the route prefix.
pub open spec fn seg_ok(seg: Seq<u8>) -> bool {
    seg.len() > 0 && (forall|i: int| 0 <= i < seg.len() ==> seg[i] != 0x2F)
}

/// The decoded key a request path denotes: the path must read `/data/{seg}`
/// with `{seg}` one non-empty segment, and the key is its percent-decoding.
/// `None` when the path names no such route or an escape is malformed.
pub open spec fn spec_parse_key(p: Seq<u8>) -> Option<Seq<u8>> {
    if p.len() > 6 && p.subrange(0, 6) == data_prefix() && seg_ok(p.skip(6)) {
        pct_decode(p.skip(6))
    } else {
        None
    }
}

/// Extracts and decodes the key segment of a request path.  The key of a
/// well-formed path is never empty.
pub fn parse_key(path: &Vec<u8>) -> (r: Option<Vec<u8>>)
    ensures
        match r {
            Some(k) => spec_parse_key(path@) == Some(k@) && k@.len() > 0,
            None => spec_parse_key(path@) is None,
        },
{
    let n = path.len();
    if n <= 6 {
        return None;
    }
    if !(path[0] == 0x2F && path[1] == 0x64 && path[2] == 0x61 && path[3] == 0x74 && path[4]
        == 0x61 && path[5] == 0x2F) {
        proof {
            assert(path@.subrange(0, 6) != data_prefix());
        }
        return None;
    }
    proof {
        assert(path@.subrange(0, 6) =~= data_prefix());
    }
    let mut seg: Vec<u8> = Vec::new();
    let mut i: usize = 6;
    while i < n
        invariant
            n == path@.len(),
            6 <= i <= n,
            seg@ == path@.subrange(6, i as int),
            forall|j: int| 0 <= j < seg@.len() ==> seg@[j] != 0x2F,
        decreases n - i,
    {
        let b = path[i];
        if b == 0x2F {
            proof {
                assert(path@.skip(6)[i - 6] == 0x2F);
                assert(!seg_ok(path@.skip(6)));
            }
            return None;
        }
        seg.push(b);
        i = i + 1;
        proof {
            assert(seg@ =~= path@.subrange(6, i as int));
        }
    }
    proof {
        assert(seg@ =~= path@.skip(6));
        assert(seg_ok(path@.skip(6)));
    }
    match percent_decode(&seg) {
        Some(k) => {
            proof {
                lemma_pct_decode_nonempty(seg@);
            }
            Some(k)
        },
        None => None,
    }
}

/// Answers `GET /data/{key}` for a decoded key: the stored value with 200,
/// or 404 when no entry carries the key.  Reads never change the store.
pub fn handle_get(store: &DataManager, key: &Vec<u8>) -> (r: Response)
    ensures
        store@.contains_key(key@) ==> r.status == 200 && r.body@ == store@[key@],
        !store@.contains_key(key@) ==> r.status == 404 && r.body@ == spec_message_of(
            HandlerError::NotFound,
        ),
{
    match store.get(key) {
        Some(v) => Response { status: 200, body: v },
        None => error_response(HandlerError::NotFound),
    }
}

/// Answers `PUT /data/{key}` for a decoded key: stores a well-formed UTF-8
/// body under the key and echoes it with 200; refuses any other body with
/// 400 and leaves the store unchanged.
pub fn handle_put(store: &mut DataManager, key: Vec<u8>, body: Vec<u8>) -> (r: Response)
    requires
        key@.len() > 0,
    ensures
        is_utf8(body@) ==> r.status == 200 && r.body@ == body@ && final(store)@ == old(
            store,
        )@.insert(key@, body@),
        !is_utf8(body@) ==> r.status == 400 && r.body@ == spec_message_of(
            HandlerError::InvalidEncoding,
        ) && final(store)@ == old(store)@,
{
    if !check_utf8(&body) {
        return error_response(HandlerError::InvalidEncoding);
    }
    let echo = copy_bytes(&body);
    store.set(key, body);
    Response { status: 200, body: echo }
}

/// Handles one request against the store.
///
/// A path outside the data route answers 404, a method besides `GET` and
/// `PUT` answers 405, and both leave the store unchanged; otherwise the
/// request goes to `handle_get` or `handle_put`.  Every outcome is an
/// ordinary response, so one request can never take the server down.
pub fn handle_request(store: &mut DataManager, method: Method, path: &Vec<u8>, body: Vec<u8>) -> (
    r: Response)
    ensures
        match spec_parse_key(path@) {
            None => final(store)@ == old(store)@ && r.status == 404
                && r.body@ == spec_message_of(HandlerError::NotFound),
            Some(k) => match method {
                Method::Get => final(store)@ == old(store)@
                    && (old(store)@.contains_key(k)
                        ==> r.status == 200 && r.body@ == old(store)@[k])
                    && (!old(store)@.contains_key(k)
                        ==> r.status == 404 && r.body@ == spec_message_of(HandlerError::NotFound)),
                Method::Put => (is_utf8(body@)
                    ==> r.status == 200 && r.body@ == body@
                        && final(store)@ == old(store)@.insert(k, body@))
                    && (!is_utf8(body@)
                        ==> r.status == 400
                            && r.body@ == spec_message_of(HandlerError::InvalidEncoding)
                            && final(store)@ == old(store)@),
                Method::Other => final(store)@ == old(store)@ && r.status == 405
                    && r.body@.len() > 0,
            },
        },
{
    match parse_key(path) {
        None => error_response(HandlerError::NotFound),
        Some(key) => match method {
            Method::Get => handle_get(store, &key),
            Method::Put => handle_put(store, key, body),
            Method::Other => method_not_allowed(),
        },
    }
}

/// The response that refuses a method besides `GET` and `PUT`.
fn method_not_allowed() -> (r: Response)
    ensures
        r.status == 405,
        r.body@.len() > 0,
{
    let mut m: Vec<u8> = Vec::new();
    m.push(0x6D);
    m.push(0x65);
    m.push(0x74);
    m.push(0x68);
    m.push(0x6F);
    m.push(0x64);
    m.push(0x20);
    m.push(0x6E);
    m.push(0x6F);
    m.push(0x74);
    m.push(0x20);
    m.push(0x61);
    m.push(0x6C);
    m.push(0x6C);
    m.push(0x6F);
    m.push(0x77);
    m.push(0x65);
    m.push(0x64);
    Response { status: 405, body: m }
}

} // verus!
