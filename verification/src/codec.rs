//! Metadata as bytes, and bytes as text.

use vstd::prelude::*;
use vstd::utf8::*;

use crate::error::{ErrorView, SlotBusError};
use crate::types::{RequestMeta, RequestMetaView, ResponseMeta, ResponseMetaView};

verus! {

/// The bytes that `postcard::to_allocvec` makes of request metadata.
pub uninterp spec fn request_meta_bytes(meta: RequestMetaView) -> Seq<u8>;

/// What `postcard::from_bytes` makes of `data` as request metadata on a machine
/// whose `usize` has `width` bits, or the text of the error with which it
/// refuses. The width counts because a length that does not fit is cut to it.
pub uninterp spec fn request_meta_decoded(data: Seq<u8>, width: u32) -> Result<
    RequestMetaView,
    Seq<char>,
>;

/// The bytes that `postcard::to_allocvec` makes of response metadata.
pub uninterp spec fn response_meta_bytes(meta: ResponseMetaView) -> Seq<u8>;

/// What `postcard::from_bytes` makes of `data` as response metadata on a
/// machine whose `usize` has `width` bits, or the text of the error with which
/// it refuses.
pub uninterp spec fn response_meta_decoded(data: Seq<u8>, width: u32) -> Result<
    ResponseMetaView,
    Seq<char>,
>;

/// The text that `String::from_utf8_lossy` makes of `data`.
pub uninterp spec fn lossy_text(data: Seq<u8>) -> Seq<char>;

/// The outcome of a decoding that gave `v`.
pub open spec fn decoded<V>(v: V) -> Result<V, Seq<char>> {
    Ok(v)
}

/// The request metadata that `data` stands for on this machine, or the text of
/// the error with which it is refused.
pub open spec fn request_meta_of(data: Seq<u8>) -> Result<RequestMetaView, Seq<char>> {
    request_meta_decoded(data, usize::BITS)
}

/// The response metadata that `data` stands for on this machine, or the text of
/// the error with which it is refused.
pub open spec fn response_meta_of(data: Seq<u8>) -> Result<ResponseMetaView, Seq<char>> {
    response_meta_decoded(data, usize::BITS)
}

/// `postcard::to_allocvec` on the five fields of the metadata, in order. It
/// writes to a growing vector and so never fails on texts, options and pairs of
/// texts, and `postcard::from_bytes` gets the same fields back.
#[verifier::external_body]
fn postcard_request_bytes(meta: &RequestMeta) -> (r: Result<Vec<u8>, postcard::Error>)
    ensures
        r is Ok,
        r->Ok_0@ == request_meta_bytes(meta@),
        request_meta_decoded(r->Ok_0@, usize::BITS) == decoded(meta@),
{
    postcard::to_allocvec(
        &(&meta.path, &meta.route_pattern, &meta.path_params, &meta.query, &meta.headers),
    )
}

/// `postcard::from_bytes` for the five fields of request metadata, in order. The
/// text of an error depends on nothing but the error.
#[verifier::external_body]
fn postcard_request_meta(data: &[u8]) -> (r: Result<RequestMeta, postcard::Error>)
    ensures
        match r {
            Ok(meta) => request_meta_decoded(data@, usize::BITS) == decoded(meta@),
            Err(e) => {
                &&& request_meta_decoded(data@, usize::BITS) matches Err(text)
                &&& forall|m: String| #[trigger]
                    vstd::string::to_string_from_display_ensures(&e, m) ==> m@ == text
            },
        },
{
    let (path, route_pattern, path_params, query, headers) = postcard::from_bytes::<
        (String, String, Vec<(String, String)>, Option<String>, Vec<(String, String)>),
    >(data)?;
    Ok(RequestMeta { path, route_pattern, path_params, query, headers })
}

/// `postcard::to_allocvec` on the two fields of the metadata, in order. It
/// writes to a growing vector and so never fails on texts and pairs of texts,
/// and `postcard::from_bytes` gets the same fields back.
#[verifier::external_body]
fn postcard_response_bytes(meta: &ResponseMeta) -> (r: Result<Vec<u8>, postcard::Error>)
    ensures
        r is Ok,
        r->Ok_0@ == response_meta_bytes(meta@),
        response_meta_decoded(r->Ok_0@, usize::BITS) == decoded(meta@),
{
    postcard::to_allocvec(&(&meta.content_type, &meta.headers))
}

/// `postcard::from_bytes` for the two fields of response metadata, in order. The
/// text of an error depends on nothing but the error.
#[verifier::external_body]
fn postcard_response_meta(data: &[u8]) -> (r: Result<ResponseMeta, postcard::Error>)
    ensures
        match r {
            Ok(meta) => response_meta_decoded(data@, usize::BITS) == decoded(meta@),
            Err(e) => {
                &&& response_meta_decoded(data@, usize::BITS) matches Err(text)
                &&& forall|m: String| #[trigger]
                    vstd::string::to_string_from_display_ensures(&e, m) ==> m@ == text
            },
        },
{
    let (content_type, headers) = postcard::from_bytes::<(String, Vec<(String, String)>)>(data)?;
    Ok(ResponseMeta { content_type, headers })
}

/// `String::from_utf8_lossy`: bytes that are valid UTF-8 decode to the text
/// that they encode.
#[verifier::external_body]
fn from_utf8_lossy(data: &[u8]) -> (r: String)
    ensures
        r@ == lossy_text(data@),
        valid_utf8(data@) ==> r@ == decode_utf8(data@),
{
    String::from_utf8_lossy(data).into_owned()
}

/// Request metadata as the bytes that go into the heap. They decode to the
/// metadata again.
pub fn encode_request_meta(meta: &RequestMeta) -> (r: Result<Vec<u8>, SlotBusError>)
    ensures
        r is Ok,
        r->Ok_0@ == request_meta_bytes(meta@),
        request_meta_of(r->Ok_0@) == decoded(meta@),
{
    match postcard_request_bytes(meta) {
        Ok(data) => Ok(data),
        Err(e) => Err(SlotBusError::from(e)),
    }
}

/// The request metadata that bytes from the heap stand for.
pub fn decode_request_meta(data: &[u8]) -> (r: Result<RequestMeta, SlotBusError>)
    ensures
        match r {
            Ok(meta) => request_meta_of(data@) == decoded(meta@),
            Err(e) => request_meta_of(data@) matches Err(text) && e@
                == ErrorView::Serialization(text),
        },
{
    match postcard_request_meta(data) {
        Ok(meta) => Ok(meta),
        Err(e) => Err(SlotBusError::from(e)),
    }
}

/// Response metadata as the bytes that go into the heap. They decode to the
/// metadata again.
pub fn encode_response_meta(meta: &ResponseMeta) -> (r: Result<Vec<u8>, SlotBusError>)
    ensures
        r is Ok,
        r->Ok_0@ == response_meta_bytes(meta@),
        response_meta_of(r->Ok_0@) == decoded(meta@),
{
    match postcard_response_bytes(meta) {
        Ok(data) => Ok(data),
        Err(e) => Err(SlotBusError::from(e)),
    }
}

/// The response metadata that bytes from the heap stand for.
pub fn decode_response_meta(data: &[u8]) -> (r: Result<ResponseMeta, SlotBusError>)
    ensures
        match r {
            Ok(meta) => response_meta_of(data@) == decoded(meta@),
            Err(e) => response_meta_of(data@) matches Err(text) && e@
                == ErrorView::Serialization(text),
        },
{
    match postcard_response_meta(data) {
        Ok(meta) => Ok(meta),
        Err(e) => Err(SlotBusError::from(e)),
    }
}

/// The bytes of a request id: up to the first zero byte, or all of them.
pub open spec fn id_part(raw: Seq<u8>) -> Seq<u8>
    decreases raw.len(),
{
    if raw.len() == 0 || raw[0] == 0 {
        Seq::empty()
    } else {
        seq![raw[0]] + id_part(raw.drop_first())
    }
}

/// The id that a slot's id bytes stand for.
pub open spec fn id_text(raw: Seq<u8>) -> Seq<char> {
    if valid_utf8(id_part(raw)) {
        decode_utf8(id_part(raw))
    } else {
        lossy_text(id_part(raw))
    }
}

proof fn lemma_id_part(raw: Seq<u8>, end: int)
    requires
        0 <= end <= raw.len(),
        forall|k: int| 0 <= k < end ==> raw[k] != 0,
        end == raw.len() || raw[end] == 0,
    ensures
        id_part(raw) == raw.take(end),
    decreases raw.len(),
{
    if end == 0 {
        assert(raw.take(0) =~= Seq::empty());
    } else {
        lemma_id_part(raw.drop_first(), end - 1);
        assert(raw.take(end) =~= seq![raw[0]] + raw.drop_first().take(end - 1));
    }
}

/// An id of at most 36 bytes without a zero byte is read back from the 36 bytes
/// that hold it, padded with zeros.
pub proof fn padded_id_reads_back(id: Seq<char>, raw: Seq<u8>)
    requires
        raw.len() == 36,
        encode_utf8(id).len() <= 36,
        forall|k: int| 0 <= k < encode_utf8(id).len() ==> encode_utf8(id)[k] != 0,
        forall|k: int|
            0 <= k < 36 ==> raw[k] == (if k < encode_utf8(id).len() {
                encode_utf8(id)[k]
            } else {
                0
            }),
    ensures
        id_text(raw) == id,
{
    let end = encode_utf8(id).len() as int;
    lemma_id_part(raw, end);
    assert(raw.take(end) =~= encode_utf8(id));
    encode_utf8_valid_utf8(id);
    encode_utf8_decode_utf8(id);
}

/// The request id that a slot's id bytes stand for.
pub fn decode_id(raw: &[u8]) -> (r: String)
    ensures
        r@ == id_text(raw@),
{
    let mut end: usize = 0;
    while end < raw.len() && raw[end] != 0
        invariant
            end <= raw@.len(),
            forall|k: int| 0 <= k < end ==> raw@[k] != 0,
        decreases raw@.len() - end,
    {
        end = end + 1;
    }
    proof {
        lemma_id_part(raw@, end as int);
    }
    from_utf8_lossy(&raw[0..end])
}

/// An id ends at the first zero byte, or with the last byte where there is none.
pub proof fn ids_end_at_the_first_zero(raw: Seq<u8>, end: int)
    requires
        0 <= end <= raw.len(),
        forall|k: int| 0 <= k < end ==> raw[k] != 0,
        end == raw.len() || raw[end] == 0,
    ensures
        valid_utf8(raw.take(end)) ==> id_text(raw) == decode_utf8(raw.take(end)),
        !valid_utf8(raw.take(end)) ==> id_text(raw) == lossy_text(raw.take(end)),
{
    lemma_id_part(raw, end);
}

} // verus!
