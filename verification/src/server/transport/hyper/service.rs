//! The service that answers HTTP requests by a handler.

use super::response::{lemma_names, set_header};
use crate::headers::{
    header_clone, header_value, headers, is_value, no_headers, values_of, HEADER_ROOM,
};
use crate::server::call::metadata::Metadata;
use crate::status::{Status, StatusCode, StatusView};
use http::header::HeaderValue;
use http::HeaderMap;
use std::sync::Arc;
use vstd::prelude::*;
use vstd::utf8::encode_utf8;

verus! {

/// A service that answers each request by a handler.
pub struct HyperGrpcService<H> {
    handler: Arc<H>,
}

/// The metadata of a request: its headers and, where the path may stand in a header, the path.
pub open spec fn metadata_of_request(
    m: Map<Seq<char>, Seq<Seq<u8>>>,
    path: Seq<char>,
) -> Map<Seq<char>, Seq<Seq<u8>>> {
    if is_value(encode_utf8(path)) {
        m.insert("path"@, seq![encode_utf8(path)])
    } else {
        m
    }
}

/// What a result says as a status.
pub open spec fn status_of_result(result: Result<(), Status>) -> StatusView {
    match result {
        Ok(_) => StatusView { code: StatusCode::OK, message: Seq::empty() },
        Err(e) => e@,
    }
}

impl<H> HyperGrpcService<H> {
    /// The handler.
    pub closed spec fn spec_handler(&self) -> H {
        *self.handler
    }

    /// A service with the given handler.
    pub fn new(handler: Arc<H>) -> (r: Self)
        ensures
            r.spec_handler() == *handler,
    {
        HyperGrpcService { handler }
    }

    /// The handler, to be shared with a call.
    pub fn handler(&self) -> (r: Arc<H>)
        ensures
            *r == self.spec_handler(),
    {
        self.handler.clone()
    }

    /// The metadata of a request.
    pub fn request_metadata(&self, map: &HeaderMap<HeaderValue>, path: &str) -> (r: Metadata)
        requires
            headers(*map).dom().len() < HEADER_ROOM,
        ensures
            headers(r.inner) == metadata_of_request(headers(*map), path@),
    {
        let mut metadata = Metadata::new(header_clone(map));
        proof {
            lemma_names();
        }
        if let Some(value) = header_value(path.as_bytes()) {
            set_header(&mut metadata.inner, "path", value);
        }
        metadata
    }

    /// The status with which a call ends.
    pub fn final_status(&self, result: Result<(), Status>) -> (r: Status)
        ensures
            r@ == status_of_result(result),
    {
        match result {
            Ok(()) => {
                let r = Status::new(StatusCode::OK, "");
                proof {
                    reveal_strlit("");
                    assert(""@ =~= Seq::<char>::empty());
                }
                r
            },
            Err(e) => e,
        }
    }

    /// The headers of a response: the handler's metadata, or none if it sent none, with the
    /// content type of gRPC.
    pub fn response_headers(&self, sent: Option<Metadata>) -> (r: HeaderMap<HeaderValue>)
        requires
            sent matches Some(m) ==> headers(m.inner).dom().len() < HEADER_ROOM,
        ensures
            headers(r) == (match sent {
                Some(m) => headers(m.inner),
                None => no_headers(),
            }).insert("content-type"@, seq![encode_utf8("application/grpc"@)]),
    {
        let metadata = match sent {
            Some(m) => m,
            None => Metadata::default(),
        };
        let mut map = metadata.inner;
        proof {
            lemma_names();
            reveal_strlit("application/grpc");
            crate::headers::lemma_visible_text("application/grpc"@);
        }
        if let Some(v) = header_value("application/grpc".as_bytes()) {
            set_header(&mut map, "content-type", v);
        }
        map
    }
}


/// The metadata of a request is all of its headers: every name has the values that it came with,
/// in their order, but for `path`, which is the request's path wherever that may stand in a header.
pub proof fn law_request_headers_are_metadata(
    m: Map<Seq<char>, Seq<Seq<u8>>>,
    path: Seq<char>,
    name: Seq<char>,
)
    ensures
        name != "path"@ ==> values_of(metadata_of_request(m, path), name) == values_of(m, name),
        is_value(encode_utf8(path)) ==> values_of(metadata_of_request(m, path), "path"@) == seq![
            encode_utf8(path),
        ],
        !is_value(encode_utf8(path)) ==> values_of(metadata_of_request(m, path), "path"@)
            == values_of(m, "path"@),
{
}

/// A call ends with `OK` and no message where its handler succeeded, and with the handler's own
/// status where it failed.
pub proof fn law_results_are_told(result: Result<(), Status>)
    ensures
        result is Ok ==> status_of_result(result).code == StatusCode::OK && status_of_result(
            result,
        ).message.len() == 0,
        result matches Err(e) ==> status_of_result(result).code == e@.code && status_of_result(
            result,
        ).message == e@.message,
{
}

} // verus!
