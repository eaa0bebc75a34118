//! Requests: what is checked and read of them, and how their handler is run.

use crate::buf::contents;
use crate::client::CallOptions;
use crate::codec::lpm::{frames_of, LpmMessage};
use crate::headers::{header_get, header_text, headers, is_visible, values_of};
use crate::metadata::{
    are_read_from, is_binary_name, law_headers_are_read_by_name, value_from_wire, values_under,
    EntryView, MetadataMap, MetadataValueView,
};
use crate::rpc::{RecvItem, RecvMessage, RequestHeaders, RequestHeadersView, Trailers};
use crate::server::interceptor::http2_framing::{
    bytes_of, deframed, deframed_item, framed_sends, law_deframing_undoes_framing,
    GrpcFramingInterceptor,
};
use crate::server::transport::hyper::body::{data_of, FrameEvent, FrameSource};
use crate::server::transport::hyper::config::Http2Config;
use crate::server::transport::hyper::response::{
    content_type_headers, lemma_names, trailers_only_error, GrpcResponse, ResponseBody,
};
use crate::server::{Call, Handle, Input, RecvStream, SendStream, Sent};
use crate::status::{StatusCodeError, StatusError, StatusErrorView};
use crate::text::{joined_text, starts_with};
use http::header::HeaderValue;
use http::HeaderMap;
use vstd::prelude::*;
use vstd::utf8::{decode_utf8, encode_utf8};

verus! {

/// What a body gives as raw messages: the bytes of each DATA frame that is not empty. Trailers are
/// not valid in a request, and make the stream fail as an error of the body does.
pub open spec fn body_input(frames: Seq<FrameEvent>) -> Input
    decreases frames.len(),
{
    if frames.len() == 0 {
        Input { messages: Seq::empty(), fails: false }
    } else {
        match frames[0] {
            FrameEvent::Data(data) => {
                let rest = body_input(frames.skip(1));
                if contents(data).len() == 0 {
                    rest
                } else {
                    Input {
                        messages: seq![RecvItem { compressed: None, bytes: contents(data) }]
                            + rest.messages,
                        fails: rest.fails,
                    }
                }
            },
            _ => Input { messages: Seq::empty(), fails: true },
        }
    }
}

/// The lowest receiving stream: it gives the bytes of each DATA frame of a request's body. It does
/// not understand the frames of gRPC.
///
/// Empty DATA frames are valid and are skipped. Trailers are not valid in a request.
pub struct ByteSourceRecvStream<B> {
    body: B,
    over: Ghost<bool>,
}

impl<B: FrameSource> ByteSourceRecvStream<B> {
    /// The stream of a body.
    pub fn new(body: B) -> (r: Self)
        requires
            body.inv(),
        ensures
            r.inv(),
            !r.ended(),
            r.input() == body_input(body.frames()),
    {
        ByteSourceRecvStream { body, over: Ghost(false) }
    }
}

impl<B: FrameSource> RecvStream for ByteSourceRecvStream<B> {
    closed spec fn inv(&self) -> bool {
        self.body.inv()
    }

    closed spec fn input(&self) -> Input {
        body_input(self.body.frames())
    }

    closed spec fn ended(&self) -> bool {
        self.over@
    }

    fn next<M: RecvMessage>(&mut self, msg: &mut M) -> (r: Option<Result<(), ()>>) {
        let ghost input = self.input();
        loop
            invariant
                self.inv(),
                !self.ended(),
                self.input() == input,
                input == old(self).input(),
                *msg == *old(msg),
            decreases self.body.frames().len(),
        {
            let ghost frames = self.body.frames();
            match self.body.next_frame() {
                Some(FrameEvent::Data(data)) => {
                    let mut data = data;
                    if !data.is_empty() {
                        proof {
                            let rest = body_input(frames.skip(1));
                            assert(input.messages.skip(1) =~= rest.messages);
                        }
                        return match msg.decode(&mut data) {
                            Ok(()) => Some(Ok(())),
                            Err(_) => {
                                proof {
                                    self.over@ = true;
                                }
                                Some(Err(()))
                            },
                        };
                    }
                },
                Some(_) => {
                    proof {
                        self.over@ = true;
                    }
                    return Some(Err(()));
                },
                None => {
                    proof {
                        self.over@ = true;
                    }
                    return None;
                },
            }
        }
    }
}

/// What is wrong with the content type of a request, if anything: it must be visible ASCII and
/// begin with `application/grpc`.
pub open spec fn content_type_error(m: Map<Seq<char>, Seq<Seq<u8>>>) -> Option<StatusErrorView> {
    let values = values_of(m, "content-type"@);
    if values.len() == 0 || !is_visible(values[0]) {
        Some(
            StatusErrorView {
                code: StatusCodeError::Unimplemented,
                message: "missing content-type header"@,
            },
        )
    } else if encode_utf8("application/grpc"@).is_prefix_of(values[0]) {
        None
    } else {
        Some(
            StatusErrorView {
                code: StatusCodeError::Unimplemented,
                message: "unsupported content-type: "@ + decode_utf8(values[0]),
            },
        )
    }
}

/// Checks that the content type of a request is one of gRPC.
pub fn validate_content_type(map: &HeaderMap<HeaderValue>) -> (r: Result<(), StatusError>)
    ensures
        match content_type_error(headers(*map)) {
            None => r is Ok,
            Some(e) => r matches Err(err) && err@ == e,
        },
{
    proof {
        lemma_names();
    }
    let text: Option<&str> = match header_get(map, "content-type") {
        Some(value) => header_text(value),
        None => None,
    };
    match text {
        Some(ct) => {
            proof {
                vstd::utf8::encode_utf8_decode_utf8(ct@);
            }
            if starts_with(ct.as_bytes(), "application/grpc".as_bytes()) {
                Ok(())
            } else {
                Err(
                    StatusError::with_text(
                        StatusCodeError::Unimplemented,
                        joined_text("unsupported content-type: ", ct),
                    ),
                )
            }
        },
        None => Err(
            StatusError::new(StatusCodeError::Unimplemented, "missing content-type header"),
        ),
    }
}

/// Whether request headers are those of an HTTP request: the path is the method's name, and the
/// headers are the metadata, or nothing is where one of them can be no metadata.
pub open spec fn are_headers_of(
    r: RequestHeadersView,
    path: Seq<char>,
    m: Map<Seq<char>, Seq<Seq<u8>>>,
) -> bool {
    &&& r.method_name == path
    &&& {
        ||| forall|name: Seq<char>| #[trigger]
            are_read_from(name, values_under(r.metadata, name), values_of(m, name))
        ||| {
            &&& r.metadata == Seq::<EntryView>::empty()
            &&& exists|name: Seq<char>, i: int|
                0 <= i < values_of(m, name).len() && value_from_wire(
                    name,
                    #[trigger] values_of(m, name)[i],
                ) is None
        }
    }
}

/// The headers of a call, from the path and the headers of an HTTP request.
pub fn extract_request_headers(path: &str, map: &HeaderMap<HeaderValue>) -> (r: RequestHeaders)
    ensures
        are_headers_of(r@, path@, headers(*map)),
{
    let metadata = match MetadataMap::from_headers(map) {
        Some(m) => m,
        None => MetadataMap::new(),
    };
    RequestHeaders::new().with_method_name(path).with_metadata(metadata)
}

/// Checks a request and reads its headers. A request that is no gRPC request is answered at once.
pub fn open_request(path: &str, map: &HeaderMap<HeaderValue>) -> (r: Result<
    RequestHeaders,
    GrpcResponse,
>)
    ensures
        match content_type_error(headers(*map)) {
            None => r matches Ok(h) && are_headers_of(h@, path@, headers(*map)),
            Some(e) => r matches Err(resp) && resp.status == 200 && headers(resp.headers)
                == content_type_headers() && (resp.body matches ResponseBody::TrailersOnly(t)
                && t@ == crate::rpc::bare_trailers(Err(e))),
        },
{
    match validate_content_type(map) {
        Ok(()) => Ok(extract_request_headers(path, map)),
        Err(err) => Err(trailers_only_error(err)),
    }
}

/// Runs a handler on the raw streams of a request: the framing layer, with the limit on messages
/// that the configuration sets, stands in front of it.
pub fn run_handler<H: Handle, Tx: SendStream, Rx: RecvStream>(
    config: &Http2Config,
    handler: &H,
    headers: RequestHeaders,
    tx: Tx,
    rx: Rx,
) -> (r: (Trailers, Tx))
    requires
        handler.inv(),
        tx.inv(),
        rx.inv(),
        !rx.ended(),
    ensures
        r.1.inv(),
        r.1.origin() == tx.origin(),
        exists|output: Seq<Sent>|
            {
                &&& r.1.sent() == tx.sent() + #[trigger] framed_sends(output)
                &&& handler.handled(
                    Call {
                        headers: headers@,
                        options: CallOptions {  },
                        input: deframed(
                            rx.input(),
                            config.spec_deframe_config().max_message_size as nat,
                        ),
                        output,
                        trailers: r.0@,
                    },
                )
            },
{
    let options = CallOptions::default();
    let framing = GrpcFramingInterceptor::new(config.deframe_config());
    let framed = crate::server::interceptor::InterceptedRef {
        interceptor: &framing,
        inner: handler,
    };
    let r = framed.handle(headers, options, tx, rx);
    proof {
        let output = r.1.sent().skip(tx.sent().len() as int);
        assert(r.1.sent() =~= tx.sent() + output);
    }
    r
}

/// A body of nothing but data gives its data as raw messages, and does not fail.
proof fn lemma_body_input(frames: Seq<FrameEvent>)
    requires
        forall|i: int| 0 <= i < frames.len() ==> (#[trigger] frames[i]) is Data,
    ensures
        bytes_of(body_input(frames).messages) == data_of(frames),
        !body_input(frames).fails,
    decreases frames.len(),
{
    if frames.len() > 0 {
        let tail = frames.skip(1);
        assert(frames[0] is Data);
        assert forall|i: int| 0 <= i < tail.len() implies (#[trigger] tail[i]) is Data by {
            assert(tail[i] == frames[i + 1]);
        }
        lemma_body_input(tail);
        let data = frames[0]->Data_0;
        if contents(data).len() == 0 {
            assert(contents(data) + data_of(tail) =~= data_of(tail));
        } else {
            assert(body_input(frames).messages.skip(1) =~= body_input(tail).messages);
        }
    }
}

/// A handler sees what the client framed: where the data of a request, cut into DATA frames
/// anywhere, holds the frames of `messages`, none of them over the limit, the stream that
/// [`run_handler`] gives to the handler holds exactly these messages and then ends.
pub proof fn law_handler_sees_what_was_framed(
    frames: Seq<FrameEvent>,
    messages: Seq<LpmMessage>,
    max: nat,
)
    requires
        forall|i: int| 0 <= i < frames.len() ==> (#[trigger] frames[i]) is Data,
        data_of(frames) == frames_of(messages),
        forall|i: int|
            0 <= i < messages.len() ==> (#[trigger] messages[i]).payload.len() <= max
                && messages[i].payload.len() < 0x1_0000_0000,
    ensures
        deframed(body_input(frames), max) == (Input {
            messages: messages.map_values(|m: LpmMessage| deframed_item(m)),
            fails: false,
        }),
{
    lemma_body_input(frames);
    law_deframing_undoes_framing(body_input(frames), messages, max);
}


/// A request is one of gRPC exactly where the first of its content types is visible ASCII whose
/// first sixteen bytes are `application/grpc`; whatever follows them, the parameters and subtypes
/// among it, makes no difference. Any other request is answered with `UNIMPLEMENTED`.
pub proof fn law_content_types(m: Map<Seq<char>, Seq<Seq<u8>>>, rest: Seq<u8>)
    ensures
        content_type_error(m) is None <==> {
            let values = values_of(m, "content-type"@);
            &&& values.len() > 0
            &&& is_visible(values[0])
            &&& values[0].len() >= 16
            &&& values[0].take(16) == encode_utf8("application/grpc"@)
        },
        content_type_error(m) matches Some(e) ==> e.code == StatusCodeError::Unimplemented,
        (values_of(m, "content-type"@).len() > 0 && values_of(m, "content-type"@)[0]
            == encode_utf8("application/grpc"@) + rest && is_visible(rest)) ==> content_type_error(
            m,
        ) is None,
{
    let grpc = encode_utf8("application/grpc"@);
    reveal_strlit("application/grpc");
    crate::headers::lemma_visible_text("application/grpc"@);
    assert(vstd::utf8::is_ascii_chars("application/grpc"@));
    vstd::utf8::is_ascii_chars_encode_utf8("application/grpc"@);
    assert(grpc.len() == 16);
    let values = values_of(m, "content-type"@);
    if values.len() > 0 && values[0] == grpc + rest && is_visible(rest) {
        assert(values[0].take(16) =~= grpc);
        assert(is_visible(values[0])) by {
            assert forall|i: int| 0 <= i < values[0].len() implies crate::headers::is_visible_byte(
                #[trigger] values[0][i],
            ) by {
                if i < 16 {
                    assert(crate::headers::is_visible_byte(grpc[i]));
                } else {
                    assert(crate::headers::is_visible_byte(rest[i - 16]));
                }
            }
        }
    }
    if values.len() > 0 {
        if values[0].len() >= 16 {
            assert(values[0].take(16) =~= values[0].subrange(0, 16));
        }
        assert(grpc.is_prefix_of(values[0]) ==> values[0].take(16) == grpc);
        assert(values[0].len() >= 16 && values[0].take(16) == grpc ==> grpc.is_prefix_of(
            values[0],
        ));
    }
}

/// A request is read up to its first frame that is not data: the messages are the data before it,
/// none of them is empty or says whether it is compressed, and the stream fails there, whatever
/// kind of frame it is and whatever follows. Without such a frame the stream ends well.
pub proof fn law_body_is_read_up_to_other_frames(frames: Seq<FrameEvent>, k: int)
    requires
        0 <= k <= frames.len(),
        forall|i: int| 0 <= i < k ==> (#[trigger] frames[i]) is Data,
        k < frames.len() ==> !(frames[k] is Data),
    ensures
        bytes_of(body_input(frames).messages) == data_of(frames.take(k)),
        body_input(frames).fails == (k < frames.len()),
        forall|i: int|
            0 <= i < body_input(frames).messages.len() ==> (#[trigger] body_input(
                frames,
            ).messages[i]).bytes.len() > 0 && body_input(frames).messages[i].compressed is None,
    decreases frames.len(),
{
    if frames.len() > 0 && k > 0 {
        let tail = frames.skip(1);
        assert(frames[0] is Data);
        assert forall|i: int| 0 <= i < k - 1 implies (#[trigger] tail[i]) is Data by {
            assert(tail[i] == frames[i + 1]);
        }
        law_body_is_read_up_to_other_frames(tail, k - 1);
        assert(frames.take(k).skip(1) =~= tail.take(k - 1));
        let data = frames[0]->Data_0;
        let all = body_input(frames).messages;
        let rest = body_input(tail).messages;
        if contents(data).len() == 0 {
            assert(contents(data) + data_of(tail.take(k - 1)) =~= data_of(tail.take(k - 1)));
        } else {
            assert(all.skip(1) =~= rest);
            assert forall|i: int| 0 <= i < all.len() implies (#[trigger] all[i]).bytes.len() > 0
                && all[i].compressed is None by {
                if i > 0 {
                    assert(all[i] == rest[i - 1]);
                }
            }
        }
    } else {
        assert(data_of(frames.take(k)).len() == 0);
        assert(bytes_of(body_input(frames).messages) =~= data_of(frames.take(k)));
    }
}


/// A handler sees the headers of a request: the path as the name of the method, and each header
/// under its name, in its place, as a text or as bytes, as its name says. Only where one of them
/// can be no metadata is there none at all.
pub proof fn law_request_headers_are_read(
    r: RequestHeadersView,
    path: Seq<char>,
    m: Map<Seq<char>, Seq<Seq<u8>>>,
    name: Seq<char>,
    i: int,
)
    requires
        are_headers_of(r, path, m),
        0 <= i < values_of(m, name).len(),
    ensures
        r.method_name == path,
        value_from_wire(name, values_of(m, name)[i]) is None ==> r.metadata.len() == 0,
        (forall|n: Seq<char>, j: int|
            0 <= j < values_of(m, n).len() ==> value_from_wire(
                n,
                #[trigger] values_of(m, n)[j],
            ) is Some) ==> {
            let value = values_of(m, name)[i];
            let seen = values_under(r.metadata, name);
            &&& seen.len() == values_of(m, name).len()
            &&& is_binary_name(name) ==> seen[i] == MetadataValueView::Binary(
                crate::base64::decoded(value)->Some_0,
            )
            &&& !is_binary_name(name) ==> seen[i] is Ascii && encode_utf8(seen[i]->Ascii_0)
                == value
        },
{
    let value = values_of(m, name)[i];
    law_headers_are_read_by_name(name, value);
    if r.metadata.len() != 0 || (forall|n: Seq<char>, j: int|
        0 <= j < values_of(m, n).len() ==> value_from_wire(
            n,
            #[trigger] values_of(m, n)[j],
        ) is Some) {
        assert(are_read_from(name, values_under(r.metadata, name), values_of(m, name)));
        assert(value_from_wire(name, value) == Some(values_under(r.metadata, name)[i]));
    }
}


/// A request that is no gRPC request is told why: that its content type is missing, or that it is
/// not supported, with the content type as it came.
pub proof fn law_content_type_errors(m: Map<Seq<char>, Seq<Seq<u8>>>)
    ensures
        ({
            let values = values_of(m, "content-type"@);
            &&& values.len() == 0 || !is_visible(values[0]) ==> (content_type_error(
                m,
            ) matches Some(e) && e.message == "missing content-type header"@)
            &&& values.len() > 0 && is_visible(values[0]) ==> (content_type_error(m) matches Some(e)
                ==> e.message == "unsupported content-type: "@ + decode_utf8(values[0]))
        }),
{
}

} // verus!
