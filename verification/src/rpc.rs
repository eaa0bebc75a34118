//! The parts of a call: its headers, messages and trailers.

use crate::buf::Buf;
use crate::metadata::{EntryView, MetadataMap};
use crate::status::{StatusError, StatusErrorView};
use vstd::prelude::*;

verus! {

/// The headers with which a client opens a call.
#[derive(Debug)]
pub struct RequestHeaders {
    method_name: String,
    metadata: MetadataMap,
}

/// What [`RequestHeaders`] say.
pub struct RequestHeadersView {
    /// The method's full path.
    pub method_name: Seq<char>,
    /// The metadata.
    pub metadata: Seq<EntryView>,
}

impl View for RequestHeaders {
    type V = RequestHeadersView;

    closed spec fn view(&self) -> RequestHeadersView {
        RequestHeadersView { method_name: self.method_name@, metadata: self.metadata@ }
    }
}

impl RequestHeaders {
    /// Headers without a method name and without metadata.
    pub fn new() -> (r: Self)
        ensures
            r@.method_name == Seq::<char>::empty(),
            r@.metadata == Seq::<EntryView>::empty(),
    {
        let r = RequestHeaders { method_name: String::new(), metadata: MetadataMap::new() };
        assert(r@.method_name =~= Seq::<char>::empty());
        r
    }

    /// The same headers with another method name.
    pub fn with_method_name(self, method_name: &str) -> (r: Self)
        ensures
            r@ == (RequestHeadersView { method_name: method_name@, ..self@ }),
    {
        RequestHeaders { method_name: String::from_str(method_name), metadata: self.metadata }
    }

    /// The same headers with other metadata.
    pub fn with_metadata(self, metadata: MetadataMap) -> (r: Self)
        ensures
            r@ == (RequestHeadersView { metadata: metadata@, ..self@ }),
    {
        RequestHeaders { method_name: self.method_name, metadata }
    }

    /// The method's full path.
    pub fn method_name(&self) -> (r: &str)
        ensures
            r@ == self@.method_name,
    {
        self.method_name.as_str()
    }

    /// The metadata.
    pub fn metadata(&self) -> (r: &MetadataMap)
        ensures
            r@ == self@.metadata,
    {
        &self.metadata
    }
}

/// The headers with which a server begins its response.
#[derive(Debug)]
pub struct ResponseHeaders {
    metadata: MetadataMap,
}

impl View for ResponseHeaders {
    type V = Seq<EntryView>;

    closed spec fn view(&self) -> Seq<EntryView> {
        self.metadata@
    }
}

impl ResponseHeaders {
    /// Headers without metadata.
    pub fn new() -> (r: Self)
        ensures
            r@ == Seq::<EntryView>::empty(),
    {
        ResponseHeaders { metadata: MetadataMap::new() }
    }

    /// Headers with the given metadata.
    pub fn with_metadata(self, metadata: MetadataMap) -> (r: Self)
        ensures
            r@ == metadata@,
    {
        ResponseHeaders { metadata }
    }

    /// The metadata.
    pub fn metadata(&self) -> (r: &MetadataMap)
        ensures
            r@ == self@,
    {
        &self.metadata
    }

    /// The metadata, to be changed.
    pub fn metadata_mut(&mut self) -> (r: &mut MetadataMap)
        ensures
            r@ == old(self)@,
            final(self)@ == final(r)@,
    {
        &mut self.metadata
    }
}

/// The end of a call: its status, and metadata.
#[derive(Debug)]
pub struct Trailers {
    status: Result<(), StatusError>,
    metadata: MetadataMap,
}

/// What [`Trailers`] say.
pub struct TrailersView {
    /// The status.
    pub status: Result<(), StatusErrorView>,
    /// The metadata.
    pub metadata: Seq<EntryView>,
}

/// What a status says.
pub open spec fn status_view(status: Result<(), StatusError>) -> Result<(), StatusErrorView> {
    match status {
        Ok(_) => Ok(()),
        Err(e) => Err(e@),
    }
}

impl View for Trailers {
    type V = TrailersView;

    closed spec fn view(&self) -> TrailersView {
        TrailersView { status: status_view(self.status), metadata: self.metadata@ }
    }
}

/// Trailers with a status and without metadata.
pub open spec fn bare_trailers(status: Result<(), StatusErrorView>) -> TrailersView {
    TrailersView { status, metadata: Seq::empty() }
}

/// Trailers with an error and without metadata.
pub open spec fn error_trailers(
    code: crate::status::StatusCodeError,
    message: Seq<char>,
) -> TrailersView {
    bare_trailers(Err(StatusErrorView { code, message }))
}

impl Trailers {
    /// Trailers with a status and without metadata.
    pub fn new(status: Result<(), StatusError>) -> (r: Self)
        ensures
            r@ == bare_trailers(status_view(status)),
    {
        Trailers { status, metadata: MetadataMap::new() }
    }

    /// The same trailers with other metadata.
    pub fn with_metadata(self, metadata: MetadataMap) -> (r: Self)
        ensures
            r@ == (TrailersView { metadata: metadata@, ..self@ }),
    {
        Trailers { status: self.status, metadata }
    }

    /// The status.
    pub fn status(&self) -> (r: &Result<(), StatusError>)
        ensures
            status_view(*r) == self@.status,
    {
        &self.status
    }

    /// The status, taken out of the trailers.
    pub fn into_status(self) -> (r: Result<(), StatusError>)
        ensures
            status_view(r) == self@.status,
    {
        self.status
    }

    /// The metadata.
    pub fn metadata(&self) -> (r: &MetadataMap)
        ensures
            r@ == self@.metadata,
    {
        &self.metadata
    }

    /// The metadata, to be changed.
    pub fn metadata_mut(&mut self) -> (r: &mut MetadataMap)
        ensures
            r@ == old(self)@.metadata,
            final(self)@ == (TrailersView { metadata: final(r)@, ..old(self)@ }),
    {
        &mut self.metadata
    }
}

/// A message that can be sent.
pub trait SendMessage {
    /// The buffer with the message's bytes.
    type Encoded: Buf;

    /// Whether the message is in a usable state.
    open spec fn inv(&self) -> bool {
        true
    }

    /// The bytes of the message, or why it has none.
    open spec fn encoding(&self) -> Result<Seq<u8>, Seq<char>> {
        arbitrary()
    }

    /// Encodes the message. Encoding it again gives the same bytes.
    fn encode(&self) -> (r: Result<Self::Encoded, String>)
        requires
            self.inv(),
        ensures
            r is Ok <==> self.encoding() is Ok,
            r matches Ok(b) ==> b.inv() && b.bytes() == self.encoding()->Ok_0,
            r matches Err(e) ==> e@ == self.encoding()->Err_0,
    ;
}

/// A message as it comes out of a stream: its bytes and, where the stream knows it, whether they
/// are compressed.
pub struct RecvItem {
    /// Whether the bytes are compressed.
    pub compressed: Option<bool>,
    /// The bytes.
    pub bytes: Seq<u8>,
}

/// A message that can be received into.
pub trait RecvMessage: Sized {
    /// The message once it has been told whether the bytes that come next are compressed.
    open spec fn flagged(self, compressed: bool) -> Self {
        arbitrary()
    }

    /// Whether reading `bytes` into `pre` may leave `post`, with or without success.
    open spec fn decoded(pre: Self, bytes: Seq<u8>, post: Self, ok: bool) -> bool {
        true
    }

    /// Tells the message whether the bytes that come next are compressed.
    fn set_compressed(&mut self, compressed: bool)
        ensures
            *final(self) == old(self).flagged(compressed),
    ;

    /// Reads the message from a buffer.
    fn decode<B: Buf>(&mut self, data: &mut B) -> (r: Result<(), String>)
        requires
            old(data).inv(),
        ensures
            Self::decoded(*old(self), old(data).bytes(), *final(self), r is Ok),
    ;
}

/// Whether receiving `item` into `pre` may leave `post`, with or without success.
pub open spec fn received<M: RecvMessage>(pre: M, item: RecvItem, post: M, ok: bool) -> bool {
    match item.compressed {
        Some(c) => M::decoded(pre.flagged(c), item.bytes, post, ok),
        None => M::decoded(pre, item.bytes, post, ok),
    }
}

/// An item of a response: the headers or a message.
pub enum ServerResponseStreamItem<'a, M> {
    /// The headers.
    Headers(ResponseHeaders),
    /// A message.
    Message(&'a M),
}

/// Whether an item of a response is in a usable state.
pub open spec fn item_inv<M: SendMessage>(item: ServerResponseStreamItem<'_, M>) -> bool {
    match item {
        ServerResponseStreamItem::Headers(_) => true,
        ServerResponseStreamItem::Message(m) => m.inv(),
    }
}

/// What a [`ServerResponseStreamItem`] is.
pub enum ItemView {
    /// The headers.
    Headers(Seq<EntryView>),
    /// A message: its bytes, or why it has none.
    Message(Result<Seq<u8>, Seq<char>>),
}

/// What an item of a response is.
pub open spec fn item_view<M: SendMessage>(item: ServerResponseStreamItem<'_, M>) -> ItemView {
    match item {
        ServerResponseStreamItem::Headers(h) => ItemView::Headers(h@),
        ServerResponseStreamItem::Message(m) => ItemView::Message(m.encoding()),
    }
}


/// Trailers that say no more than a status say exactly this: the status, and no metadata.
pub proof fn law_bare_trailers(
    status: Result<(), StatusErrorView>,
    code: crate::status::StatusCodeError,
    message: Seq<char>,
)
    ensures
        bare_trailers(status).status == status,
        bare_trailers(status).metadata.len() == 0,
        error_trailers(code, message).status is Err,
        error_trailers(code, message).status->Err_0.code == code,
        error_trailers(code, message).status->Err_0.message == message,
        error_trailers(code, message).metadata.len() == 0,
{
}

/// A message is received with what the stream knows of it: whether it is compressed is told to it
/// before its bytes, and it is read from exactly these bytes.
pub proof fn law_message_is_told_its_flag<M: RecvMessage>(
    pre: M,
    item: RecvItem,
    post: M,
    ok: bool,
)
    requires
        received(pre, item, post, ok),
    ensures
        item.compressed matches Some(c) ==> M::decoded(pre.flagged(c), item.bytes, post, ok),
        item.compressed is None ==> M::decoded(pre, item.bytes, post, ok),
{
}

} // verus!
