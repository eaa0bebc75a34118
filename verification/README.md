# grpc

The server side of gRPC in Rust, verified with Verus.

`src/` is the library. Everything in it is proved against its contract, except for the items that
are named below:

- `codec`, `server::interceptor::http2_framing`: messages and the length-prefixed frames in which
  they travel.
- `server`: handlers, interceptors, services, the router and the rules by which connections are
  accepted and drained.
- `server::transport::hyper`: what an HTTP/2 transport reads of requests, makes of responses, and
  decides about a connection. Bodies and responses reach it and leave it through the traits
  `FrameSource`, `ResponseSink`, `ResponseSource` and `EncoderSource`.
- `server::call`, `server::stream`, `server::method_handler`, `server::codegen_api`: typed methods
  over streams that are pushed.
- `protobuf`: protobuf messages in calls, and statuses with payloads as trailers.
- `interop`: the interoperability test service.
- `metadata`, `headers`, `status`, `rpc`, `client`: what calls are made of.

Handlers, interceptors and streams are described by relations: a trait such as `Handle` has a spec
function that says which calls an implementation may make of what a client sends. An implementation
that says nothing promises nothing.

What the library has from other crates, and from the parts of the standard library that Verus does
not know, is believed and not proved. These are all such items; the comment above each says what it
claims:

- `buf`: the type `Bytes` and the name `contents`; `Bytes::new`, `len`, `is_empty`, `split_to`,
  `clone` and `deref`; `bytes_from_vec`, `bytes_advance`.
- `headers`: the types `HeaderMap`, `HeaderName` and `HeaderValue` and the names `headers`,
  `name_text` and `value_bytes`; `HeaderMap::new`, `HeaderName::as_str` and `clone`,
  `HeaderValue::clone` and `as_bytes`; `header_clone`, `header_insert`, `header_append`,
  `header_get`, `header_remove`, `header_list`, `header_name`, `header_value`, `header_text`.
- `percent`: `percent_encoded`.
- `protobuf::any`: the name `any_decoding`; `serialize_any`, `parse_any`.
- `text`: the name `quoted`; `text_from_utf8`, `quoted_text`.
- `time`: the name `span_nanos`; `Duration::from_secs`, `from_millis`, `from_micros` and
  `from_nanos`.

`app/` runs the library on sockets and tasks. `tests/` holds its tests.
