[package]
name = "grpc"
version = "0.1.0"
edition = "2021"
publish = false

[dependencies]
bytes = "=1.11.1"
http = "=1.4.2"
http-body = "=1.1.0"
http-body-util = "=0.1.5"
hyper = { version = "=1.12.0", features = ["server", "http2"] }
hyper-util = { version = "=0.1.21", features = ["tokio", "server-auto"] }
percent-encoding = "=2.3.2"
protobuf = "=4.34.2-release"
protobuf-well-known-types = "=4.34.2-release"
tokio = { version = "=1.54.1", features = ["rt-multi-thread", "net", "sync", "time", "signal", "macros"] }
