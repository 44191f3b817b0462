[package]
name = "gridrock"
version = "0.1.0"
edition = "2021"
publish = false

[dependencies]
xxhash-rust = { version = "*", features = ["xxh3"] }
rocksdb = "*"
raft = "*"
protobuf = "2"
rand = "*"
prost = "*"
tokio = { version = "1", features = ["full"] }
slog = "*"
slog-stdlog = "*"

[dev-dependencies]
tempfile = "*"
