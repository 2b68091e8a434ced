[package]
name = "overload"
version = "0.1.0"
edition = "2021"
publish = false

[dependencies]
cloud-discovery-kubernetes = "*"
cluster-mode = "*"
csv-async = { version = "1", features = ["tokio"] }
fastrand = "2"
fastrand-contrib = "*"
futures-util = "0.3"
hashbrown = "0.14"
http = "0.2"
hyper = { version = "0.14", features = ["full"] }
jsonpath_lib = "0.3"
jsonschema = { version = "0.17", default-features = false }
mlua = { version = "0.8", features = ["lua54", "vendored"] }
prometheus = "0.13"
rand = "0.8"
regex = "1"
regex_generate = "0.2"
regex-syntax = "0.6"
remoc = "*"
rhai = { version = "1", features = ["serde", "sync"] }
rust-cloud-discovery = "*"
serde = { version = "1", features = ["derive"] }
serde_json = "1"
smol_str = "0.2"
sqlx = { version = "0.6", default-features = false, features = ["sqlite", "runtime-tokio-rustls"] }
tokio = { version = "1", features = ["full"] }
tracing = "0.1"
tracing-subscriber = { version = "0.3", features = ["env-filter"] }
url = "2"
uuid = { version = "1", features = ["v4"] }
warp = "0.3"
