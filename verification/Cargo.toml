[package]
name = "quickwit"
version = "0.1.0"
edition = "2021"
publish = false

[dependencies]
anyhow = "1"
aws-smithy-runtime-api = { version = "1", features = ["client", "http-1x"] }
aws-smithy-types = "1"
base64 = "0.22"
bytes = "1"
fnv = "1"
futures = "0.3"
lru = "*"
mini-moka = "0.10"
num_cpus = "1"
pin-project = "1"
postcard = { version = "1", features = ["use-std"] }
pprof = { version = "*", features = ["flamegraph"] }
prometheus = { version = "*", default-features = false }
quick_cache = "0.6"
rand = "*"
rayon = "1"
regex = "1"
reqwest = { version = "0.12", default-features = false }
serde = { version = "1", features = ["derive"] }
serde_json = "1"
stable_deref_trait = "1"
tantivy = { version = "*", default-features = false, features = ["mmap"] }
tempfile = "3"
time = { version = "0.3", features = ["formatting", "parsing"] }
tokio = { version = "1", features = ["fs", "io-util", "macros", "net", "rt", "rt-multi-thread", "sync", "time"] }
tokio-metrics = "*"
tracing = "0.1"
warp = "0.3"

[dev-dependencies]
bytesize = "*"
