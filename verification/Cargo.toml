[package]
name = "mobile_perf"
version = "0.1.0"
edition = "2021"
publish = false

[dependencies]
fs2 = "0.4"
hostname = "0.3"
libc = "0.2"
memmap2 = "0.9"
nix = { version = "0.27", features = ["user"] }
notify = { version = "6", default-features = false }
num_cpus = "1"
objc = "0.2"
plotters = { version = "0.3", default-features = false, features = ["bitmap_backend", "bitmap_encoder"] }
rand = "0.8"
reqwest = { version = "0.11", default-features = false, features = ["json"] }
rustc_version = "0.4"
serde = { version = "1", features = ["derive"] }
serde_json = "1"
sysinfo = { version = "0.29", default-features = false }
tokio = { version = "~1.35", features = ["macros", "rt-multi-thread", "sync", "time"] }
tracing = "0.1"
tracing-subscriber = { version = "0.3", default-features = false, features = ["fmt"] }
