[package]
name = "pit_box"
version = "0.1.0"
edition = "2021"
publish = false

[dependencies]
anyhow = "1"
bytes = "1"
clap = { version = "4", features = ["derive"] }
http = "1"
http-body-util = "0.1"
hyper = { version = "1", features = ["http1", "server"] }
hyper-util = { version = "0.1", features = ["tokio"] }
reqwest = { version = "0.12", default-features = false, features = ["blocking", "json"] }
serde = { version = "1", features = ["derive"] }
serde_json = "1"
sha2 = "0.10"
time = "0.3"
tokio = { version = "1", features = ["full"] }
tracing = "0.1"
tracing-subscriber = { version = "0.3", features = ["env-filter"] }
wasmparser = "0.240"
wasmtime = { version = "39.0.2", default-features = false, features = ["async", "component-model", "cranelift", "pooling-allocator", "runtime", "std"] }
wasmtime-wasi = { version = "39.0.2" }
wasmtime-wasi-http = { version = "39.0.2" }

[dev-dependencies]
wat = "1"
