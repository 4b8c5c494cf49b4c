[package]
name = "migration_assessor"
version = "0.1.0"
edition = "2021"
publish = false

[dependencies]
anyhow = "=1.0.104"
thiserror = "=2.0.21"
serde = { version = "=1.0.229", features = ["derive"] }
serde_json = "=1.0.154"
toml = "=1.1.8"
glob = "=0.3.4"
walkdir = "=2.5.0"
encoding_rs = "=0.8.44"
syn = { version = "=2.0.119", features = ["full", "visit"] }
proc-macro2 = { version = "=1.0.107", features = ["span-locations"] }
quote = "=1.0.47"
oxc_allocator = "=0.143.0"
oxc_ast = "=0.143.0"
oxc_parser = "=0.143.0"
oxc_span = "=0.143.0"
oxc_semantic = "=0.143.0"
rayon = "=1.12.0"
chrono = "=0.4.45"
cargo_metadata = "=0.23.1"
rusqlite = { version = "=0.41.1", features = ["bundled"] }
