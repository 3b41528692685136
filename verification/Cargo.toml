[package]
name = "ultrascip"
version = "0.1.0"
edition = "2021"
publish = false

[dependencies]
anyhow = "*"
clap = { version = "*", features = ["derive"] }
env_logger = "*"
log = "*"
ognibuild = { version = "*", default-features = false }
proc-macro2 = { version = "*", features = ["span-locations"] }
protobuf = "*"
scip = "*"
serde = { version = "*", features = ["derive"] }
serde_json = "*"
syn = { version = "*", features = ["full", "extra-traits"] }
tree-sitter = "*"
tree-sitter-c = "*"
tree-sitter-cpp = "*"
walkdir = "*"
