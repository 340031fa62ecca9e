[package]
name = "epubcontract"
version = "0.1.0"
edition = "2021"
publish = false

[dependencies]
sha3 = "=0.12.0"
zip_structs = "=0.2.1"
compression = "=0.1.5"
splitty = "=1.0.2"
unix_path = "=1.0.1"
simplecss = "=0.2.2"
strong-xml = "=0.6.3"
serde = { version = "=1.0.229", features = ["derive"] }
corepack = "=0.4.1"
nanoserde = "=0.2.1"
json_minimal = "=0.1.3"
minicbor = { version = "=2.3.1", features = ["derive", "std"] }
logos = "0.12"
