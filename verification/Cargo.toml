[package]
name = "address_index"
version = "0.1.0"
edition = "2021"
publish = false

[dependencies]
actix-files = "*"
actix-rt = "*"
actix-web = "*"
anyhow = "*"
env_logger = "*"
flat_projection = "*"
geojson = "*"
indexmap = "*"
itertools = "*"
mvt = "*"
serde = { version = "*", features = ["derive"] }
serde_json = "*"
static-bushes = "*"
tile-grid = "*"
