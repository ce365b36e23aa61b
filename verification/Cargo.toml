[package]
name = "annotation_geometry"
version = "0.1.0"
edition = "2021"
publish = false

[dependencies]
geo-booleanop = "=0.3.2"
geo-types = { version = "=0.6.2", features = ["serde"] }
imageproc = { version = "=0.27.0", default-features = false }
serde = { version = "1", features = ["derive"] }
serde_json = "1"
tiff = "*"
