[package]
name = "geotechniek"
version = "0.1.0"
edition = "2021"
publish = false

[dependencies]
quick-xml = "=0.37.5"
chrono = { version = "=0.4.45", features = ["serde"] }
serde = { version = "=1.0.229", features = ["derive"] }
serde_json = "=1.0.154"
base64 = "=0.22.1"
zip = { version = "=2.6.1", default-features = false, features = ["deflate"] }
resvg = "=0.45.1"
printpdf = { version = "=0.7.0", features = ["embedded_images"] }
image = { version = "0.24", default-features = false, features = ["png", "jpeg"] }
thiserror = "=1.0.69"
