[package]
name = "velocitext"
version = "0.1.0"
edition = "2021"
publish = false

[dependencies]
serde = { version = "=1.0.229", features = ["derive"] }
serde_json = "=1.0.154"
chrono = { version = "=0.4.45", default-features = false, features = ["serde", "clock", "std"] }
log = "=0.4.35"
thiserror = "=1.0.69"
tempfile = "=3.27.0"
zip = { version = "=2.6.1", default-features = false, features = ["deflate"] }
sevenz-rust = "=0.6.1"
ureq = "=2.12.1"
symphonia = { version = "=0.5.5", features = ["all"] }
image = { version = "=0.25.10", default-features = false, features = ["png", "jpeg"] }
arboard = "=3.7.0"
num_cpus = "1"
rayon = "1"
tokio = { version = "1", features = ["rt-multi-thread", "sync"] }
sherpa-onnx = "1.13"
ort = "=2.0.0-rc.15"
paddle-ocr-rs = "0.6"
