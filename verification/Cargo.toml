[package]
name = "mellonella"
version = "0.1.0"
edition = "2021"
publish = false

[dependencies]
clap = { version = "=4.6.7", features = ["derive"] }
cpal = "=0.15.3"
crossbeam-channel = "=0.5.17"
ctrlc = "=3.5.2"
deep_filter = { version = "=0.2.5", default-features = false }
dirs = "=7.0.0"
hound = "=3.5.1"
ndarray = "=0.17.2"
ort = { version = "=2.0.0-rc.12", default-features = false, features = ["std", "ndarray", "load-dynamic", "api-24"] }
realfft = "=3.5.1"
rubato = "=0.16.2"
rustfft = "=6.4.1"
serde = { version = "=1.0.229", features = ["derive"] }
serde_json = "=1.0.154"
tympan-apo = "=0.1.0"
ureq = "=2.12.1"
