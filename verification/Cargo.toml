[package]
name = "dndsound"
version = "0.1.0"
edition = "2021"
publish = false

[dependencies]
unicode-normalization = "0.1"
lru = "*"
sha2 = "*"
serde = { version = "1", features = ["derive"] }
serde_json = "1"
thiserror = "*"
tracing = "0.1"
ureq = "3"
hound = "3"
symphonia = "*"
kira = "*"
cpal = "*"
rubato = "*"
audioadapter-buffers = "*"
rtrb = "*"
ort = "=2.0.0-rc.15"
tokenizers = "*"
whisper-rs = "*"
