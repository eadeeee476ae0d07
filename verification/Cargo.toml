[package]
name = "union_kvm"
version = "0.1.0"
edition = "2021"
publish = false

[dependencies]
anyhow = "1"
arboard = { version = "3", default-features = false, features = ["image-data"] }
bincode = "1.3"
clap = { version = "4", features = ["derive"] }
hex = "0.4"
hmac = "0.12"
image = { version = "0.25", default-features = false, features = ["png"] }
mdns-sd = "0.11"
rand = "0.8"
rcgen = "0.13"
rdev = { version = "0.5", features = ["unstable_grab"] }
rustls = { version = "0.23", default-features = false, features = ["logging", "ring", "std", "tls12"] }
rustls-pemfile = "2"
serde = { version = "1", features = ["derive"] }
serde_json = "1"
sha2 = "0.10"
thiserror = "1"
tokio = { version = "1", features = ["full"] }
tokio-rustls = { version = "0.26", default-features = false, features = ["logging", "ring", "tls12"] }
toml = "0.8"
tracing = "0.1"
tracing-subscriber = { version = "0.3", default-features = false, features = ["env-filter", "fmt"] }
