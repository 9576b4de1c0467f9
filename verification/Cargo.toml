[package]
name = "race"
version = "0.1.0"
edition = "2021"
publish = false

[dependencies]
anyhow = "1"
archery = "=1.2.3"
base64 = "*"
bevy_pkv = { version = "*", default-features = false, features = ["redb"] }
egui-file-dialog = "*"
enum-map = "2"
hashbrown = "=0.17.1"
image-webp = "*"
indexmap = { version = "2", features = ["serde"] }
notan = { version = "*", default-features = false, features = ["backend", "draw", "egui", "extra", "log", "text"] }
png = "*"
rand = "=0.8.8"
regex = "=1.13.1"
rmp-serde = "1"
rpds = "=1.2.1"
rustc-hash = "=2.1.3"
serde = { version = "1", features = ["derive"] }
strum = { version = "*", features = ["derive"] }
takeable = "*"
toml = "*"
