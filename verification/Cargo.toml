[package]
name = "psp_playlist_maker"
version = "0.1.0"
edition = "2021"
publish = false

[dependencies]
egui = "0.27"
image = { version = "0.24", default-features = false, features = ["jpeg", "png"] }
lofty = "0.22"
rayon = "1"
reqwest = { version = "0.12", features = ["blocking", "json"] }
rfd = { version = "0.14", default-features = false, features = ["xdg-portal", "tokio"] }
rusqlite = { version = "0.31", features = ["bundled"] }
serde = { version = "1", features = ["derive"] }
serde_json = "1"
tokio = { version = "1", features = ["rt", "time"] }
urlencoding = "2"
walkdir = "2"
