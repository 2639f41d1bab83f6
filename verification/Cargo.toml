[package]
name = "music_files_organizer"
version = "0.1.0"
edition = "2021"
publish = false

[dependencies]
anyhow = "=1.0.104"
clap = { version = "=4.6.7", features = ["derive"] }
clap_complete = "=4.6.11"
dialoguer = "=0.11.0"
dirs = "=5.0.1"
fuzzy-matcher = "=0.3.7"
id3 = "=1.17.2"
indicatif = "=0.17.11"
lofty = "=0.25.4"
metaflac = "=0.2.8"
mp4ameta = "=0.11.0"
reqwest = { version = "=0.12.28", features = ["blocking", "json"] }
sanitize-filename = "=0.6.0"
serde = { version = "=1.0.229", features = ["derive"] }
serde_json = "=1.0.154"
strsim = "=0.11.1"
tempfile = "=3.27.0"
unidecode = "=0.3.0"
walkdir = "=2.5.0"

[dev-dependencies]
regex = "=1.13.1"
