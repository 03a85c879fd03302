[package]
name = "gitui"
version = "0.1.0"
edition = "2021"
publish = false

[dependencies]
anyhow = "=1.0.104"
bwrap = { version = "=1.3.0", features = ["use_std"] }
bytesize = "=2.7.0"
crossbeam-channel = "=0.5.17"
crossterm = "=0.28.1"
dirs = "=6.0.0"
fuzzy-matcher = "=0.3.7"
git2 = { version = "0.20", default-features = false, features = ["vendored-libgit2"] }
gix = { version = "0.72", default-features = false, features = ["max-performance-safe", "revision", "status"] }
image = { version = "=0.25.10", default-features = false, features = ["bmp", "gif", "ico", "jpeg", "png", "tiff", "webp"] }
kstring = "=2.0.2"
log = "=0.4.35"
notify = "=8.2.1"
notify-debouncer-mini = "=0.6.0"
ratatui = { version = "=0.29.0", default-features = false, features = ["crossterm"] }
ratatui-image = { version = "8", default-features = false, features = ["crossterm"] }
rayon-core = "=1.13.0"
ron = "=0.10.1"
serde = { version = "=1.0.229", features = ["derive"] }
syntect = { version = "=5.3.0", default-features = false, features = ["default-fancy"] }
tempfile = "=3.27.0"
two-face = { version = "=0.4.5", default-features = false, features = ["syntect-fancy"] }
unicode-segmentation = "=1.13.3"
unicode-truncate = "=2.0.1"
unicode-width = "=0.2.0"
which = "=7.0.3"
