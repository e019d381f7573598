[package]
name = "kurumi-containerd"
version = "0.1.0"
edition = "2021"
publish = false

[dependencies]
anyhow = "1"
clap = { version = "4", features = ["derive", "env"] }
flate2 = "1"
fs2 = "0.4"
libc = "0.2"
nix = { version = "0.30", features = ["fs", "hostname", "ioctl", "mount", "poll", "process", "sched", "signal", "socket", "term", "uio", "user"] }
procfs = "*"
serde = { version = "1", features = ["derive"] }
serde_json = "1"
tar = "0.4"
toml = "*"
tracing = "0.1"
tracing-subscriber = { version = "0.3", features = ["env-filter"] }
uuid = { version = "1", features = ["serde", "v4"] }
which = "*"
xz2 = "0.1"
zip = { version = "*", default-features = false, features = ["deflate"] }
zstd = "0.13"

[dev-dependencies]
tempfile = "3"
