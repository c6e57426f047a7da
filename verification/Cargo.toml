[package]
name = "debian-lsp"
version = "0.1.0"
edition = "2021"
publish = false

[dependencies]
debian-control = "=0.3.20"
deb822-lossless = "=0.5.21"
debian-changelog = "=0.2.25"
debian-copyright = "=0.1.56"
patchkit = "=0.3.9"
lintian-overrides = "=0.1.10"
rowan = "=0.16.1"
text-size = "=1.1.1"
tower-lsp-server = "=0.23.0"
serde = { version = "=1.0.229", features = ["derive"] }
serde_json = "=1.0.154"
clap = { version = "=4.6.7", features = ["derive"] }
tokio = { version = "=1.54.1", features = ["io-std", "macros", "rt-multi-thread"] }
