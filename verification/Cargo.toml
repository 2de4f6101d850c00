[package]
name = "alttab"
version = "0.1.0"
edition = "2021"
publish = false

[dependencies]
png = "=0.17.16"
serde = { version = "=1.0.229", features = ["derive"] }
toml = "=0.8.23"
log = "=0.4.35"
env_logger = "=0.11.11"
fontdue = "=0.9.5"
tiny-skia = "=0.11.4"
nix = { version = "=0.29.0", features = ["signal"] }
calloop = "0.14"
calloop-wayland-source = "0.4"
smithay-client-toolkit = "0.20"
wayland-client = "=0.31.15"
wayland-protocols-wlr = { version = "=0.3.12", features = ["client"] }
