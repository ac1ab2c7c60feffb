[package]
name = "ambient_led"
version = "0.1.0"
edition = "2021"
publish = false

[dependencies]
anyhow = "=1.0.104"
clap = "=4.6.7"
colog = "=1.4.0"
dirs = "=7.0.0"
egls = "=0.1.7"
gbm = { version = "=0.18.0", default-features = false, features = ["drm-support"] }
gl = "=0.14.0"
log = "=0.4.34"
serde = { version = "=1.0.229", features = ["derive"] }
serde_yml = "=0.0.13"
serial2 = "=0.2.38"
wayland-client = { version = "=0.31.15", features = ["dlopen"] }
wayland-protocols = { version = "=0.32.13", features = ["client"] }
wayland-protocols-wlr = { version = "=0.3.12", features = ["client"] }
