[package]
name = "wmacro"
version = "0.1.0"
edition = "2021"
publish = false

[dependencies]
serde = { version = "=1.0.229", features = ["derive"] }
serde_json = "=1.0.154"
directories = "=6.0.0"
which = "=8.0.6"
image = { version = "=0.25.10", default-features = false, features = ["png"] }
rustfft = "=6.4.1"
rayon = "=1.12.0"
transpose = "=0.2.3"
x11rb = "0.13"
wl-clipboard-rs = "0.9"
libc = "0.2"
