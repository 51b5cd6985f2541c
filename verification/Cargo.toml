[package]
name = "wshowkeys"
version = "0.1.0"
edition = "2021"
publish = false

[dependencies]
anyhow = "1"
libc = "0.2"
nix = { version = "0.29", features = ["poll", "mman", "fs", "socket", "uio", "process", "user"] }
memmap2 = "0.9"
wayland-client = "0.31"
wayland-protocols-wlr = { version = "0.3", features = ["client"] }
xkbcommon = "0.8"
cairo-rs = "0.20"
pango = "0.20"
pangocairo = "0.20"
input = "0.9"
