[package]
name = "anne_hasher"
version = "0.1.0"
edition = "2021"
publish = false

[dependencies]
clap = "=4.6.7"
core_affinity = "=0.8.3"
crossbeam-channel = "=0.5.17"
eframe = { version = "*", default-features = false, features = ["default_fonts", "glow", "x11"] }
egui = "*"
humanize-rs = "=0.1.5"
indicatif = "=0.18.6"
libc = "=0.2.191"
page_size = "=0.6.0"
raw-cpuid = "=11.6.0"
rayon = "=1.12.0"
rfd = "*"
stopwatch = "=0.0.7"
sys-info = "=0.9.1"

[dev-dependencies]
sha2 = "=0.11.1"
shabal = "=0.5.0"
