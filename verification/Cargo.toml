[package]
name = "kernel"
version = "0.1.0"
edition = "2021"
publish = false

[dependencies]
x86_64 = { version = "=0.15.5", default-features = false, features = ["instructions"] }
arrayvec = "=0.7.8"
font8x8 = "=0.3.1"
spin = "=0.9.9"
lazy_static = { version = "=1.5.1", features = ["spin_no_std"] }
pc-keyboard = "=0.9.0"
raw-cpuid = "=11.6.0"
elf = "=0.8.0"
xmas-elf = "*"
