[package]
name = "ros_kernel"
version = "0.1.0"
edition = "2021"
publish = false

[dependencies]
x86_64 = { version = "=0.15.5", default-features = false, features = ["instructions"] }
pc-keyboard = "=0.8.0"
crossbeam-queue = { version = "=0.3.14", default-features = false, features = ["alloc"] }
conquer-once = { version = "=0.4.0", default-features = false }
spinning_top = "=0.4.0"
futures-util = { version = "=0.3.34", default-features = false, features = ["alloc"] }
lazy_static = { version = "=1.5.1", features = ["spin_no_std"] }
noto-sans-mono-bitmap = { version = "=0.3.2", features = ["unicode-specials"] }
bootloader_api = "=0.11.17"
crossterm = "=0.29.0"
ratatui = "=0.30.2"
