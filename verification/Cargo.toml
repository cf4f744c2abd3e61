[package]
name = "garden_sea"
version = "0.1.0"
edition = "2021"
publish = false

[dependencies]
rand = "0.8"
eyre = "0.6"
flate2 = "1"
tar = "0.4"
sysinfo = "0.29"
directories = "5"
process_path = "0.1"
ctrlc = "3"
nix = { version = "0.27", features = ["signal"] }
crossbeam = "0.8"
lazy_static = "1"
windows = { version = "0.52", features = ["Win32_Foundation", "Win32_System_Console"] }
