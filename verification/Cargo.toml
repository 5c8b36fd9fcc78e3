[package]
name = "w2_rust"
version = "0.1.0"
edition = "2021"
publish = false

[dependencies]
encoding_rs = "=0.8.42"
fixedstr = "=0.5.11"
tokio = { version = "=1.54.1", features = ["rt-multi-thread", "net", "io-util", "sync", "time", "macros"] }
once_cell = "=1.21.4"
egui = { version = "=0.27.2", default-features = false, features = ["default_fonts"] }
egui_extras = { version = "=0.27.2", default-features = false }
eframe = { version = "=0.27.2", default-features = false, features = ["glow"] }
