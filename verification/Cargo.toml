[package]
name = "svg2gcode"
version = "0.1.0"
edition = "2021"
publish = false

[dependencies]
roxmltree = "*"
serde = { version = "1", features = ["derive"] }
serde_yaml = "*"
thiserror = "*"
clap = { version = "4", features = ["derive"] }
