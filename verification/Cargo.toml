[package]
name = "schematic_viewer"
version = "0.1.0"
edition = "2021"
publish = false

[dependencies]
anyhow = "1"
arboard = { version = "3", default-features = false }
fontdb = "*"
notify = "*"
png = "*"
pollster = "*"
rustybuzz = "*"
serde = { version = "1", features = ["derive"] }
serde_json = "1"
vello = "*"
vello_svg = "*"
winit = "0.30"
