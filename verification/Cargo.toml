[package]
name = "rvalt"
version = "0.1.0"
edition = "2021"
publish = false

[dependencies]
anyhow = "=1.0.104"
bytemuck = { version = "=1.25.2", features = ["derive"] }
crossbeam = "=0.8.5"
dotenv = "=0.15.0"
egui = { version = "=0.35.0", default-features = false, features = ["default_fonts"] }
egui-phosphor = "=0.13.0"
egui-wgpu = { version = "=0.35.0", default-features = false }
egui-winit = { version = "=0.35.0", default-features = false, features = ["x11"] }
exr = "=1.74.2"
half = { version = "=2.7.1", features = ["bytemuck"] }
image = { version = "=0.25.10", default-features = false, features = ["png"] }
ocio-rs = "=0.3.0"
parking_lot = "=0.12.5"
pollster = "=0.4.0"
rfd = { version = "=0.17.2", default-features = false, features = ["xdg-portal"] }
tracing = "=0.1.44"
tracing-subscriber = { version = "=0.3.23", features = ["env-filter"] }
wgpu = "=29.0.4"
winit = { version = "=0.30.13", default-features = false, features = ["x11", "rwh_06"] }
