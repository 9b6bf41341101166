[package]
name = "shadey"
version = "0.1.0"
edition = "2021"
publish = false

[dependencies]
bytemuck = "1"
egui = "0.22"
egui_winit_platform = "0.19"
futures = { version = "0.3", default-features = false, features = ["executor", "thread-pool"] }
image = { version = "0.24", default-features = false, features = ["png", "jpeg"] }
notify = "6"
notify-debouncer-full = "0.3"
pollster = "0.3"
winit = "0.28"
