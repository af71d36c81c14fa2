[package]
name = "wilson"
version = "0.1.0"
edition = "2021"
publish = false

[dependencies]
winit = { version = "0.29", default-features = false, features = ["rwh_06", "x11", "wayland", "wayland-dlopen"] }
softbuffer = "0.4"
rodio = { version = "0.19", default-features = false, features = ["wav"] }
zip = { version = "2", default-features = false, features = ["deflate"] }
