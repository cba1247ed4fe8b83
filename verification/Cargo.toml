[package]
name = "divoom_ditoo_pro_controller"
version = "0.1.0"
edition = "2021"
publish = false

[dependencies]
byteorder = "1"
bdf-parser = "*"
indexmap = "2"
image = { version = "0.25", default-features = false, features = ["png", "gif", "jpeg", "bmp", "webp"] }
bluer = { version = "*", features = ["bluetoothd", "rfcomm"] }
tokio = { version = "1", features = ["full"] }
futures = "0.3"
clap = { version = "4", features = ["derive"] }
env_logger = "*"
log = "0.4"
chrono = "0.4"
csscolorparser = "*"
fontconfig = "*"
fontdue = "*"
hex = "0.4"
uuid = "1"
libmpv2-sys = "*"
