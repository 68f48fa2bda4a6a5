[package]
name = "blinc_canvas_kit"
version = "0.1.0"
edition = "2021"
publish = false

[dependencies]
blinc_core = { version = "=0.5.1", default-features = false }
blinc_layout = { version = "=0.5.1", default-features = false }
bytemuck = "1"
