[package]
name = "tetris"
version = "0.1.0"
edition = "2021"
publish = false

[dependencies]
heapless = "0.8"
rand = { version = "0.8", default-features = false, features = ["small_rng"] }
cortex-m = "0.7"
critical-section = "1"
embedded-graphics = "0.8"
embedded-hal = "1"
panic-halt = "*"
rp235x-hal = "0.2"
ssd1306 = "0.9"
