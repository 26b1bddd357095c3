[package]
name = "sound_png"
version = "0.1.0"
edition = "2021"
publish = false

[dependencies]
flate2 = "1"
sha2 = "0.10"
rand = "0.8"
rand_chacha = "0.3"
hound = "3"
libloading = "0.8"

[dependencies.image]
version = "0.24"
default-features = false
features = ["png", "jpeg"]
