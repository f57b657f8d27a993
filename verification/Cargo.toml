[package]
name = "audio_visualizer"
version = "0.1.0"
edition = "2021"
publish = false

[dependencies]
rustfft = "6"
macroquad = "0.4"
cpal = "0.15"
wasapi = "*"
screencapturekit = "*"
