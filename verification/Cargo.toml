[package]
name = "audio_spectrum"
version = "0.1.0"
edition = "2021"
publish = false

[dependencies]
realfft = "=3.5.0"
rustfft = "=6.4.1"
rodio = "=0.17.3"
itertools = "=0.10.5"
nannou = "=0.18.1"
nannou_audio = "0.18"
audrey = "0.3"
image = { version = "=0.24.9", default-features = false }
imageproc = "=0.23.1"
rusttype = "=0.9.3"
once_cell = "=1.21.4"
