[package]
name = "mfcc"
version = "0.1.0"
edition = "2021"

[dependencies]
rustfft = "6"
