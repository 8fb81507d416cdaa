[package]
name = "firewheel"
version = "0.9.0"
edition = "2021"
publish = false

[dependencies]
arrayvec = "0.7"
bevy_platform = "*"
fixed-resample = "*"
ringbuf = "0.4"
smallvec = "1"
thunderdome = "0.6"
triple_buffer = "8"
wmidi = "4"
