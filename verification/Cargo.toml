[package]
name = "pseudofs"
version = "0.1.0"
edition = "2021"
publish = false

[dependencies]
axerrno = "=0.2.2"
axpoll = "=0.7.0"
bitmaps = "=3.2.1"
hashbrown = "=0.15.5"
linux-raw-sys = { version = "=0.12.1", features = ["general", "ioctl"] }
spin = "=0.9.9"
