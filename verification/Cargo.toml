[package]
name = "haste"
version = "0.1.0"
edition = "2021"
publish = false

[dependencies]
hashbrown = "=0.14.5"
snap = "=1.1.2"
thiserror = "=1.0.69"
