[package]
name = "diar"
version = "0.1.0"
edition = "2021"
publish = false

[dependencies]
entropy = "=0.4.3"
fastcdc = "=3.2.1"
gearhash = "=0.1.4"
jwalk = "=0.8.1"
priority-queue = "=2.7.0"
twox-hash = "=1.6.3"
zstd = { version = "=0.13.3", features = ["experimental"] }
