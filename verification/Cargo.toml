[package]
name = "stax"
version = "0.1.0"
edition = "2021"
publish = false

[dependencies]
arborium = { version = "=2.18.2", default-features = false, features = ["lang-asm"] }
arborium-theme = "=2.18.2"
facet = "=0.46.5"
flume = "=0.12.0"
libc = "=0.2.191"
memchr = "=2.8.3"
memmap2 = "=0.9.12"
object = "=0.40.0"
parking_lot = "=0.13.0"
tokio = { version = "=1.54.1", features = ["full"] }
tracing = "=0.1.44"
tracing-subscriber = { version = "=0.3.23", features = ["env-filter"] }
vox = { version = "=0.4.0", features = ["transport-websocket"] }
yaxpeax-arch = "=0.3.3"
yaxpeax-arm = "=0.5.0"
yaxpeax-x86 = "=2.2.0"
