[package]
name = "audio_channels"
version = "0.1.0"
edition = "2021"
publish = false

[dependencies]
kira = { version = "=0.6.1", default-features = false }
parking_lot = "=0.12.5"
bevy = { version = "=0.7.0", default-features = false }
# Not used by this crate. bevy 0.7 derives with syn 1 and asks for none of
# its features; this release of tracing-attributes, which bevy brings in
# anyway, asks for the ones bevy needs, the later releases do not.
tracing-attributes = "=0.1.23"
