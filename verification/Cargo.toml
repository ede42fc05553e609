[package]
name = "entity_merge"
version = "0.1.0"
edition = "2021"
publish = false

[dependencies]
legion = "=0.2.4"
log = "0.4"
ncollide2d = "0.33"
serde = { version = "1", features = ["derive"] }
type-uuid = "0.1"
uuid = "1"
