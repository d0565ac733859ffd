[package]
name = "virtual_workspaces"
version = "0.1.0"
edition = "2021"
publish = false

[dependencies]
slotmap = { version = "1", features = ["serde"] }
serde = { version = "1", features = ["derive"] }
objc2-core-foundation = { version = "0.3", default-features = false, features = ["CFCGTypes"] }

[dev-dependencies]
regex = "1"
