[package]
name = "tsconfig_includes"
version = "0.1.0"
edition = "2021"
publish = false

[dependencies]
globwalk = "*"
typescript_tools = "*"
serde = { version = "*", features = ["derive"] }
serde_json = "*"
rayon = "*"

[dev-dependencies]
fs-err = "*"
