[package]
name = "entity_store"
version = "0.1.0"
edition = "2021"
publish = false

[dependencies]
entity_store_helper = "*"
grid_2d = "*"
itertools = "*"
serde = { version = "1", features = ["derive"] }
tera = "*"
toml = "*"
