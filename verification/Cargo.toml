[package]
name = "url_store"
version = "0.1.0"
edition = "2021"
publish = false

[dependencies]
sha2 = "0.10"
sqlx = { version = "*", default-features = false, features = ["sqlite", "runtime-tokio"] }
async-trait = "0.1"
num_cpus = "1"
