[package]
name = "pco_core"
version = "0.1.0"
edition = "2021"
publish = false

[dependencies]
anyhow = "=1.0.104"
arrow = { version = "=60.0.0", default-features = false }
clap = { version = "=4.6.7", features = ["derive"] }
half = "=2.7.1"
indicatif = "=0.17.11"
jni = "=0.21.1"
once_cell = "=1.21.4"
rayon = "=1.12.0"
tabled = "=0.22.0"
tokio = { version = "=1.54.1", features = ["rt", "rt-multi-thread"] }
