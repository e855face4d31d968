[package]
name = "mangapress"
version = "0.1.0"
edition = "2021"
publish = false

[dependencies]
image = "0.25"
zip = "2"
roxmltree = "0.20"
serde_json = "1"
clap = { version = "4", features = ["derive"] }
thiserror = "2"
anyhow = "1"
printpdf = "0.8"
rustfft = "6"
