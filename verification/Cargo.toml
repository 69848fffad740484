[package]
name = "tomcat_manager"
version = "0.1.0"
edition = "2021"
publish = false

[dependencies]
anyhow = "1"
clap = { version = "4", features = ["derive", "env"] }
colored = "3"
reqwest = { version = "0.12", default-features = false, features = ["blocking", "rustls-tls"] }
tabled = "0.20"
