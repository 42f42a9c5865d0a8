[package]
name = "secure_channel"
version = "0.1.0"
edition = "2021"
publish = false

[dependencies]
anyhow = "*"
openssl = "*"
openweathermap = "*"
pqcrypto = "*"
pqcrypto-traits = "*"
serde_json = "*"
