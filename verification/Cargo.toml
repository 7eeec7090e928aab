[package]
name = "socket_programming"
version = "0.1.0"
edition = "2021"
publish = false

[dependencies]
tokio = { version = "1", features = ["full"] }
native-tls = "0.2.11"
tokio-native-tls = "0.3"
openssl = "0.10.45"
rpassword = "7.2.0"
log = "0.4.17"
simplelog = "0.12.0"
time = { version = "0.3.17", features = ["macros", "formatting"] }
