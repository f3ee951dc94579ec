[package]
name = "wireguard_install"
version = "0.1.0"
edition = "2021"
publish = false

[dependencies]
anyhow = "1"
chrono = "0.4"
dialoguer = "0.11"
dotenv = "0.15"
heim-virt = "0.1.0-rc.1"
ipnetwork = "0.21"
libc = "0.2"
netwatcher = "*"
qrcode = "0.14"
regex = "1.10"
serde = { version = "1", features = ["derive"] }
serde_json = "1"
tokio = { version = "1", features = ["macros", "rt-multi-thread"] }
