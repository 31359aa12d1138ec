[package]
name = "zk_mail_monitor"
version = "0.1.0"
edition = "2021"
publish = false

[dependencies]
anchor-lang = { version = "*", features = ["init-if-needed"] }
borsh = "*"

[dev-dependencies]
sha2 = "*"
