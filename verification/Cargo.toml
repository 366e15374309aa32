[package]
name = "printcountpay_core"
version = "0.1.0"
edition = "2021"
publish = false

[dependencies]
get_if_addrs = "*"
snmp2 = { version = "*", features = ["tokio"] }
tokio = { version = "*", features = ["rt", "time", "macros"] }
ron = "*"
serde = { version = "*", features = ["derive"] }
