[package]
name = "princess"
version = "0.1.0"
edition = "2021"
publish = false

[dependencies]
serde = { version = "1", features = ["derive"] }
serde_json = "1"
object = "*"
iced-x86 = "1.21.0"
addr2line = "*"
gimli = "*"
fallible-iterator = "*"
rustc-demangle = "*"
cpp_demangle = "*"
tokio = { version = "1", features = ["process", "time", "macros", "rt"] }
chrono = { version = "0.4", default-features = false, features = ["std", "clock"] }
