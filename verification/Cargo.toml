[package]
name = "workbook"
version = "0.1.0"
edition = "2021"
publish = false

[dependencies]
actix-web = { version = "*", default-features = false }
crossbeam = "*"
image = { version = "*", default-features = false, features = ["png"] }
num = "*"
regex = "*"
serde = { version = "*", features = ["derive"] }
text-colorizer = "*"
