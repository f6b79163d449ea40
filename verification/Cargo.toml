[package]
name = "easy_pdf"
version = "0.1.0"
edition = "2021"
publish = false

[dependencies]
ascii85 = "*"
chrono = "*"
flate2 = "*"
image = "*"
rand = "*"
tempfile = "*"
