[package]
name = "report_engine"
version = "0.1.0"
edition = "2021"
publish = false

[dependencies]
encoding_rs = "*"
actix-web = "*"
actix-files = "*"
actix-multipart = "*"
futures-util = "*"
tera = "*"
