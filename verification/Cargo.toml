[package]
name = "neura_dns"
version = "0.1.0"
edition = "2021"
publish = false

[dependencies]
anchor-lang = "*"
