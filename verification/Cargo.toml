[package]
name = "synac_client"
version = "0.1.0"
edition = "2021"
publish = false

[dependencies]
openssl = "=0.10.82"
rusqlite = "0.31"
rustyline = "=1.0.0"
termion = "=1.5.6"
xdg = "=2.5.2"
