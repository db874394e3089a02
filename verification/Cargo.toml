[package]
name = "a76xx"
version = "0.1.0"
edition = "2021"
publish = false

[dependencies]
atat = "=0.24.1"
embassy-futures = "=0.1.2"
embassy-sync = "=0.6.2"
embassy-time = "=0.4.0"
embedded-hal = "=1.0.0"
embedded-io-async = "=0.6.1"
heapless = "=0.8.0"
