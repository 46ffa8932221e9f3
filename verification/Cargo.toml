[package]
name = "coap-lite"
version = "0.13.3"
edition = "2021"
publish = false

[dependencies]
coap-message = "0.3"
lru_time_cache = "0.11"
