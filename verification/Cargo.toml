[package]
name = "sleep_sort"
version = "0.1.0"
edition = "2021"
publish = false

[dependencies]
async-timer = "0.7"
futures = "0.3"
num = "0.4"
