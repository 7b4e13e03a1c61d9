[package]
name = "edifm"
version = "0.1.0"
edition = "2021"
publish = false

[dependencies]
chrono = "0.4"
crossbeam = "0.8"
dotenv = "0.15"
lame = "0.1"
minimp3 = "0.5"
num-rational = "0.4"
rand = "0.8"
rusqlite = "*"
signal-hook = "0.3"
