[package]
name = "irc_plugins"
version = "0.1.0"
edition = "2021"
publish = false

[dependencies]
irc = { version = "1", default-features = false, features = ["channel-lists"] }
rand = "0.8"
url = "1"
regex = "1"
chrono = "0.4"
time = "0.1"
rustc-serialize = "0.3"
markov = "1"
hyper = "0.10"
