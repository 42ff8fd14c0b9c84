[package]
name = "drudge"
version = "0.1.0"
edition = "2021"
publish = false

[dependencies]
crossbeam-channel = "*"
flume = "*"
kanal = "*"
loole = "*"
