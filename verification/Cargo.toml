[package]
name = "iguazu"
version = "0.1.0"
edition = "2021"
publish = false

[dependencies]
lexical-core = "=1.0.6"
owo-colors = "=4.4.0"
url = "=2.5.8"
num-traits = "=0.2.19"
num-rational = "=0.4.2"
csv-core = "=0.1.13"
jiff = "0.2"
clap = { version = "=4.6.7", features = ["derive"] }
async-compression = { version = "=0.4.52", features = ["futures-io", "deflate"] }
futures-lite = "=2.6.1"
