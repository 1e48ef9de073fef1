[package]
name = "ngs"
version = "0.1.0"
edition = "2021"
publish = false

[dependencies]
anyhow = "1"
clap = "3.2"
git-testament = "*"
noodles = { version = "*", features = ["bam", "core", "sam"] }
noodles-bam = "*"
noodles-core = "*"
noodles-sam = "*"
num-format = "*"
prettytable-rs = "*"
regex = "1"
serde = { version = "1", features = ["derive"] }
serde_json = "1"
tracing = "0.1"
tracing-subscriber = "0.3"
