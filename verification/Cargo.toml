[package]
name = "clarify"
version = "0.1.0"
edition = "2021"
publish = false

[dependencies]
syn = { version = "2", features = ["full"] }
proc-macro2 = { version = "1", features = ["span-locations"] }
clap = { version = "4", features = ["derive"] }
dirs = "*"
reqwest = { version = "*", default-features = false, features = ["blocking"] }
llama_cpp_rs = "*"
