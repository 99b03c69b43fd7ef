[package]
name = "fmt_derive"
version = "0.1.0"
edition = "2021"
publish = false

[dependencies]
proc-macro2 = { version = "1", default-features = false }
quote = { version = "1", default-features = false }
syn = { version = "1", default-features = false, features = ["clone-impls", "derive", "extra-traits", "parsing", "printing"] }
