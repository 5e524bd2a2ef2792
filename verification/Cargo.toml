[package]
name = "nature_compiler"
version = "0.1.0"
edition = "2021"
publish = false

[dependencies]
sha2 = "0.10"
deunicode = "1"
serde = { version = "1", features = ["derive"] }
serde_json = "1"
anyhow = "1"
async-trait = "0.1"
convert_case = "*"
proc-macro2 = "1"
quote = "1"
syn = { version = "2", features = ["full"] }
prettyplease = "0.2"
