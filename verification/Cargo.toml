[package]
name = "sloth"
version = "0.1.0"
edition = "2021"
publish = false

[dependencies]
llvm-sys = { version = "=231.0.1", features = ["no-llvm-linking", "disable-alltargets-init"] }
serde = { version = "=1.0.229", features = ["derive"] }
serde_json = "=1.0.154"
