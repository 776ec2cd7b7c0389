[package]
name = "memtrack"
version = "0.1.0"
edition = "2021"
publish = false

[dependencies]
anyhow = "1"
argh = "0.1"
cty = "0.2"
libc = "0.2"
paste = "1"
redbpf = { version = "1", default-features = false, features = ["load"] }
redbpf-probes = "1"
tokio = { version = "0.2", features = ["rt-core", "macros", "signal", "stream"] }
