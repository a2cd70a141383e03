[package]
name = "bytekit"
version = "0.1.0"
edition = "2021"
publish = false

[dependencies]
bstr = { version = "1", default-features = false, features = ["std"] }
crossbeam = "0.8"
libc = "0.2"
winapi = { version = "0.3", features = ["handleapi", "processthreadsapi", "winnt"] }
