[package]
name = "logseq_sqlite"
version = "0.1.0"
edition = "2021"
publish = false

[dependencies]
bincode = "=1.3.3"
console_error_panic_hook = "=0.1.7"
getrandom = { version = "=0.2.17", features = ["js"] }
js-sys = "=0.3.107"
libsqlite3-sys = { version = "=0.26.0", features = ["bundled"] }
rusqlite = { version = "=0.29.0", features = ["bundled"] }
serde = { version = "=1.0.229", features = ["derive"] }
serde-wasm-bindgen = "=0.5.0"
uuid = "=1.29.0"
wasm-bindgen = "=0.2.130"
wasm-bindgen-futures = "=0.4.80"
web-sys = { version = "=0.3.107", features = [
    "FileSystemDirectoryHandle",
    "FileSystemFileHandle",
    "FileSystemGetFileOptions",
    "FileSystemReadWriteOptions",
    "FileSystemSyncAccessHandle",
    "StorageManager",
    "WorkerGlobalScope",
    "WorkerNavigator",
] }
