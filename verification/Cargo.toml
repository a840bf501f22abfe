[package]
name = "heliosav_layers"
version = "0.1.0"
edition = "2021"
publish = false

[dependencies]
arc-swap = "=1.9.3"
csv = "=1.4.0"
dashmap = "=6.2.1"
goblin = "=0.8.2"
hex = "=0.4.3"
lazy_static = "=1.5.1"
log = "=0.4.35"
md-5 = "=0.10.6"
rayon = "=1.12.0"
rusqlite = { version = "=0.41.1", features = ["bundled"] }
serde = { version = "=1.0.229", features = ["derive"] }
serde_json = "=1.0.154"
sha1 = "=0.10.7"
sha2 = "=0.10.9"
thiserror = "=1.0.69"
tract-onnx = "=0.23.9"
windows-sys = { version = "=0.61.2", features = ["Win32_Foundation", "Win32_System_Diagnostics_Debug", "Win32_System_Diagnostics_ToolHelp", "Win32_System_Kernel", "Win32_System_Memory", "Win32_System_Threading"] }
yara = { version = "=0.32.0", default-features = false, features = ["bundled-4_5_5", "module-dex", "module-dotnet", "module-hash", "module-macho", "ndebug", "vendored"] }

[dev-dependencies]
tempfile = "=3.27.0"
