[package]
name = "isekai"
version = "0.1.0"
edition = "2021"
publish = false

[dependencies]
regex = "1"
sha2 = "0.10"
const-hex = "1"
serde = { version = "1", features = ["derive"] }
serde_json = "1"
thiserror = "2"
tokio = { version = "1", features = ["full"] }
tokio-util = { version = "0.7", features = ["codec"] }
futures = "0.3"
async-trait = "0.1"
clap = { version = "4", features = ["derive"] }
rustyline = "*"
shlex = "1"
tracing = "0.1"
tracing-subscriber = { version = "0.3", features = ["env-filter"] }
tracing-appender = "0.2"
directories = "*"
reqwest = { version = "0.12", default-features = false, features = ["rustls-tls", "json", "stream"] }
which = "*"
windows-registry = "*"
windows-sys = { version = "*", features = ["Win32_Foundation", "Win32_System_Console", "Win32_System_SystemInformation", "Win32_Security", "Win32_Security_Authorization", "Win32_System_Threading", "Win32_Storage_FileSystem", "Win32_System_IO", "Win32_System_Memory"] }
wmi = "*"

[dev-dependencies]
mockall = "0.13"
