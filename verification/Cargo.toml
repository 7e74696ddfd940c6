[package]
name = "armbian-imager"
version = "1.0.0"
edition = "2021"
publish = false

[dependencies]
sha2 = "=0.11.1"
flate2 = "=1.1.10"
bzip2 = "=0.6.1"
liblzma = "=0.4.9"
zstd = "=0.14.3"
filetime = "=0.2.29"
dirs = "=7.0.0"
chrono = "=0.4.45"
once_cell = "=1.21.4"
libc = "=0.2.191"
serde = { version = "=1.0.229", features = ["derive"] }
serde_json = "=1.0.154"
sys-locale = "=0.3.2"
futures-util = "=0.3.34"
tokio = { version = "=1.54.1", features = ["rt-multi-thread", "sync", "macros"] }
reqwest = { version = "=0.13.5", features = ["stream", "json"] }
udisks2 = "*"
windows-sys = { version = "*", features = ["Win32_Foundation", "Win32_Storage_FileSystem", "Win32_System_IO", "Win32_System_Ioctl"] }
