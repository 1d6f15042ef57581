[package]
name = "fileport"
version = "0.1.0"
edition = "2021"
publish = false

[dependencies]
async-trait = "=0.1.92"
blake3 = "=1.8.7"
bytes = "=1.12.1"
futures-util = "=0.3.34"
httpdate = "=1.0.3"
keyring = { version = "=3.6.3", features = ["apple-native", "windows-native", "linux-native"] }
object_store = { version = "=0.14.2", features = ["aws", "azure", "gcp"] }
percent-encoding = "=2.3.2"
quick-xml = "=0.42.0"
reqwest = { version = "=0.13.5", features = ["stream"] }
russh = "=0.65.0"
russh-sftp = "=3.0.1"
serde = { version = "=1.0.229", features = ["derive"] }
serde_json = "=1.0.154"
smb2 = "=0.39.0"
suppaftp = { version = "=12.2.1", features = ["native-tls", "deprecated"] }
thiserror = "=2.0.21"
tokio = { version = "=1.54.1", features = ["full"] }
tokio-util = { version = "=0.7.20", features = ["io"] }
