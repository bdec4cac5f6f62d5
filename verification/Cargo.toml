[package]
name = "ab-av1"
version = "0.1.0"
edition = "2021"
publish = false

[dependencies]
anyhow = "1"
async-stream = "0.3"
blake3 = "1"
bstr = "1"
clap = { version = "4", features = ["derive", "env"] }
clap_complete = "4"
clap-verbosity-flag = "*"
console = "*"
dirs = "*"
env_logger = "*"
fastrand = "2"
futures-util = "0.3"
humantime = "2"
indicatif = "*"
infer = "*"
log = "0.4"
pin-project-lite = "0.2"
rand = "0.8"
same-file = "1"
serde = { version = "1", features = ["derive"] }
serde_json = "1"
shell-escape = "0.1"
sled = "0.34"
time = { version = "0.3", features = ["macros", "parsing"] }
tokio = { version = "1", features = ["full"] }
tokio-process-stream = "*"
tokio-process-tools = "*"
tokio-stream = "0.1"
unix-named-pipe = "0.2"
