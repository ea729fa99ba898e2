[package]
name = "thread_visual_style"
version = "0.1.0"
edition = "2021"
publish = false

[dependencies]
agent-client-protocol = "=5.0.0"
anyhow = "=1.0.104"
ashpd = { version = "=0.13.13", features = ["notification"] }
serde_json = "=1.0.154"

[dev-dependencies]
regex = "=1.13.1"
