[package]
name = "shadereye"
version = "0.1.0"
edition = "2021"
publish = false

[dependencies]
image = { version = "=0.25.10", default-features = false, features = ["png"] }
base64 = "=0.22.1"
serde = { version = "=1.0.229", features = ["derive"] }
serde_json = "=1.0.154"
thiserror = "=1.0.69"
tokio = { version = "=1.54.1", features = ["macros", "rt-multi-thread", "process", "time"] }
futures = "=0.3.34"
reqwest = { version = "=0.12.28", default-features = false, features = ["json", "rustls-tls"] }
chromiumoxide = { version = "=0.7.0", features = ["tokio-runtime"] }
which = "=6.0.3"
wgpu = { version = "=23.0.1", features = ["glsl"] }
pollster = "=0.3.0"
bytemuck = { version = "=1.25.2", features = ["derive"] }
rmcp = { version = "=0.1.5", features = ["server", "transport-io"] }
anyhow = "=1.0.104"
