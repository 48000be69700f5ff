[package]
name = "starfire"
version = "0.1.0"
edition = "2021"
publish = false

[dependencies]
aes = "=0.8.4"
sha2 = "=0.10.9"
getrandom = "=0.2.17"
p256 = { version = "=0.13.2", features = ["ecdsa", "pem", "pkcs8"] }
rcgen = "=0.13.2"
x509-parser = "=0.16.0"
quick-xml = "=0.36.2"
rustls = { version = "=0.23.46", default-features = false, features = ["ring", "std", "tls12", "logging"] }
rusty_enet = "=0.4.1"
serde = { version = "=1.0.229", features = ["derive"] }
toml = "=0.8.23"
thiserror = "=1.0.69"
winit = { version = "=0.30.13", default-features = false, features = ["rwh_06", "x11"] }
wgpu = { version = "27", default-features = false, features = ["wgsl", "vulkan"] }
pollster = "0.4"
bytemuck = { version = "1", features = ["derive"] }
audiopus = "=0.3.0-rc.0"
