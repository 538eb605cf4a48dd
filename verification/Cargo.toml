[package]
name = "virtio_nvgpu"
version = "0.1.0"
edition = "2021"
publish = false

[dependencies]
libc = "0.2"
log = "0.4"
anyhow = "1"
thiserror = "*"
clap = { version = "4", features = ["derive"] }
env_logger = "0.11"
tracing = "0.1"
tracing-subscriber = { version = "0.3", features = ["env-filter"] }
vhost = { version = "*", features = ["vhost-user", "vhost-user-backend"] }
vhost-user-backend = "*"
virtio-bindings = "*"
virtio-queue = "*"
vm-memory = { version = "*", features = ["backend-mmap", "backend-atomic"] }
vmm-sys-util = "*"
