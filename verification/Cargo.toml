[package]
name = "veil"
version = "2.0.0"
edition = "2021"
publish = false

[dependencies]
bytemuck = "=1.25.2"
calloop = "=0.14.5"
clap = { version = "=4.6.7", features = ["derive"] }
crossterm = "=0.29.0"
drm = "=0.15.0"
evdev = "=0.13.2"
image = { version = "=0.25.10", default-features = false, features = ["png", "jpeg"] }
libc = "=0.2.191"
libseat = "=0.2.4"
mlua = { version = "=0.12.2", features = ["lua54", "vendored"] }
pam-client2 = "=0.5.5"
pollster = "=1.0.1"
portable-pty = "=0.9.0"
rustix = { version = "=1.1.6", features = ["fs", "mm"] }
serde_json = "=1.0.154"
smithay = { version = "=0.7.0", default-features = false, features = ["backend_drm", "backend_egl", "backend_gbm", "desktop", "renderer_gl", "wayland_frontend", "xwayland"] }
thiserror = "=2.0.21"
tracing = "=0.1.44"
tracing-subscriber = { version = "=0.3.23", features = ["env-filter"] }
uzers = "=0.12.2"
vt100 = "=0.16.2"
wayland-client = "=0.31.15"
wayland-protocols = { version = "=0.32.13", features = ["server"] }
wayland-protocols-misc = { version = "=0.3.12", features = ["client"] }
wayland-protocols-wlr = { version = "=0.3.12", features = ["client"] }
wgpu = { version = "=30.0.1", default-features = false, features = ["vulkan", "wgsl"] }
wl-clipboard-rs = "=0.9.5"
