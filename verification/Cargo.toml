[package]
name = "idevice_desktop"
version = "0.1.0"
edition = "2021"
publish = false

[dependencies]
base64 = "=0.22.1"
plist = "=1.10.3"
idevice = { version = "=0.1.68", features = ["afc", "amfi", "core_device_proxy", "crashreportcopymobile", "debug_proxy", "diagnostics_relay", "dvt", "house_arrest", "installation_proxy", "location_simulation", "mobile_image_mounter", "pair", "remote_pairing", "rsd", "screenshotr", "springboardservices", "syslog_relay", "tcp", "tss", "tunnel_tcp_stack", "usbmuxd", "xpc"] }
mdns-sd = "=0.21.7"
zip = { version = "=9.2.2", default-features = false, features = ["deflate"] }
serde = { version = "=1.0.229", features = ["derive"] }
serde_json = "=1.0.154"
uuid = { version = "=1.29.0", features = ["v4"] }
tokio = { version = "=1.54.1", features = ["rt-multi-thread", "sync", "time", "fs", "io-util", "net", "macros"] }
tokio-util = "=0.7.20"
futures-util = "=0.3.34"
rustls = { version = "=0.23.46", features = ["ring"] }
