[package]
name = "macos-webrtc-h264"
version = "0.1.0"
edition = "2021"
publish = false

[dependencies]
bytes = "=1.12.1"
tokio = { version = "=1.54.1", features = ["full"] }
axum = "=0.8.9"
serde = { version = "=1.0.229", features = ["derive"] }
webrtc = "=0.17.2"
objc2 = "=0.6.5"
block2 = "=0.6.2"
dispatch2 = "=0.3.1"
objc2-core-foundation = "=0.3.2"
objc2-core-media = "=0.3.2"
objc2-core-video = "=0.3.2"
objc2-foundation = "=0.3.2"
objc2-screen-capture-kit = "=0.3.2"
objc2-video-toolbox = "=0.3.2"
