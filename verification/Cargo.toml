[package]
name = "sdp_negotiation"
version = "0.1.0"
edition = "2021"
publish = false

[dependencies]
webrtc-sdp = "=0.3.16"
anyhow = "=1.0.104"
log = "=0.4.34"
env_logger = "=0.7.1"
actix-web = "4"
actix-files = "0.6"
actix-rt = "2"
gstreamer = "0.15"
gstreamer-sdp = "0.15"
gstreamer-webrtc = "0.15"
