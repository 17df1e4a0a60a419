[package]
name = "elysium"
version = "0.1.0"
edition = "2021"
publish = false

[dependencies]
anyhow = "1"
clap = { version = "4", features = ["derive"] }
fast_image_resize = { version = "=6.1.0", features = ["image"] }
image = "=0.25.10"
ocr-rs = "=2.4.1"
ratatui = "=0.30.2"
rhai = { version = "=1.27.0", features = ["sync"] }
rustfft = "=6.4.1"
serde_json = "=1.0.154"
vigem-client = "=0.1.4"
windows = { version = "=0.62.2", features = ["Win32_Foundation", "Win32_Graphics_Dwm", "Win32_Graphics_Gdi", "Win32_Media_Audio", "Win32_Media_KernelStreaming", "Win32_System_Com", "Win32_System_Com_StructuredStorage", "Win32_System_Variant", "Win32_UI_Shell", "Win32_UI_WindowsAndMessaging"] }
windows-capture = "=2.0.1"
