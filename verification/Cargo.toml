[package]
name = "winbear"
version = "0.1.0"
edition = "2021"
publish = false

[dependencies]
regex = "=1.13.1"
serde_json = "=1.0.154"
itertools = "=0.10.5"
chrono = "=0.4.45"
clap = "=2.34.0"
log = "=0.4.34"
stderrlog = "=0.5.4"
widestring = "=0.4.3"
static_assertions = "=1.1.0"
windows = { version = "=0.52.0", features = ["Wdk_System_Threading", "Win32_Foundation", "Win32_Security", "Win32_System_Com", "Win32_System_Diagnostics_Debug", "Win32_System_Kernel", "Win32_System_Memory", "Win32_System_Ole", "Win32_System_Rpc", "Win32_System_SystemInformation", "Win32_System_Threading", "Win32_System_Variant", "Win32_System_Wmi", "Win32_UI_Shell"] }
