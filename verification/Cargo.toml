[package]
name = "file_explorer"
version = "0.1.0"
edition = "2021"
publish = false

[dependencies]
anyhow = "=1.0.104"
arboard = { version = "=3.7.0", default-features = false }
eframe = { version = "=0.31.1", default-features = false, features = ["default_fonts", "glow", "x11"] }
egui = "=0.31.1"
git2 = { version = "=0.20.4", default-features = false }
notify = "=8.2.1"
nucleo = "=0.5.0"
objc2 = "=0.5.3"
objc2-app-kit = { version = "=0.2.2", features = ["NSApplication", "NSDragging", "NSDraggingItem", "NSDraggingSession", "NSEvent", "NSImage", "NSPasteboard", "NSResponder", "NSSharingService", "NSView", "NSWindow", "NSWorkspace"] }
objc2-foundation = { version = "=0.2.2", features = ["NSArray", "NSGeometry", "NSString", "NSThread", "NSURL"] }
plist = "=1.10.3"
portable-pty = "=0.8.1"
serde = { version = "=1.0.229", features = ["derive"] }
serde_json = "=1.0.154"
unicode-normalization = "=0.1.26"
unicode-width = "=0.2.3"
vte = "=0.13.1"
walkdir = "=2.5.0"
xattr = "=1.7.0"
