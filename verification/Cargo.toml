[package]
name = "turtle_control"
version = "0.1.0"
edition = "2021"
publish = false

[dependencies]
uuid = { version = "=1.29.0", features = ["v4"] }
regex = "=1.13.1"
pathfinding = "=4.16.0"
serde = { version = "=1.0.229", features = ["derive"] }
rocket = { version = "=0.5.2", features = ["json"] }
rocket_ws = "=0.1.1"
log = "=0.4.35"
ciborium = "=0.2.2"
lz4_flex = "=0.11.6"
sha_file_hashing = "=0.1.1"
file-crawler = "*"
zipcrawl = "=4.0.0"
schematic-mesher = "*"
minecraft-assets = "*"
