[package]
name = "serenity"
version = "0.1.0"
edition = "2021"
publish = false

[dependencies]
petgraph = { version = "*", features = ["serde-1"] }
uuid = { version = "*", features = ["v4"] }
nalgebra-glm = { version = "*", features = ["serde-serialize"] }
gltf = { version = "*", features = ["KHR_lights_punctual"] }
serde = { version = "*", features = ["derive"] }
bytemuck = { version = "*", features = ["derive"] }
