[package]
name = "serde_polars"
version = "0.1.0"
edition = "2021"
publish = false

[dependencies]
serde = { version = "1", features = ["derive"] }
arrow = "=58.4.0"
chrono = { version = "0.4", features = ["serde"] }

[dependencies.serde_arrow]
version = "=0.15.1"
features = ["arrow-58"]

[dependencies.df-interchange]
version = "=0.3.3"
features = ["polars_0_53", "arrow_58"]

[dependencies.polars]
version = "=0.53.0"
default-features = false
