[package]
name = "basetenkenizer"
version = "0.1.0"
edition = "2021"
publish = false

[dependencies]
chrono = "=0.4.45"
icu_properties = "=2.4.0"
minijinja = { version = "=2.24.0", features = ["adjacent_loop_items", "builtins", "deserialization", "macros", "multi_template", "preserve_order", "serde", "std_collections", "urlencode"], default-features = false }
minijinja-contrib = { version = "=2.24.0", features = ["pycompat"], default-features = false }
numpy = "=0.25.0"
pyo3 = { version = "=0.25.1", features = ["abi3-py39"] }
pyo3-async-runtimes = { version = "=0.25.0", features = ["tokio-runtime"] }
pythonize = "=0.25.0"
rayon = "=1.12.0"
serde = { version = "=1.0.229", features = ["derive"] }
serde_json = { version = "=1.0.154", features = ["preserve_order"] }

[dev-dependencies]
fancy-regex = "=0.14.0"
