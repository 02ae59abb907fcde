[package]
name = "nodepid"
version = "0.1.0"
edition = "2021"
publish = false

[dependencies]
clap = { version = "=4.6.7", features = ["derive", "env"] }
color-eyre = "=0.6.5"
etcetera = "=0.11.0"
k8s-openapi = { version = "=0.27.1", features = ["latest"] }
kube = "=3.1.0"
serde = { version = "=1.0.229", features = ["derive"] }
serde_yaml = "=0.9.34"
tabwriter = "=1.4.1"
thiserror = "=2.0.21"
tokio = { version = "=1.54.1", features = ["macros", "rt-multi-thread"] }
tracing-subscriber = { version = "=0.3.23", features = ["env-filter"] }
