[package]
name = "opc_gateway"
version = "0.1.0"
edition = "2021"
publish = false

[dependencies]
serde_json = "1"
opcua-client = "*"
opcua-console-logging = "*"
