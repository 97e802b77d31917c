[package]
name = "mqtt_console"
version = "0.1.0"
edition = "2021"
publish = false

[dependencies]
futures = "*"
rumqttc = "*"
