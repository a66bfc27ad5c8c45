[package]
name = "ext_infer"
version = "0.1.0"
edition = "2021"
publish = false

[dependencies]
serde_json = { version = "1", features = ["preserve_order"] }
thiserror = "2"
ext-php-rs = "*"
llama-cpp-2 = "*"
