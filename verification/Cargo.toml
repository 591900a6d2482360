[package]
name = "mvp_screen"
version = "0.1.0"
edition = "2021"
publish = false

[dependencies]
dotenv = "*"
rust_decimal = "*"
rust_decimal_macros = "*"
sqlx = { version = "*", default-features = false, features = ["runtime-tokio", "postgres", "rust_decimal"] }
tokio = { version = "*", default-features = false, features = ["rt-multi-thread", "macros"] }
