[package]
name = "perp_clob"
version = "0.1.0"
edition = "2021"
publish = false

[dependencies]
rust_decimal = "=1.43.0"
rust_decimal_macros = "=1.40.0"
uuid = { version = "=1.29.0", features = ["v4", "serde"] }
chrono = { version = "=0.4.45", features = ["serde"] }
serde = { version = "=1.0.229", features = ["derive"] }
serde_json = { version = "=1.0.154", features = ["preserve_order"] }
fred = "=10.1.0"
tokio = { version = "=1.54.1", features = ["macros", "rt-multi-thread", "time"] }
actix-web = "=4.18.1"
argon2 = { version = "=0.5.3", features = ["std"] }
jsonwebtoken = "=9.3.1"
sqlx = { version = "=0.8.6", default-features = false, features = ["postgres", "runtime-tokio", "bigdecimal", "uuid", "chrono"] }
bigdecimal = { version = "=0.4.11", features = ["serde"] }
dotenvy = "=0.15.7"
