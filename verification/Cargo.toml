[package]
name = "credit_store_demo"
version = "0.1.0"
edition = "2021"
publish = false

[dependencies]
chrono = "0.4"
crc32fast = "1"
deterministic-hash = "*"
diesel = { version = "2", features = ["sqlite", "returning_clauses_for_sqlite_3_35"] }
diesel-derive-enum = { version = "2", features = ["sqlite"] }
diesel-derive-newtype = "*"
dotenvy = "*"
env_logger = "*"
log = "0.4"
shi = "*"
strum = { version = "*", features = ["derive"] }
tabled = "*"
tap = "1"
thiserror = "*"
