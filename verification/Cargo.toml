[package]
name = "king"
version = "0.1.0"
edition = "2021"
publish = false

[dependencies]
sha2 = "0.10"
argon2 = "0.5"
rand_core = { version = "0.6", features = ["getrandom"] }
dryoc = "*"
dotenv = "*"
rpassword = "*"
read_input = "*"
simplelog = "*"
log = "*"
