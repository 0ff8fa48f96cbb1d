[package]
name = "leonardo"
version = "0.1.0"
edition = "2021"
publish = false

[dependencies]
image = "*"
git2 = "*"
reqwest = { version = "*", default-features = false, features = ["json"] }
serde = { version = "*", features = ["derive"] }
teloxide = { version = "*", features = ["macros"] }
tokio = { version = "*", features = ["full"] }
time = { version = "*", features = ["formatting"] }
log = "*"
pretty_env_logger = "*"
dotenv = "*"
dptree = "*"
takecell = "=0.1.1"
