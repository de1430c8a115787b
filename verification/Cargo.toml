[package]
name = "tp-updater"
version = "0.1.0"
edition = "2021"
publish = false

[dependencies]
chrono = "0.4"
dotenvy = "*"
gloo-console = "*"
gloo-dialogs = "*"
gloo-net = "*"
leptos = "*"
leptos_meta = "*"
leptos_router = "*"
sqlx = { version = "*", default-features = false, features = ["postgres", "runtime-tokio", "chrono"] }
web-sys = { version = "*", features = ["HtmlInputElement"] }
yew = { version = "*", features = ["csr"] }
