[package]
name = "axiomd"
version = "0.1.0"
edition = "2021"
publish = false

[dependencies]
glib = "*"
gtk4 = "*"
libadwaita = "*"
webkit6 = "*"
sourceview5 = "*"
libspelling = "*"
lopdf = "*"
