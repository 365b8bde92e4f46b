[package]
name = "tile_maze"
version = "0.1.0"
edition = "2021"
publish = false

[dependencies]
conrod_core = "=0.76.1"
conrod_piston = "=0.76.1"
find_folder = "=0.3.0"
log = "=0.4.34"
piston2d-graphics = "=0.40.0"
piston2d-opengl_graphics = "=0.78.0"
piston_window = "=0.120.0"
winit = "=0.24.0"
