//! The verified core of veil: a small tiling Wayland compositor that can show
//! its windows on a monitor or inside a text terminal, with its launcher,
//! login helper and command line.

pub mod args;
pub mod btn;
pub mod canvas;
pub mod capture;
pub mod cli;
pub mod config;
pub mod environment;
pub mod font5x7;
pub mod gpu;
pub mod input;
pub mod json;
pub mod keycodes;
pub mod keys;
pub mod kitty;
pub mod launcher;
pub mod layout;
pub mod lockfile;
pub mod login;
pub mod output;
pub mod overlay;
pub mod paths;
pub mod ratio;
pub mod render;
pub mod scene;
pub mod screencopy;
pub mod server;
pub mod session;
pub mod state;
pub mod surface;
pub mod terminal;
pub mod text;
pub mod tui;
pub mod virtual_input;
pub mod windows;
pub mod xkb_mod;
