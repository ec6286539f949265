//! Keyboard and pointer sharing between two paired computers.
pub mod activity;
pub mod bridge;
pub mod capture_probe;
pub mod codes;
pub mod comments;
pub mod control;
pub mod coordinator;
pub mod desktop;
pub mod doctor;
pub mod document;
pub mod edges;
pub mod ei;
pub mod error;
pub mod geometry;
pub mod hex;
pub mod identity;
pub mod input;
pub mod laws;
pub mod manager;
pub mod net_probe;
pub mod niri;
pub mod number;
pub mod pointer;
pub mod portal;
pub mod protocol;
pub mod receiver;
pub mod session;
pub mod text;
pub mod touchpad;
pub mod transport;
pub mod uinput;
pub mod verify_input;
