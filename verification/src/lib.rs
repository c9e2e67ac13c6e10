//! Core of a maze-exploration agent: the radar decoder, the visit-count
//! navigation engine, the shared secret table and the frame and message layer
//! of its wire protocol, each with a machine-checked contract.

pub mod text;
pub mod player;
pub mod navigation;
pub mod radar;
pub mod radar_shape;
pub mod display;
pub mod game;
pub mod frame;
pub mod json;
pub mod message;
pub mod config;
pub mod movement_log;
pub mod session;
