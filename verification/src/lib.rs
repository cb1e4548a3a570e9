pub mod choices;
pub mod cli;
pub mod client;
pub mod config;
pub mod control;
pub mod curve;
pub mod device;
pub mod editor;
pub mod error;
pub mod gui;
pub mod ipc;
pub mod lighting;
pub mod nvidia;
pub mod palette;
pub mod panes;
pub mod picker;
pub mod protocol;
pub mod runner;
pub mod screens;
pub mod sensor;
pub mod server;
pub mod text;
pub mod theme;
