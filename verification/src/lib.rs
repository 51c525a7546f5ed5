//! A relay that carries the standard streams of a program over MQTT.
//!
//! The user side sends what it reads from its standard input to a node, and writes what comes back.
//! The work side of the node runs a child process for every client. This crate holds what both
//! sides compute and decide; connecting, reading, writing and running processes is left to the
//! program around it.
pub mod text;
pub mod encoding;
pub mod json;
pub mod message;
pub mod ordering;
pub mod mqtt_client;
pub mod cli;
pub mod config;
pub mod user_mode;
pub mod work_mode;
