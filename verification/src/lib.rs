//! Monitoring of an internet link: what is normal, what is wrong, and why.
pub mod app;
pub mod calendar;
pub mod config;
pub mod control;
pub mod detector;
pub mod dns;
pub mod exact;
pub mod export;
pub mod gateway;
pub mod insight;
pub mod intake;
pub mod laws;
pub mod net;
pub mod panels;
pub mod pool;
pub mod probe;
pub mod round;
pub mod session;
pub mod settings;
pub mod sound;
pub mod state;
pub mod stats;
pub mod targets;
pub mod text;
pub mod time;
pub mod ui;
pub mod wifi;
