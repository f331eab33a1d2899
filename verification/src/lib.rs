pub mod common;
pub mod byte_order;
pub mod data_streaming;
pub mod wire_text;
pub mod capture;
pub mod screen_capture;
pub mod sender;
pub mod receiver;
pub mod annotations;
pub mod hotkey;
pub mod config;
pub mod metrics;
pub mod frame_grabber;
pub mod app;
pub mod multimonitor;
pub mod recorder_command;
pub mod ffmpeg_utils;
pub mod hotkeys;
