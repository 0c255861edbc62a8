//! Verified core logic of the waywallen wallpaper daemon: setting schemas,
//! wallpaper ordering, path handling, the self-test argument protocol and
//! the consumer-release bookkeeping of the frame reaper.

pub mod text;
pub mod control_proto;
pub mod wallpaper_type;
pub mod wallpaper;
pub mod queue;
pub mod self_test;
pub mod sync;
pub mod tray;
pub mod model;
