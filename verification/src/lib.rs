//! droidprobe: inspecting an Android device over ADB, the verified core.

pub mod command;
pub mod engine;
pub mod laws;
pub mod order;
pub mod parser;
pub mod render;
pub mod text;
pub mod tools;
pub mod tui;
