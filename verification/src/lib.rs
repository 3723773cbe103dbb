//! The core of a browser-based Rust source viewer: which page a request asks
//! for, how a file is shown line by line, where a name is defined and used, and
//! how the news of a running build reaches the browser.

pub mod file_controller;
pub mod number;
pub mod path;
pub mod server;
pub mod text;
