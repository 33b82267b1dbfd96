//! Aggregation engine of a live dashboard for web-server access logs.
//!
//! - [`parser`] reads one line of the log into a [`request::Request`], or
//!   rejects it as a whole.
//! - [`stats`] keeps the running counters, four [`histogram`]s and the window
//!   of the latest requests.
//! - [`control`] maps key presses to commands and holds the view state that
//!   the commands drive.
//! - [`table`] joins path counts with sample requests and sorts the rows;
//!   [`screen`] derives what one tick shows, and [`render`] its lines.
//! - [`text`] orders strings and reads decimal numbers.
//!
//! The library holds no clock, stream or thread: a front end reads the log
//! and the keys, guards the statistics, and draws the frames.
pub mod control;
pub mod histogram;
pub mod parser;
pub mod render;
pub mod request;
pub mod screen;
pub mod stats;
pub mod table;
pub mod text;
