//! A live log viewer's core: hide, filter and highlight queries over a
//! stream of lines, the filtered index kept in step with the buffer, and the
//! viewport that follows the tail.

pub mod text;
pub mod pattern;
pub mod filter;
pub mod display;
pub mod log_state;
pub mod input;
pub mod source;
pub mod highlight;
pub mod wrap;
pub mod app;
pub mod viewport;
pub mod gui_state;
pub mod throttle;
pub mod listen;
