//! A line-oriented editor for a buffer of 32-bit code points: a parser for
//! its small command language and an engine that applies the commands.

pub mod cmd;
pub mod command_list;
pub mod engine;
pub mod text;
pub mod validator;

pub use cmd::{capture, parse_insertion, parse_kill, parse_modify};
pub use command_list::{Commands, EncodingType, RawBase};
pub use engine::{bitsplitter, render_buffer, Editor, Outcome};
pub use validator::{final_check, string_exact_check};
