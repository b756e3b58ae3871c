//! Rule-based input dispatcher: match an input string against glob and regex
//! rules, substitute it into a shell command template, and decide how to run it.

pub mod text;
pub mod error;
pub mod rule_set;
pub mod rrr;
pub mod dispatch;
