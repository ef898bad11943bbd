//! Toggles named blocks of `KEY=value` lines in an env file on and off.
//!
//! A block starts at a marker comment such as `# ++ prod ++` and ends at the
//! next blank line or the next marker. Selecting a name uncomments the lines
//! of the blocks with that name and comments out the lines of every other
//! block; everything else is left as it is.

pub mod laws;
pub mod lines;
pub mod marker;
pub mod parser;
pub mod utils;

pub use marker::Dialect;
pub use parser::{
    list_available_keywords, parse_as_active, parse_as_inactive, parse_env, parse_env_with,
    resolve_keyword, resolve_keyword_with, step, ParseStatus,
};
pub use utils::{Config, EnvContents};
