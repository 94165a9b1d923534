//! A minimal text-menu framework for interactive command-line programs: a
//! menu renders a numbered list of labeled options plus a terminal exit
//! entry, reads a selection through a retrying input parser, and dispatches
//! to the chosen option's action until the exit entry is selected.
pub mod menu;
pub mod parse;
pub mod parser;
pub mod stream;
pub mod text;

pub use menu::{CliOption, Dispatch, Menu, MenuType};
pub use parser::parse_std_in;
