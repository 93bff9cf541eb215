//! A clipboard for files: paths are recorded in a store and later copied or
//! moved into a target directory.
//!
//! The library holds the decisions: how commands are read, how the store is
//! written and read back, and which filesystem steps a paste or a move takes.
//! The filesystem work itself is done by the caller.

pub mod command;
pub mod path;
pub mod store;
pub mod transfer;

pub use command::{
    command_of, expect_empty_arguments, expect_n_arguments, move_command, parse_command,
    paste_command, Command, CommandError, TransferRequest,
};
pub use path::{base_name, join};
pub use store::{clip_text, listing, store_lines, get_store_path, store_path_in, STORE_FILE_NAME};
pub use transfer::{Child, Notice, Outcome, PathKind, Step, Transfer};
