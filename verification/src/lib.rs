//! A developer console core: command-line parsing, completion, command
//! recall, runtime aliases and key bindings, and transcript persistence.

pub mod aliases;
pub mod args;
pub mod buffer;
pub mod commands;
pub mod completion;
pub mod config;
pub mod execution;
pub mod input;
pub mod int_table;
pub mod keys;
pub mod logging;
pub mod model;
pub mod parser;
pub mod table;
pub mod persistence;
pub mod registry;
pub mod saving;
pub mod resources;
pub mod states;
pub mod state;
pub mod text;
pub mod view;

pub use aliases::ConsoleAliases;
pub use args::Args;
pub use buffer::{ConsoleBuffer, ConsoleLevel, ConsoleLine, ConsoleLineMessage, ConsoleLineSource, ConsoleResult};
pub use model::{
    ArgumentKind, ArgumentSpec, CommandOrigin, CommandSpec, CompletionItem, CompletionRequest,
    ConsoleCommandExecuted, ConsoleCommandQueue, ConsoleRequest, QueuedConsoleRequest,
};
pub use parser::{ParseError, ParsedInput, ParsedToken, QuoteStyle};
