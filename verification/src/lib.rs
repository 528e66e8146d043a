//! A verified engine for rewriting command-line argument streams.
//!
//! Raw argument tokens are parsed into a dialect-neutral representation
//! ([`ParsedArgs`]), edited in place by structured commands ([`Command`]),
//! and regenerated as tokens, under a configurable rule set ([`Gnu`]).

pub mod commands;
pub mod dialect;
pub mod full;
pub mod gnu;
pub mod grammar;
pub mod parsed_args;
pub mod shell;
pub mod strings;

pub use commands::{Command, CommandError, CommandParser};
pub use dialect::{parse_dialect, parse_dialect_string, Dialect, SimpleError};
pub use full::FullCommandParser;
pub use gnu::{Gnu, LongOptionArgumentFormat, PositionalArgumentsMode};
pub use grammar::{Grammar, GrammarError};
pub use parsed_args::{OptName, OptNameV, ParsedArgs, ParsedOpt};
