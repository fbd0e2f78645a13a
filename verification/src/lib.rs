//! An interpreter for an eight-instruction language that works on a tape of byte cells.
//!
//! Program text is first cleaned of comments and whitespace and checked for balance
//! ([`sanitizer`]), then run one instruction at a time on a [`machine::Machine`], or for many
//! steps at once with the input at hand ([`interpreter`]). The two `*_laws` modules hold what
//! is proved of the cleaning and of the machine beyond the contracts of their functions.

pub mod engine_laws;
pub mod error;
pub mod interpreter;
pub mod machine;
pub mod sanitizer;
pub mod sanitizer_laws;
mod sanitizer_lemmas;
pub mod text;

pub use error::{BfError, ErrorKind};
pub use interpreter::{execute_code, Execution, Run, NO_OUTPUT_NOTICE};
pub use machine::{Action, Machine, MemoryReport, TAPE_LENGTH};
pub use sanitizer::{sanitise_code, Traced};
