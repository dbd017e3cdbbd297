//! A small process debugger and the data structures that grew up around it.
//!
//! The debugger core launches nothing and prints nothing by itself: a front end
//! starts the target, reads the operator's commands and shows the answers. This
//! crate holds the rules in between, with their contracts.

pub mod debugger;
pub mod debugger_command;
pub mod hangman;
pub mod inferior;
pub mod linked_list;
pub mod rwc;
pub mod text;
pub mod tracing;
pub mod warmup;
pub mod word;
