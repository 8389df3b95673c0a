//! A verified core for a command-line todo-list manager: the argument
//! tokenizer and classifier, the todo entity, the identity assigner, and
//! the store codec, with contracts on every public operation.
pub mod add_command;
pub mod args_analyzer;
pub mod common_structs;
pub mod data_service;
pub mod dates;
pub mod done_command;
pub mod edit_command;
pub mod fetch_command;
pub mod list_command;
pub mod next_command;
pub mod purge_command;
pub mod remove_command;
pub mod store;
pub mod text;
pub mod todo;
