//! The fetch command: validates an id and looks the todo up, completed or
//! not, without changing anything.
use vstd::prelude::*;
use crate::common_structs::{parse_u32, spec_parse_u32, CommandResult, TodoError};
use crate::data_service::{find_by_id, position_by_id, views};
use crate::text::{trim_seq, trim_str};
use crate::todo::Todo;

verus! {

/// A validated fetch command: the id of the todo to display.
#[derive(Debug)]
pub struct FetchCommand {
    id: u32,
}

impl FetchCommand {
    /// The id to fetch.
    pub closed spec fn spec_id(&self) -> u32 {
        self.id
    }

    pub fn get_id(&self) -> (r: u32)
        ensures
            r == self.spec_id(),
    {
        self.id
    }

    /// Validates a parsed command: the free-text value, trimmed, must be
    /// non-empty and parse as an unsigned integer.
    pub fn new_from_command_result(command_result: &CommandResult) -> (r: Result<
        FetchCommand,
        TodoError,
    >)
        ensures
            ({
                let t = trim_seq(command_result@.value);
                if t.len() == 0 {
                    r matches Err(e) && e == TodoError::EmptyValue
                } else {
                    match spec_parse_u32(t) {
                        Ok(id) => r matches Ok(c) && c.spec_id() == id,
                        Err(e0) => r matches Err(e) && e == e0,
                    }
                }
            }),
    {
        let value = trim_str(command_result.get_value());
        if value.unicode_len() == 0 {
            return Err(TodoError::EmptyValue);
        }
        match parse_u32(value) {
            Ok(id) => Ok(FetchCommand { id }),
            Err(e) => Err(e),
        }
    }

    /// Returns a copy of the first todo holding the id, completed or not;
    /// errors when no todo holds it.
    pub fn apply(&self, todos: &Vec<Todo>) -> (r: Result<Todo, TodoError>)
        ensures
            ({
                let vs = views(todos@);
                let idx = find_by_id(vs, self.spec_id());
                if idx == -1 {
                    r matches Err(e) && e == TodoError::NotFound(self.spec_id())
                } else {
                    r matches Ok(t) && t@ == vs[idx]
                }
            }),
    {
        match position_by_id(todos, self.id) {
            None => Err(TodoError::NotFound(self.id)),
            Some(i) => Ok(todos[i].clone()),
        }
    }
}

} // verus!
