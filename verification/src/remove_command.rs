//! The remove command: validates an id, finds the matching active todo,
//! and removes it from the collection. The confirmation prompt between
//! finding and removing belongs to the shell around the library.
use vstd::prelude::*;
use crate::common_structs::{parse_u32, spec_parse_u32, CommandResult, TodoError};
use crate::data_service::{find_active_by_id, position_active_by_id, views};
use crate::text::{trim_seq, trim_str};
use crate::todo::Todo;

verus! {

/// A validated remove command: the id of the todo to delete.
#[derive(Debug)]
pub struct RemoveCommand {
    id: u32,
}

impl RemoveCommand {
    /// The id to remove.
    pub closed spec fn spec_id(&self) -> u32 {
        self.id
    }

    pub fn get_id(&self) -> (r: u32)
        ensures
            r == self.spec_id(),
    {
        self.id
    }

    /// Validates a parsed command: the free-text value, trimmed, must be
    /// non-empty and parse as an unsigned integer.
    pub fn new_from_command_result(command_result: &CommandResult) -> (r: Result<
        RemoveCommand,
        TodoError,
    >)
        ensures
            ({
                let t = trim_seq(command_result@.value);
                if t.len() == 0 {
                    r matches Err(e) && e == TodoError::EmptyValue
                } else {
                    match spec_parse_u32(t) {
                        Ok(id) => r matches Ok(c) && c.spec_id() == id,
                        Err(e0) => r matches Err(e) && e == e0,
                    }
                }
            }),
    {
        let value = trim_str(command_result.get_value());
        if value.unicode_len() == 0 {
            return Err(TodoError::EmptyValue);
        }
        match parse_u32(value) {
            Ok(id) => Ok(RemoveCommand { id }),
            Err(e) => Err(e),
        }
    }

    /// Finds the first active todo holding the id, so that the shell can
    /// ask for confirmation before removing; errors when there is none.
    pub fn find_index(&self, todos: &Vec<Todo>) -> (r: Result<usize, TodoError>)
        ensures
            ({
                let idx = find_active_by_id(views(todos@), self.spec_id());
                if idx == -1 {
                    r matches Err(e) && e == TodoError::NotFound(self.spec_id())
                } else {
                    r matches Ok(i) && i == idx
                }
            }),
    {
        match position_active_by_id(todos, self.id) {
            None => Err(TodoError::NotFound(self.id)),
            Some(i) => Ok(i),
        }
    }

    /// Removes the first active todo holding the id; errors, leaving the
    /// collection unchanged, when there is none.
    pub fn apply(&self, todos: &mut Vec<Todo>) -> (r: Result<(), TodoError>)
        ensures
            ({
                let vs = views(old(todos)@);
                let idx = find_active_by_id(vs, self.spec_id());
                if idx == -1 {
                    r matches Err(e) && e == TodoError::NotFound(self.spec_id()) && views(
                        final(todos)@,
                    ) == vs
                } else {
                    r matches Ok(u) && views(final(todos)@) == vs.remove(idx)
                }
            }),
    {
        let ghost vs = views(old(todos)@);
        match position_active_by_id(todos, self.id) {
            None => Err(TodoError::NotFound(self.id)),
            Some(i) => {
                todos.remove(i);
                proof {
                    assert(views(todos@) =~= vs.remove(i as int));
                }
                Ok(())
            },
        }
    }
}

} // verus!
