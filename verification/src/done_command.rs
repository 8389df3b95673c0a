//! The done command: validates an id from a parsed command and marks the
//! matching todo completed, stamping it with the current time.
use vstd::prelude::*;
use crate::common_structs::{spec_parse_u32, parse_u32, CommandResult, TodoError};
use crate::data_service::{find_by_id, position_by_id, views};
use crate::text::{trim_seq, trim_str};
use crate::todo::{Todo, TodoView, TS_LIMIT};

verus! {

/// `after` is `before` with the todo at `idx` marked completed and given
/// a representable completion timestamp, everything else unchanged.
pub open spec fn completes_at(before: Seq<TodoView>, after: Seq<TodoView>, idx: int) -> bool {
    &&& after.len() == before.len()
    &&& forall|j: int| 0 <= j < before.len() && j != idx ==> after[j] == before[j]
    &&& 0 <= idx < before.len()
    &&& after[idx] == (TodoView {
        completed: true,
        when_completed_utc: after[idx].when_completed_utc,
        ..before[idx]
    })
    &&& after[idx].when_completed_utc < TS_LIMIT
}

/// A validated done command: the id of the todo to complete.
#[derive(Debug)]
pub struct DoneCommand {
    id: u32,
}

impl DoneCommand {
    /// The id to complete.
    pub closed spec fn spec_id(&self) -> u32 {
        self.id
    }

    pub fn get_id(&self) -> (r: u32)
        ensures
            r == self.spec_id(),
    {
        self.id
    }

    /// Validates a parsed command: the free-text value, trimmed, must be
    /// non-empty and parse as an unsigned integer.
    pub fn new_from_command_result(command_result: &CommandResult) -> (r: Result<
        DoneCommand,
        TodoError,
    >)
        ensures
            ({
                let t = trim_seq(command_result@.value);
                if t.len() == 0 {
                    r matches Err(e) && e == TodoError::EmptyValue
                } else {
                    match spec_parse_u32(t) {
                        Ok(id) => r matches Ok(c) && c.spec_id() == id,
                        Err(e0) => r matches Err(e) && e == e0,
                    }
                }
            }),
    {
        let value = trim_str(command_result.get_value());
        if value.unicode_len() == 0 {
            return Err(TodoError::EmptyValue);
        }
        match parse_u32(value) {
            Ok(id) => Ok(DoneCommand { id }),
            Err(e) => Err(e),
        }
    }

    /// Completes the first todo holding the id: errors when no todo holds
    /// it or when that todo is already completed; otherwise sets the flag,
    /// stamps the completion time with the current time, and returns the
    /// completed todo's title.
    pub fn apply(&self, todos: &mut Vec<Todo>) -> (r: Result<String, TodoError>)
        ensures
            ({
                let vs = views(old(todos)@);
                let idx = find_by_id(vs, self.spec_id());
                if idx == -1 {
                    r matches Err(e) && e == TodoError::NotFound(self.spec_id()) && views(
                        final(todos)@,
                    ) == vs
                } else if vs[idx].completed {
                    r matches Err(e) && e == TodoError::AlreadyCompleted(self.spec_id()) && views(
                        final(todos)@,
                    ) == vs
                } else {
                    r matches Ok(title) && title@ == vs[idx].title && completes_at(
                        vs,
                        views(final(todos)@),
                        idx,
                    )
                }
            }),
    {
        let ghost vs = views(old(todos)@);
        match position_by_id(todos, self.id) {
            None => Err(TodoError::NotFound(self.id)),
            Some(i) => {
                if todos[i].get_completed() {
                    return Err(TodoError::AlreadyCompleted(self.id));
                }
                let todo_title = String::from_str(todos[i].get_title());
                todos[i].set_completed(true, None);
                proof {
                    assert(forall|j: int|
                        0 <= j < vs.len() && j != i ==> views(todos@)[j] == vs[j]);
                    assert(views(todos@)[i as int] == (TodoView {
                        completed: true,
                        when_completed_utc: views(todos@)[i as int].when_completed_utc,
                        ..vs[i as int]
                    }));
                }
                Ok(todo_title)
            },
        }
    }
}

} // verus!
