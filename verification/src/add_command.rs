//! The add command: validates a parsed command into a title and a
//! priority, and appends a new todo to the collection under the next
//! available id.
use vstd::prelude::*;
use crate::common_structs::{spec_priority_from, CommandResult, Priority, TodoError};
use crate::data_service::{add_todo, id_taken, ids_bounded, views};
use crate::text::{trim_seq, trim_str};
use crate::todo::{Todo, TodoView, TS_LIMIT};

verus! {

/// `after` is `before` with one todo appended: the new todo carries the
/// given id, title and priority, is not completed, holds the epoch-zero
/// completion sentinel, and was created at some representable time.
pub open spec fn adds_todo(
    before: Seq<TodoView>,
    after: Seq<TodoView>,
    id: u32,
    title: Seq<char>,
    priority: Priority,
) -> bool {
    &&& after.len() == before.len() + 1
    &&& forall|j: int| 0 <= j < before.len() ==> after[j] == before[j]
    &&& after.last() == (TodoView {
        id,
        title,
        priority,
        when_created_utc: after.last().when_created_utc,
        completed: false,
        when_completed_utc: 0,
    })
    &&& after.last().when_created_utc < TS_LIMIT
}

/// A validated add command: a non-blank title and a priority.
#[derive(Debug)]
pub struct AddCommand {
    title: String,
    priority: Priority,
}

impl AddCommand {
    /// The title to be added.
    pub closed spec fn spec_title(&self) -> Seq<char> {
        self.title@
    }

    /// The priority to be added.
    pub closed spec fn spec_priority(&self) -> Priority {
        self.priority
    }

    /// A validated add command carries a non-blank title.
    pub open spec fn wf(&self) -> bool {
        trim_seq(self.spec_title()).len() > 0
    }

    pub fn get_title(&self) -> (r: &str)
        ensures
            r@ == self.spec_title(),
    {
        self.title.as_str()
    }

    pub fn get_priority(&self) -> (r: Priority)
        ensures
            r == self.spec_priority(),
    {
        self.priority
    }

    /// Accepts any non-blank title; fails with `EmptyValue` otherwise.
    pub fn new(title: &str, priority: Priority) -> (r: Result<AddCommand, TodoError>)
        ensures
            trim_seq(title@).len() == 0 ==> (r matches Err(e) && e == TodoError::EmptyValue),
            trim_seq(title@).len() > 0 ==> (r matches Ok(c) && c.spec_title() == title@
                && c.spec_priority() == priority && c.wf()),
    {
        let tr = trim_str(title);
        if tr.unicode_len() == 0 {
            return Err(TodoError::EmptyValue);
        }
        Ok(AddCommand { title: String::from_str(title), priority })
    }

    /// Validates a parsed command: the free-text value must be non-blank,
    /// and the `priority` option, when present, must spell H, M or L
    /// (upper or lower case); without it the priority defaults to `Low`.
    pub fn new_from_command_result(command_result: &CommandResult) -> (r: Result<
        AddCommand,
        TodoError,
    >)
        ensures
            ({
                let v = command_result@.value;
                let opts = command_result@.options;
                if trim_seq(v).len() == 0 {
                    r matches Err(e) && e == TodoError::EmptyValue
                } else if opts.contains_key("priority"@) && spec_priority_from(opts["priority"@])
                    is None {
                    r matches Err(e) && e == TodoError::InvalidPriority
                } else {
                    r matches Ok(c) && c.wf() && c.spec_title() == v && Some(c.spec_priority())
                        == (if opts.contains_key("priority"@) {
                        spec_priority_from(opts["priority"@])
                    } else {
                        Some(Priority::Low)
                    })
                }
            }),
    {
        let value = command_result.get_value();
        let tr = trim_str(value);
        if tr.unicode_len() == 0 {
            return Err(TodoError::EmptyValue);
        }
        let priority = match command_result.get_options().get("priority") {
            Some(p) => match Priority::from_string(p.as_str()) {
                Some(pr) => pr,
                None => {
                    return Err(TodoError::InvalidPriority);
                },
            },
            None => Priority::Low,
        };
        let add_command = AddCommand::new(value, priority);
        add_command
    }

    /// Builds the new todo, assigns it the lowest id no active todo holds,
    /// and appends it; the creation time is the current time.
    pub fn apply(&self, todos: &mut Vec<Todo>) -> (r: Result<u32, TodoError>)
        requires
            self.wf(),
            ids_bounded(views(old(todos)@)),
        ensures
            r matches Ok(id) && id >= 1 && !id_taken(views(old(todos)@), id) && (forall|c: u32|
                1 <= c < id ==> id_taken(views(old(todos)@), c)) && adds_todo(
                views(old(todos)@),
                views(final(todos)@),
                id,
                self.spec_title(),
                self.spec_priority(),
            ),
    {
        let now = crate::todo::now_utc();
        match Todo::new(0, self.title.as_str(), self.priority, now) {
            Ok(todo) => {
                let id_assigned = add_todo(todos, todo);
                Ok(id_assigned)
            },
            Err(e) => {
                proof {
                    assert(false);
                }
                Err(e)
            },
        }
    }
}

} // verus!
