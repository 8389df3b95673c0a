//! The edit command: validates an id plus at least one of a new title or
//! a new priority, and applies them to the matching active todo.
use vstd::prelude::*;
use crate::common_structs::{
    parse_u32, spec_parse_u32, spec_priority_from, CommandResult, Priority, TodoError,
};
use crate::data_service::{find_active_by_id, position_active_by_id, views};
use crate::text::{trim_seq, trim_str};
use crate::todo::{Todo, TodoView};

verus! {

/// A validated edit command: the id of the todo to change and the fields
/// to change on it.
#[derive(Debug)]
pub struct EditCommand {
    id: u32,
    title: Option<String>,
    priority: Option<Priority>,
}

impl EditCommand {
    /// The id to edit.
    pub closed spec fn spec_id(&self) -> u32 {
        self.id
    }

    /// The new title, if one was supplied.
    pub closed spec fn spec_title(&self) -> Option<Seq<char>> {
        match self.title {
            Some(t) => Some(t@),
            None => None,
        }
    }

    /// The new priority, if one was supplied.
    pub closed spec fn spec_priority(&self) -> Option<Priority> {
        self.priority
    }

    /// A validated edit supplies at least one field, and a supplied title
    /// is never blank.
    pub open spec fn wf(&self) -> bool {
        &&& (self.spec_title() is Some || self.spec_priority() is Some)
        &&& (self.spec_title() matches Some(t) ==> trim_seq(t).len() > 0)
    }

    pub fn get_id(&self) -> (r: u32)
        ensures
            r == self.spec_id(),
    {
        self.id
    }

    pub fn get_title(&self) -> (r: &Option<String>)
        ensures
            match r {
                Some(t) => self.spec_title() == Some(t@),
                None => self.spec_title() is None,
            },
    {
        &self.title
    }

    pub fn get_priority(&self) -> (r: Option<Priority>)
        ensures
            r == self.spec_priority(),
    {
        self.priority
    }

    /// Validates a parsed command: the value must parse as an id; a
    /// `priority` option must spell H, M or L; a `title` option must not
    /// be blank; and at least one of the two must be supplied.
    pub fn new_from_command_result(command_result: &CommandResult) -> (r: Result<
        EditCommand,
        TodoError,
    >)
        ensures
            ({
                let t = trim_seq(command_result@.value);
                let opts = command_result@.options;
                if t.len() == 0 {
                    r matches Err(e) && e == TodoError::EmptyValue
                } else {
                    match spec_parse_u32(t) {
                        Err(e0) => r matches Err(e) && e == e0,
                        Ok(id) => {
                            if opts.contains_key("priority"@) && spec_priority_from(
                                opts["priority"@],
                            ) is None {
                                r matches Err(e) && e == TodoError::InvalidPriority
                            } else if opts.contains_key("title"@) && trim_seq(
                                opts["title"@],
                            ).len() == 0 {
                                r matches Err(e) && e == TodoError::OptionTitleEmpty
                            } else if !opts.contains_key("priority"@) && !opts.contains_key(
                                "title"@,
                            ) {
                                r matches Err(e) && e == TodoError::NoOptionSupplied
                            } else {
                                r matches Ok(c) && c.wf() && c.spec_id() == id && c.spec_title()
                                    == (if opts.contains_key("title"@) {
                                    Some(opts["title"@])
                                } else {
                                    None
                                }) && c.spec_priority() == (if opts.contains_key("priority"@) {
                                    spec_priority_from(opts["priority"@])
                                } else {
                                    None
                                })
                            }
                        },
                    }
                }
            }),
    {
        let value = trim_str(command_result.get_value());
        if value.unicode_len() == 0 {
            return Err(TodoError::EmptyValue);
        }
        let id = match parse_u32(value) {
            Ok(id) => id,
            Err(e) => {
                return Err(e);
            },
        };
        let priority: Option<Priority> = match command_result.get_options().get("priority") {
            Some(val) => match Priority::from_string(val.as_str()) {
                Some(p) => Some(p),
                None => {
                    return Err(TodoError::InvalidPriority);
                },
            },
            None => None,
        };
        let title: Option<String> = match command_result.get_options().get("title") {
            Some(s) => {
                let tr = trim_str(s.as_str());
                if tr.unicode_len() == 0 {
                    return Err(TodoError::OptionTitleEmpty);
                }
                Some(String::from_str(s.as_str()))
            },
            None => None,
        };
        if title.is_none() && priority.is_none() {
            return Err(TodoError::NoOptionSupplied);
        }
        Ok(EditCommand { id, title, priority })
    }

    /// Applies the supplied fields to the first active todo holding the
    /// id; errors, leaving the collection unchanged, when there is none.
    pub fn apply(&self, todos: &mut Vec<Todo>) -> (r: Result<(), TodoError>)
        requires
            self.wf(),
        ensures
            ({
                let vs = views(old(todos)@);
                let idx = find_active_by_id(vs, self.spec_id());
                if idx == -1 {
                    r matches Err(e) && e == TodoError::NotFound(self.spec_id()) && views(
                        final(todos)@,
                    ) == vs
                } else {
                    r matches Ok(u) && views(final(todos)@) == vs.update(
                        idx,
                        (TodoView {
                            title: match self.spec_title() {
                                Some(t) => t,
                                None => vs[idx].title,
                            },
                            priority: match self.spec_priority() {
                                Some(p) => p,
                                None => vs[idx].priority,
                            },
                            ..vs[idx]
                        }),
                    )
                }
            }),
    {
        let ghost vs = views(old(todos)@);
        match position_active_by_id(todos, self.id) {
            None => Err(TodoError::NotFound(self.id)),
            Some(i) => {
                match &self.title {
                    Some(t) => {
                        let res = todos[i].set_title(t.as_str());
                        proof {
                            assert(res is Ok);
                        }
                    },
                    None => {},
                }
                match self.priority {
                    Some(p) => {
                        todos[i].set_priority(p);
                    },
                    None => {},
                }
                proof {
                    assert(views(todos@) =~= vs.update(
                        i as int,
                        (TodoView {
                            title: match self.spec_title() {
                                Some(t) => t,
                                None => vs[i as int].title,
                            },
                            priority: match self.spec_priority() {
                                Some(p) => p,
                                None => vs[i as int].priority,
                            },
                            ..vs[i as int]
                        }),
                    ));
                }
                Ok(())
            },
        }
    }
}

} // verus!
