//! The persisted todo entity: id, title, priority, creation timestamp,
//! completion flag and completion timestamp, with validation on
//! construction and mutation. Timestamps are whole seconds since the Unix
//! epoch, in UTC.
use vstd::prelude::*;
use crate::common_structs::{Priority, TodoError};
use crate::text::{trim_seq, trim_str};

verus! {

/// Seconds from 1970-01-01 00:00:00 to 10000-01-01 00:00:00: the first
/// timestamp that the store's fixed four-digit-year layout cannot hold.
/// Every timestamp a todo carries stays below this bound.
pub const TS_LIMIT: u64 = 253402300800;

/// The mathematical content of a todo.
pub struct TodoView {
    pub id: u32,
    pub title: Seq<char>,
    pub priority: Priority,
    pub when_created_utc: u64,
    pub completed: bool,
    pub when_completed_utc: u64,
}

/// A todo is well formed when its title is not blank and its timestamps
/// are representable in the store's layout.
pub open spec fn todo_wf(t: TodoView) -> bool {
    &&& trim_seq(t.title).len() > 0
    &&& t.when_created_utc < TS_LIMIT
    &&& t.when_completed_utc < TS_LIMIT
}

/// A todo record. The title is never blank after construction or
/// mutation; the completion timestamp is meaningful only while
/// `completed` holds and is the epoch-zero sentinel otherwise.
#[derive(Debug)]
pub struct Todo {
    id: u32,
    title: String,
    priority: Priority,
    when_created_utc: u64,
    completed: bool,
    when_completed_utc: u64,
}

impl View for Todo {
    type V = TodoView;

    closed spec fn view(&self) -> TodoView {
        TodoView {
            id: self.id,
            title: self.title@,
            priority: self.priority,
            when_created_utc: self.when_created_utc,
            completed: self.completed,
            when_completed_utc: self.when_completed_utc,
        }
    }
}

impl Clone for Todo {
    fn clone(&self) -> (r: Self)
        ensures
            r@ == self@,
    {
        Todo {
            id: self.id,
            title: self.title.clone(),
            priority: self.priority,
            when_created_utc: self.when_created_utc,
            completed: self.completed,
            when_completed_utc: self.when_completed_utc,
        }
    }
}

/// Relies on `chrono::Utc::now` and `chrono::DateTime::timestamp` for the
/// current time as whole seconds since the Unix epoch. Nothing is assumed
/// about the value returned.
#[verifier::external_body]
fn epoch_seconds_now() -> i64 {
    chrono::Utc::now().timestamp()
}

/// The current time in whole seconds since the Unix epoch, clamped into
/// the range that the store can represent.
pub fn now_utc() -> (t: u64)
    ensures
        t < TS_LIMIT,
{
    let raw = epoch_seconds_now();
    if raw < 0 {
        0
    } else if raw as u64 >= TS_LIMIT {
        TS_LIMIT - 1
    } else {
        raw as u64
    }
}

impl Todo {
    /// Reassembles a stored todo from its parsed fields. The store layer
    /// does not re-validate titles: a stored record is taken as it is.
    pub(crate) fn from_parts(
        id: u32,
        title: String,
        priority: Priority,
        when_created_utc: u64,
        completed: bool,
        when_completed_utc: u64,
    ) -> (r: Todo)
        ensures
            r@ == (TodoView {
                id,
                title: title@,
                priority,
                when_created_utc,
                completed,
                when_completed_utc,
            }),
    {
        Todo { id, title, priority, when_created_utc, completed, when_completed_utc }
    }

    /// Builds a todo with the given fields, not yet completed and with the
    /// epoch-zero completion sentinel; fails when the title is blank.
    pub fn new(id: u32, title: &str, priority: Priority, when_created_utc: u64) -> (r: Result<
        Todo,
        TodoError,
    >)
        requires
            when_created_utc < TS_LIMIT,
        ensures
            trim_seq(title@).len() == 0 ==> (r matches Err(e) && e == TodoError::TitleRequired),
            trim_seq(title@).len() > 0 ==> (r matches Ok(t) && t@ == (TodoView {
                id,
                title: title@,
                priority,
                when_created_utc,
                completed: false,
                when_completed_utc: 0,
            }) && todo_wf(t@)),
    {
        let tr = trim_str(title);
        if tr.unicode_len() == 0 {
            return Err(TodoError::TitleRequired);
        }
        Ok(
            Todo {
                id,
                title: String::from_str(title),
                priority,
                when_created_utc,
                completed: false,
                when_completed_utc: 0,
            },
        )
    }

    pub fn get_id(&self) -> (r: u32)
        ensures
            r == self@.id,
    {
        self.id
    }

    pub fn get_title(&self) -> (r: &str)
        ensures
            r@ == self@.title,
    {
        self.title.as_str()
    }

    pub fn get_priority(&self) -> (r: Priority)
        ensures
            r == self@.priority,
    {
        self.priority
    }

    pub fn get_completed(&self) -> (r: bool)
        ensures
            r == self@.completed,
    {
        self.completed
    }

    /// The creation time, in seconds since the Unix epoch (UTC).
    pub fn get_when_created_utc(&self) -> (r: u64)
        ensures
            r == self@.when_created_utc,
    {
        self.when_created_utc
    }

    /// The completion time, in seconds since the Unix epoch (UTC);
    /// the epoch-zero sentinel while the todo is not completed.
    pub fn get_when_completed_utc(&self) -> (r: u64)
        ensures
            r == self@.when_completed_utc,
    {
        self.when_completed_utc
    }

    /// The sentinel completion timestamp: the Unix epoch itself.
    pub fn get_default_completed_date() -> (r: u64)
        ensures
            r == 0,
    {
        0
    }

    pub fn set_id(&mut self, id: u32)
        ensures
            final(self)@ == (TodoView { id, ..old(self)@ }),
    {
        self.id = id;
    }

    /// Replaces the title; fails, leaving the todo unchanged, when the new
    /// title is blank.
    pub fn set_title(&mut self, title: &str) -> (r: Result<(), TodoError>)
        ensures
            trim_seq(title@).len() == 0 ==> (r matches Err(e) && e == TodoError::TitleEmpty
                && final(self)@ == old(self)@),
            trim_seq(title@).len() > 0 ==> (r matches Ok(u) && final(self)@ == (TodoView {
                title: title@,
                ..old(self)@
            })),
    {
        let tr = trim_str(title);
        if tr.unicode_len() == 0 {
            return Err(TodoError::TitleEmpty);
        }
        self.title = String::from_str(title);
        Ok(())
    }

    pub fn set_priority(&mut self, priority: Priority)
        ensures
            final(self)@ == (TodoView { priority, ..old(self)@ }),
    {
        self.priority = priority;
    }

    /// Sets the completion flag. The completion timestamp becomes the
    /// explicit value when one is given, and the current time otherwise —
    /// also when the flag is being cleared.
    pub fn set_completed(&mut self, value: bool, when_completed: Option<u64>)
        requires
            when_completed matches Some(d) ==> d < TS_LIMIT,
        ensures
            final(self)@.completed == value,
            final(self)@.id == old(self)@.id,
            final(self)@.title == old(self)@.title,
            final(self)@.priority == old(self)@.priority,
            final(self)@.when_created_utc == old(self)@.when_created_utc,
            when_completed matches Some(d) ==> final(self)@.when_completed_utc == d,
            when_completed is None ==> final(self)@.when_completed_utc < TS_LIMIT,
    {
        self.completed = value;
        match when_completed {
            Some(date) => self.when_completed_utc = date,
            None => self.when_completed_utc = now_utc(),
        }
    }
}

} // verus!
