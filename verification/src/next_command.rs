//! The next command: picks the todo to work on next — the active todo
//! that is least by priority (declaration order, `High` first), with ties
//! broken by the earlier creation time.
use vstd::prelude::*;
use crate::common_structs::prio_rank;
use crate::data_service::views;
use crate::todo::{Todo, TodoView};

verus! {

/// `a` comes no later than `b` in the next-up order: by priority rank,
/// then by creation time.
pub open spec fn next_le(a: TodoView, b: TodoView) -> bool {
    ||| prio_rank(a.priority) < prio_rank(b.priority)
    ||| (prio_rank(a.priority) == prio_rank(b.priority) && a.when_created_utc
        <= b.when_created_utc)
}

/// The next command carries no parameters.
#[derive(Debug)]
pub struct NextCommand {}

impl NextCommand {
    /// Picks an active todo that is least in the next-up order, or none
    /// when every todo is completed.
    pub fn apply(&self, todos: &Vec<Todo>) -> (r: Option<Todo>)
        ensures
            ({
                let vs = views(todos@);
                match r {
                    None => forall|i: int| 0 <= i < vs.len() ==> (#[trigger] vs[i]).completed,
                    Some(t) => !t@.completed && (exists|i: int|
                        0 <= i < vs.len() && vs[i] == t@) && (forall|j: int|
                        0 <= j < vs.len() && !(#[trigger] vs[j]).completed ==> next_le(t@, vs[j])),
                }
            }),
    {
        let ghost vs = views(todos@);
        let n = todos.len();
        let mut best: Option<usize> = None;
        let mut i: usize = 0;
        loop
            invariant
                0 <= i <= n,
                n == vs.len(),
                vs == views(todos@),
                match best {
                    None => forall|k: int| 0 <= k < i ==> (#[trigger] vs[k]).completed,
                    Some(b) => 0 <= b < i && !vs[b as int].completed && (forall|k: int|
                        0 <= k < i && !(#[trigger] vs[k]).completed ==> next_le(
                            vs[b as int],
                            vs[k],
                        )),
                },
            ensures
                i == n,
                match best {
                    None => forall|k: int| 0 <= k < n ==> (#[trigger] vs[k]).completed,
                    Some(b) => 0 <= b < n && !vs[b as int].completed && (forall|k: int|
                        0 <= k < n && !(#[trigger] vs[k]).completed ==> next_le(
                            vs[b as int],
                            vs[k],
                        )),
                },
            decreases n - i,
        {
            if i >= n {
                break;
            }
            if !todos[i].get_completed() {
                let replace = match best {
                    None => true,
                    Some(b) => {
                        let rb = priority_rank(todos[b].get_priority());
                        let ri = priority_rank(todos[i].get_priority());
                        let cb = todos[b].get_when_created_utc();
                        let ci = todos[i].get_when_created_utc();
                        ri < rb || (ri == rb && ci < cb)
                    },
                };
                if replace {
                    best = Some(i);
                }
            }
            i += 1;
        }
        match best {
            None => None,
            Some(b) => Some(todos[b].clone()),
        }
    }
}

/// The rank of a priority in the declaration order.
fn priority_rank(p: crate::common_structs::Priority) -> (r: u8)
    ensures
        r == prio_rank(p),
{
    match p {
        crate::common_structs::Priority::High => 0,
        crate::common_structs::Priority::Medium => 1,
        crate::common_structs::Priority::Low => 2,
    }
}

} // verus!
