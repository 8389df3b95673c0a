//! The purge command: drops every completed todo from the collection. The
//! confirmation prompt, with the count of todos about to go, belongs to
//! the shell around the library.
use vstd::prelude::*;
use crate::data_service::views;
use crate::todo::{Todo, TodoView};

verus! {

/// The purge command carries no parameters.
#[derive(Debug)]
pub struct PurgeCommand {}

/// The number of completed todos in the collection: what a purge would
/// remove.
pub fn count_completed(todos: &Vec<Todo>) -> (r: usize)
    ensures
        r == views(todos@).filter(|t: TodoView| t.completed).len(),
{
    let ghost vs = views(todos@);
    let n = todos.len();
    let mut i: usize = 0;
    let mut count: usize = 0;
    proof {
        reveal(Seq::filter);
        assert(vs.take(0) =~= Seq::<TodoView>::empty());
    }
    loop
        invariant
            0 <= i <= n,
            n == vs.len(),
            vs == views(todos@),
            count == vs.take(i as int).filter(|t: TodoView| t.completed).len(),
            count <= i,
        ensures
            i == n,
            count == vs.take(i as int).filter(|t: TodoView| t.completed).len(),
        decreases n - i,
    {
        if i >= n {
            break;
        }
        proof {
            reveal(Seq::filter);
            assert(vs.take(i as int + 1).drop_last() =~= vs.take(i as int));
            assert(vs.take(i as int + 1).last() == vs[i as int]);
        }
        if todos[i].get_completed() {
            count += 1;
        }
        i += 1;
    }
    proof {
        assert(vs.take(n as int) =~= vs);
    }
    count
}

impl PurgeCommand {
    /// Retains only the todos that are not completed, in their original
    /// order.
    pub fn apply(&self, todos: &mut Vec<Todo>) -> (r: usize)
        ensures
            views(final(todos)@) == views(old(todos)@).filter(|t: TodoView| !t.completed),
            r == views(old(todos)@).filter(|t: TodoView| t.completed).len(),
    {
        let ghost vs = views(old(todos)@);
        let removed = count_completed(todos);
        let n = todos.len();
        let mut kept: Vec<Todo> = Vec::new();
        let mut i: usize = 0;
        proof {
            reveal(Seq::filter);
            assert(vs.take(0) =~= Seq::<TodoView>::empty());
            assert(views(kept@) =~= vs.take(0).filter(|t: TodoView| !t.completed));
        }
        loop
            invariant
                0 <= i <= n,
                n == vs.len(),
                vs == views(todos@),
                todos@ == old(todos)@,
                views(kept@) == vs.take(i as int).filter(|t: TodoView| !t.completed),
            ensures
                todos@ == old(todos)@,
                views(kept@) == vs.take(i as int).filter(|t: TodoView| !t.completed),
                i == n,
            decreases n - i,
        {
            if i >= n {
                break;
            }
            proof {
                reveal(Seq::filter);
                assert(vs.take(i as int + 1).drop_last() =~= vs.take(i as int));
                assert(vs.take(i as int + 1).last() == vs[i as int]);
            }
            if !todos[i].get_completed() {
                let ghost pre = views(kept@);
                kept.push(todos[i].clone());
                proof {
                    assert(views(kept@) =~= pre.push(vs[i as int]));
                }
            }
            i += 1;
        }
        proof {
            assert(vs.take(n as int) =~= vs);
        }
        *todos = kept;
        removed
    }
}

} // verus!
