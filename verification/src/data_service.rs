//! The identity engine of the persistence layer: assigning the lowest
//! positive id that no active todo holds, and appending a new todo to the
//! in-memory collection under that id. Ids of completed todos are
//! deliberately eligible for reuse.
use vstd::prelude::*;
use crate::todo::{Todo, TodoView};

verus! {

/// The views of a todo collection, element for element.
pub open spec fn views(s: Seq<Todo>) -> Seq<TodoView> {
    s.map_values(|t: Todo| t@)
}

/// Some active (not completed) todo of `s` holds id `c`.
pub open spec fn id_taken(s: Seq<TodoView>, c: u32) -> bool {
    exists|i: int| 0 <= i < s.len() && s[i].id == c && !s[i].completed
}

/// Every active todo's id leaves room for one more candidate.
pub open spec fn ids_bounded(s: Seq<TodoView>) -> bool {
    forall|i: int| 0 <= i < s.len() ==> (#[trigger] s[i]).completed || s[i].id < 0xFFFF_FFFFu32
}

fn is_id_taken(todos: &Vec<Todo>, c: u32) -> (r: bool)
    ensures
        r == id_taken(views(todos@), c),
{
    let n = todos.len();
    let mut i: usize = 0;
    loop
        invariant
            0 <= i <= n,
            n == todos@.len(),
            forall|k: int|
                0 <= k < i ==> !((#[trigger] views(todos@)[k]).id == c && !views(
                    todos@,
                )[k].completed),
        ensures
            i == n,
            !id_taken(views(todos@), c),
        decreases n - i,
    {
        if i >= n {
            break;
        }
        if todos[i].get_id() == c && !todos[i].get_completed() {
            proof {
                assert(views(todos@)[i as int].id == c && !views(todos@)[i as int].completed);
            }
            return true;
        }
        i += 1;
    }
    false
}

/// The lowest positive integer that no active todo currently holds as its
/// id. Ids of completed todos are reused; ids of active todos are not.
pub fn find_next_available_todo_id(todos: &Vec<Todo>) -> (r: u32)
    requires
        ids_bounded(views(todos@)),
    ensures
        r >= 1,
        !id_taken(views(todos@), r),
        forall|c: u32| 1 <= c < r ==> id_taken(views(todos@), c),
{
    let ghost vs = views(todos@);
    let n = todos.len();
    let mut max_active: u32 = 0;
    let mut i: usize = 0;
    loop
        invariant
            0 <= i <= n,
            n == vs.len(),
            vs == views(todos@),
            ids_bounded(vs),
            max_active < 0xFFFF_FFFFu32,
            forall|k: int| 0 <= k < i ==> (#[trigger] vs[k]).completed || vs[k].id <= max_active,
        ensures
            max_active < 0xFFFF_FFFFu32,
            forall|k: int| 0 <= k < n ==> (#[trigger] vs[k]).completed || vs[k].id <= max_active,
        decreases n - i,
    {
        if i >= n {
            break;
        }
        if !todos[i].get_completed() && todos[i].get_id() > max_active {
            max_active = todos[i].get_id();
            proof {
                assert(!(#[trigger] vs[i as int]).completed && vs[i as int].id == max_active);
            }
        }
        i += 1;
    }
    let mut available_id: u32 = 1;
    loop
        invariant
            1 <= available_id <= max_active + 1,
            vs == views(todos@),
            max_active < 0xFFFF_FFFFu32,
            forall|k: int| 0 <= k < vs.len() ==> (#[trigger] vs[k]).completed || vs[k].id
                <= max_active,
            forall|c: u32| 1 <= c < available_id ==> id_taken(vs, c),
        decreases max_active + 1 - available_id,
    {
        if !is_id_taken(todos, available_id) {
            return available_id;
        }
        proof {
            let w = choose|w: int|
                0 <= w < vs.len() && vs[w].id == available_id && !vs[w].completed;
            assert(vs[w].id <= max_active);
        }
        available_id = available_id + 1;
    }
}

/// The index of the first todo holding id `id`, or -1 if there is none.
pub open spec fn find_by_id(s: Seq<TodoView>, id: u32) -> int
    decreases s.len(),
{
    if s.len() == 0 {
        -1
    } else if s[0].id == id {
        0
    } else {
        let r = find_by_id(s.drop_first(), id);
        if r == -1 {
            -1
        } else {
            r + 1
        }
    }
}

/// The index of the first active todo holding id `id`, or -1.
pub open spec fn find_active_by_id(s: Seq<TodoView>, id: u32) -> int
    decreases s.len(),
{
    if s.len() == 0 {
        -1
    } else if s[0].id == id && !s[0].completed {
        0
    } else {
        let r = find_active_by_id(s.drop_first(), id);
        if r == -1 {
            -1
        } else {
            r + 1
        }
    }
}

proof fn lemma_find_by_id_props(s: Seq<TodoView>, id: u32)
    ensures
        find_by_id(s, id) >= -1,
        find_by_id(s, id) == -1 ==> forall|i: int| 0 <= i < s.len() ==> (#[trigger] s[i]).id != id,
        find_by_id(s, id) >= 0 ==> 0 <= find_by_id(s, id) < s.len() && s[find_by_id(s, id)].id
            == id && forall|k: int| 0 <= k < find_by_id(s, id) ==> (#[trigger] s[k]).id != id,
    decreases s.len(),
{
    if s.len() > 0 && !(s[0].id == id) {
        let t = s.drop_first();
        lemma_find_by_id_props(t, id);
        assert(forall|i: int| 0 <= i < t.len() ==> (#[trigger] t[i]) == s[i + 1]);
        if find_by_id(t, id) == -1 {
            assert forall|i: int| 0 <= i < s.len() implies (#[trigger] s[i]).id != id by {
                if i > 0 {
                    assert(t[i - 1].id != id);
                }
            }
        } else {
            let f = find_by_id(t, id);
            assert(s[f + 1] == t[f]);
            assert forall|k: int| 0 <= k < f + 1 implies (#[trigger] s[k]).id != id by {
                if k > 0 {
                    assert(t[k - 1].id != id);
                }
            }
        }
    }
}

proof fn lemma_find_active_by_id_props(s: Seq<TodoView>, id: u32)
    ensures
        find_active_by_id(s, id) >= -1,
        find_active_by_id(s, id) == -1 ==> forall|i: int|
            0 <= i < s.len() ==> !((#[trigger] s[i]).id == id && !s[i].completed),
        find_active_by_id(s, id) >= 0 ==> 0 <= find_active_by_id(s, id) < s.len() && s[
            find_active_by_id(s, id)
        ].id == id && !s[find_active_by_id(s, id)].completed && forall|k: int|
            0 <= k < find_active_by_id(s, id) ==> !((#[trigger] s[k]).id == id
                && !s[k].completed),
    decreases s.len(),
{
    if s.len() > 0 && !(s[0].id == id && !s[0].completed) {
        let t = s.drop_first();
        lemma_find_active_by_id_props(t, id);
        assert(forall|i: int| 0 <= i < t.len() ==> (#[trigger] t[i]) == s[i + 1]);
        if find_active_by_id(t, id) == -1 {
            assert forall|i: int| 0 <= i < s.len() implies !((#[trigger] s[i]).id == id
                && !s[i].completed) by {
                if i > 0 {
                    assert(!(t[i - 1].id == id && !t[i - 1].completed));
                }
            }
        } else {
            let f = find_active_by_id(t, id);
            assert(s[f + 1] == t[f]);
            assert forall|k: int| 0 <= k < f + 1 implies !((#[trigger] s[k]).id == id
                && !s[k].completed) by {
                if k > 0 {
                    assert(!(t[k - 1].id == id && !t[k - 1].completed));
                }
            }
        }
    }
}

/// Finds the first todo holding `id`, completed or not.
pub fn position_by_id(todos: &Vec<Todo>, id: u32) -> (r: Option<usize>)
    ensures
        match r {
            Some(i) => i < todos@.len() && find_by_id(views(todos@), id) == i,
            None => find_by_id(views(todos@), id) == -1,
        },
{
    let ghost vs = views(todos@);
    let n = todos.len();
    let mut i: usize = 0;
    loop
        invariant
            0 <= i <= n,
            n == vs.len(),
            vs == views(todos@),
            forall|k: int| 0 <= k < i ==> (#[trigger] vs[k]).id != id,
        ensures
            i == n,
            forall|k: int| 0 <= k < n ==> (#[trigger] vs[k]).id != id,
        decreases n - i,
    {
        if i >= n {
            break;
        }
        if todos[i].get_id() == id {
            proof {
                lemma_find_by_id_props(vs, id);
                assert(vs[i as int].id == id);
            }
            return Some(i);
        }
        i += 1;
    }
    proof {
        lemma_find_by_id_props(vs, id);
    }
    None
}

/// Finds the first active todo holding `id`.
pub fn position_active_by_id(todos: &Vec<Todo>, id: u32) -> (r: Option<usize>)
    ensures
        match r {
            Some(i) => i < todos@.len() && find_active_by_id(views(todos@), id) == i,
            None => find_active_by_id(views(todos@), id) == -1,
        },
{
    let ghost vs = views(todos@);
    let n = todos.len();
    let mut i: usize = 0;
    loop
        invariant
            0 <= i <= n,
            n == vs.len(),
            vs == views(todos@),
            forall|k: int| 0 <= k < i ==> !((#[trigger] vs[k]).id == id && !vs[k].completed),
        ensures
            i == n,
            forall|k: int| 0 <= k < n ==> !((#[trigger] vs[k]).id == id && !vs[k].completed),
        decreases n - i,
    {
        if i >= n {
            break;
        }
        if todos[i].get_id() == id && !todos[i].get_completed() {
            proof {
                lemma_find_active_by_id_props(vs, id);
                assert(vs[i as int].id == id && !vs[i as int].completed);
            }
            return Some(i);
        }
        i += 1;
    }
    proof {
        lemma_find_active_by_id_props(vs, id);
    }
    None
}

/// Assigns the next available id to `todo` and appends it to the
/// collection, returning the id assigned.
pub fn add_todo(todos: &mut Vec<Todo>, todo: Todo) -> (id: u32)
    requires
        ids_bounded(views(old(todos)@)),
    ensures
        id >= 1,
        !id_taken(views(old(todos)@), id),
        forall|c: u32| 1 <= c < id ==> id_taken(views(old(todos)@), c),
        views(final(todos)@) == views(old(todos)@).push((TodoView { id, ..todo@ })),
{
    let id_assigned = find_next_available_todo_id(todos);
    let mut new_todo = todo;
    new_todo.set_id(id_assigned);
    todos.push(new_todo);
    proof {
        assert(views(final(todos)@) =~= views(old(todos)@).push(
            (TodoView { id: id_assigned, ..todo@ }),
        ));
    }
    id_assigned
}

} // verus!
