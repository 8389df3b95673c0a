//! The list command: validates the sort-order and all options, filters
//! completed todos out unless `all` is set, and sorts what remains. The
//! table rendering belongs to the shell around the library.
use vstd::prelude::*;
use vstd::multiset::Multiset;
use crate::common_structs::{prio_rank, CommandResult, Priority, TodoError};
use crate::data_service::views;
use crate::text::str_eq;
use crate::todo::{Todo, TodoView};

verus! {

/// The orders a listing can be sorted in. `PriorityDESC` (`High` first) is
/// the default.
#[derive(Clone, Copy, Debug, PartialEq, Eq, Structural)]
pub enum SortOrder {
    PriorityDESC,
    PriorityASC,
    CreationTimeDESC,
    CreationTimeASC,
}

/// The sort order a `sort` option value spells, in its two accepted
/// spellings; anything else spells none.
pub open spec fn spec_sort_from(s: Seq<char>) -> Option<SortOrder> {
    if s == "PriorityDESC"@ || s == "prioritydesc"@ {
        Some(SortOrder::PriorityDESC)
    } else if s == "Priority"@ || s == "priority"@ {
        Some(SortOrder::PriorityASC)
    } else if s == "CreationTimeDESC"@ || s == "creationtimedesc"@ {
        Some(SortOrder::CreationTimeDESC)
    } else if s == "CreationTime"@ || s == "creationtime"@ {
        Some(SortOrder::CreationTimeASC)
    } else {
        None
    }
}

/// `a` comes no later than `b` under the given order: `PriorityDESC`
/// ranks `High` first, `PriorityASC` ranks `Low` first, and the creation
/// orders go by timestamp.
pub open spec fn sort_le(order: SortOrder, a: TodoView, b: TodoView) -> bool {
    match order {
        SortOrder::PriorityDESC => prio_rank(a.priority) <= prio_rank(b.priority),
        SortOrder::PriorityASC => prio_rank(b.priority) <= prio_rank(a.priority),
        SortOrder::CreationTimeASC => a.when_created_utc <= b.when_created_utc,
        SortOrder::CreationTimeDESC => b.when_created_utc <= a.when_created_utc,
    }
}

/// A validated list command: the sort order and whether completed todos
/// are included.
#[derive(Debug)]
pub struct ListCommand {
    sort_order: SortOrder,
    all: bool,
}

impl ListCommand {
    /// The order the listing is sorted in.
    pub closed spec fn spec_sort_order(&self) -> SortOrder {
        self.sort_order
    }

    /// Whether completed todos are included.
    pub closed spec fn spec_all(&self) -> bool {
        self.all
    }

    pub fn get_sort_order(&self) -> (r: SortOrder)
        ensures
            r == self.spec_sort_order(),
    {
        self.sort_order
    }

    pub fn get_all(&self) -> (r: bool)
        ensures
            r == self.spec_all(),
    {
        self.all
    }

    /// Validates a parsed command: the `sort` option, when present, must
    /// be one of the fixed sort-order names, and defaults to
    /// `PriorityDESC`; the bare `all` flag includes completed todos.
    pub fn new_from_command_result(command_result: &CommandResult) -> (r: Result<
        ListCommand,
        TodoError,
    >)
        ensures
            ({
                let opts = command_result@.options;
                if opts.contains_key("sort"@) && spec_sort_from(opts["sort"@]) is None {
                    r matches Err(e) && e == TodoError::InvalidSort
                } else {
                    r matches Ok(c) && Some(c.spec_sort_order()) == (if opts.contains_key(
                        "sort"@,
                    ) {
                        spec_sort_from(opts["sort"@])
                    } else {
                        Some(SortOrder::PriorityDESC)
                    }) && c.spec_all() == opts.contains_key("all"@)
                }
            }),
    {
        let sort_order_choosen = match command_result.get_options().get("sort") {
            Some(p) => {
                if str_eq(p.as_str(), "PriorityDESC") || str_eq(p.as_str(), "prioritydesc") {
                    SortOrder::PriorityDESC
                } else if str_eq(p.as_str(), "Priority") || str_eq(p.as_str(), "priority") {
                    SortOrder::PriorityASC
                } else if str_eq(p.as_str(), "CreationTimeDESC") || str_eq(
                    p.as_str(),
                    "creationtimedesc",
                ) {
                    SortOrder::CreationTimeDESC
                } else if str_eq(p.as_str(), "CreationTime") || str_eq(
                    p.as_str(),
                    "creationtime",
                ) {
                    SortOrder::CreationTimeASC
                } else {
                    return Err(TodoError::InvalidSort);
                }
            },
            None => SortOrder::PriorityDESC,
        };
        let show_all = command_result.get_options().contains_key("all");
        Ok(ListCommand { sort_order: sort_order_choosen, all: show_all })
    }

    /// The todos the listing shows, in the order it shows them: completed
    /// todos dropped unless `all` is set, the rest a permutation of the
    /// input sorted under the chosen order.
    pub fn apply(&self, todos: &Vec<Todo>) -> (r: Vec<Todo>)
        ensures
            ({
                let kept = if self.spec_all() {
                    views(todos@)
                } else {
                    views(todos@).filter(|t: TodoView| !t.completed)
                };
                views(r@).to_multiset() == kept.to_multiset() && (forall|i: int, j: int|
                    0 <= i < j < views(r@).len() ==> sort_le(
                        self.spec_sort_order(),
                        views(r@)[i],
                        views(r@)[j],
                    ))
            }),
    {
        let mut kept: Vec<Todo> = Vec::new();
        let ghost vs = views(todos@);
        let n = todos.len();
        let mut i: usize = 0;
        proof {
            reveal(Seq::filter);
            assert(vs.take(0) =~= Seq::<TodoView>::empty());
            assert(views(kept@) =~= (if self.spec_all() {
                vs.take(0)
            } else {
                vs.take(0).filter(|t: TodoView| !t.completed)
            }));
        }
        loop
            invariant
                0 <= i <= n,
                n == vs.len(),
                vs == views(todos@),
                views(kept@) == (if self.spec_all() {
                    vs.take(i as int)
                } else {
                    vs.take(i as int).filter(|t: TodoView| !t.completed)
                }),
            ensures
                i == n,
                views(kept@) == (if self.spec_all() {
                    vs.take(i as int)
                } else {
                    vs.take(i as int).filter(|t: TodoView| !t.completed)
                }),
            decreases n - i,
        {
            if i >= n {
                break;
            }
            proof {
                reveal(Seq::filter);
                assert(vs.take(i as int + 1).drop_last() =~= vs.take(i as int));
                assert(vs.take(i as int + 1).last() == vs[i as int]);
            }
            let ghost pre = views(kept@);
            if self.all || !todos[i].get_completed() {
                kept.push(todos[i].clone());
                proof {
                    assert(views(kept@) =~= pre.push(vs[i as int]));
                }
            }
            i += 1;
        }
        proof {
            assert(vs.take(n as int) =~= vs);
        }
        sort_todos(self.sort_order, kept)
    }
}

/// `a` comes no later than `b` under `order`, on the todos themselves.
fn sort_le_exec(order: SortOrder, a: &Todo, b: &Todo) -> (r: bool)
    ensures
        r == sort_le(order, a@, b@),
{
    match order {
        SortOrder::PriorityDESC => priority_rank(a.get_priority()) <= priority_rank(
            b.get_priority(),
        ),
        SortOrder::PriorityASC => priority_rank(b.get_priority()) <= priority_rank(
            a.get_priority(),
        ),
        SortOrder::CreationTimeASC => a.get_when_created_utc() <= b.get_when_created_utc(),
        SortOrder::CreationTimeDESC => b.get_when_created_utc() <= a.get_when_created_utc(),
    }
}

/// The rank of a priority in the declaration order.
fn priority_rank(p: Priority) -> (r: u8)
    ensures
        r == prio_rank(p),
{
    match p {
        Priority::High => 0,
        Priority::Medium => 1,
        Priority::Low => 2,
    }
}

proof fn lemma_to_multiset_insert(s: Seq<TodoView>, p: int, v: TodoView)
    requires
        0 <= p <= s.len(),
    ensures
        s.insert(p, v).to_multiset() == s.to_multiset().insert(v),
{
    broadcast use vstd::seq_lib::group_to_multiset_ensures;

    let left = s.subrange(0, p);
    let right = s.subrange(p, s.len() as int);
    assert(s =~= left + right);
    assert(s.insert(p, v) =~= left + (right.insert(0, v)));
    assert(right.insert(0, v) =~= seq![v] + right);
    vstd::seq_lib::lemma_multiset_commutative(left, right);
    vstd::seq_lib::lemma_multiset_commutative(left, seq![v] + right);
    vstd::seq_lib::lemma_multiset_commutative(seq![v], right);
    assert(seq![v].to_multiset() =~= Multiset::<TodoView>::empty().insert(v)) by {
        assert(seq![v] =~= Seq::<TodoView>::empty().push(v));
        assert(Seq::<TodoView>::empty().to_multiset() =~= Multiset::<TodoView>::empty());
    }
    assert(s.insert(p, v).to_multiset() =~= s.to_multiset().insert(v));
}

/// Sorts the todos under `order` by insertion, stably.
fn sort_todos(order: SortOrder, input: Vec<Todo>) -> (r: Vec<Todo>)
    ensures
        views(r@).to_multiset() == views(input@).to_multiset(),
        forall|i: int, j: int|
            0 <= i < j < views(r@).len() ==> sort_le(order, views(r@)[i], views(r@)[j]),
{
    let ghost vs = views(input@);
    let n = input.len();
    let mut out: Vec<Todo> = Vec::new();
    let mut i: usize = 0;
    proof {
        assert(vs.take(0) =~= Seq::<TodoView>::empty());
        assert(views(out@) =~= vs.take(0));
        broadcast use vstd::seq_lib::group_to_multiset_ensures;
    }
    loop
        invariant
            0 <= i <= n,
            n == vs.len(),
            vs == views(input@),
            views(out@).to_multiset() == vs.take(i as int).to_multiset(),
            out@.len() == i,
            forall|a: int, b: int|
                0 <= a < b < views(out@).len() ==> sort_le(order, views(out@)[a], views(out@)[b]),
        ensures
            i == n,
            views(out@).to_multiset() == vs.take(i as int).to_multiset(),
            forall|a: int, b: int|
                0 <= a < b < views(out@).len() ==> sort_le(order, views(out@)[a], views(out@)[b]),
        decreases n - i,
    {
        if i >= n {
            break;
        }
        let x = input[i].clone();
        // the first position whose element must come after `x`
        let m = out.len();
        let mut pos: usize = 0;
        loop
            invariant
                0 <= pos <= m,
                m == out@.len(),
                forall|k: int| 0 <= k < pos ==> sort_le(order, views(out@)[k], x@),
            ensures
                0 <= pos <= m,
                m == out@.len(),
                forall|k: int| 0 <= k < pos ==> sort_le(order, views(out@)[k], x@),
                pos == m || !sort_le(order, views(out@)[pos as int], x@),
            decreases m - pos,
        {
            if pos >= m {
                break;
            }
            if !sort_le_exec(order, &out[pos], &x) {
                break;
            }
            proof {
                assert(views(out@)[pos as int] == out@[pos as int]@);
            }
            pos += 1;
        }
        let ghost pre = views(out@);
        proof {
            broadcast use vstd::seq_lib::group_to_multiset_ensures;

            lemma_to_multiset_insert(pre, pos as int, x@);
            assert(vs.take(i as int + 1) =~= vs.take(i as int).push(vs[i as int]));
        }
        out.insert(pos, x);
        proof {
            assert(views(out@) =~= pre.insert(pos as int, x@));
            assert forall|a: int, b: int|
                0 <= a < b < views(out@).len() implies sort_le(
                order,
                views(out@)[a],
                views(out@)[b],
            ) by {
                let cur = views(out@);
                lemma_sort_le_total(order, cur[b], cur[a]);
                if a < pos && b < pos {
                } else if a < pos && b == pos {
                } else if a < pos && b > pos {
                    assert(cur[a] == pre[a] && cur[b] == pre[b - 1]);
                } else if a == pos {
                    // everything at and after pos came after x in pre
                    assert(cur[b] == pre[b - 1]);
                    assert(!sort_le(order, pre[pos as int], x@));
                    lemma_sort_le_total(order, pre[pos as int], x@);
                    if b - 1 > pos {
                        assert(sort_le(order, pre[pos as int], pre[b - 1]));
                    }
                    lemma_sort_le_trans(order, x@, pre[pos as int], pre[b - 1]);
                } else {
                    assert(cur[a] == pre[a - 1] && cur[b] == pre[b - 1]);
                }
            }
        }
        i += 1;
    }
    proof {
        assert(vs.take(n as int) =~= vs);
    }
    out
}

proof fn lemma_sort_le_total(order: SortOrder, a: TodoView, b: TodoView)
    ensures
        sort_le(order, a, b) || sort_le(order, b, a),
{
}

proof fn lemma_sort_le_trans(order: SortOrder, a: TodoView, b: TodoView, c: TodoView)
    requires
        sort_le(order, a, b),
        sort_le(order, b, c),
    ensures
        sort_le(order, a, c),
{
}

} // verus!
