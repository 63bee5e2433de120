use vstd::prelude::*;

verus! {

/// One to-do item: a positive id, a free-form description and a completion flag.
pub struct Task {
    pub id: usize,
    pub desc: String,
    pub done: bool,
}

impl Task {
    /// A new, not yet completed task.
    pub fn new(id: usize, desc: String) -> (t: Task)
        ensures
            t == (Task { id, desc, done: false }),
    {
        Task { id, desc, done: false }
    }
}

/// The largest id in the store, or 0 for a store without tasks.
pub open spec fn max_id(s: Seq<Task>) -> nat
    decreases s.len(),
{
    if s.len() == 0 {
        0
    } else {
        let m = max_id(s.drop_last());
        if s.last().id as nat > m {
            s.last().id as nat
        } else {
            m
        }
    }
}

/// No two tasks of the store share an id.
pub open spec fn ids_unique(s: Seq<Task>) -> bool {
    forall|i: int, j: int| 0 <= i < s.len() && 0 <= j < s.len() && i != j ==> s[i].id != s[j].id
}

/// Some task of the store has the id.
pub open spec fn has_id(s: Seq<Task>, id: usize) -> bool {
    exists|i: int| 0 <= i < s.len() && s[i].id == id
}

/// Every id of the store is at most `max_id`, and a non-empty store holds a task with that id.
pub proof fn lemma_max_id_bounds(s: Seq<Task>)
    ensures
        forall|i: int| 0 <= i < s.len() ==> s[i].id as nat <= max_id(s),
        s.len() > 0 ==> exists|i: int| 0 <= i < s.len() && s[i].id as nat == max_id(s),
        max_id(s) <= usize::MAX,
    decreases s.len(),
{
    if s.len() > 0 {
        let p = s.drop_last();
        lemma_max_id_bounds(p);
        assert forall|i: int| 0 <= i < s.len() implies s[i].id as nat <= max_id(s) by {
            if i < s.len() - 1 {
                assert(s[i] == p[i]);
            }
        }
        if s.last().id as nat > max_id(p) {
            assert(s[s.len() - 1].id as nat == max_id(s));
        } else if p.len() > 0 {
            let k = choose|k: int| 0 <= k < p.len() && p[k].id as nat == max_id(p);
            assert(s[k] == p[k]);
        } else {
            assert(s[0].id as nat == max_id(s));
        }
    }
}

} // verus!
