use vstd::prelude::*;

use crate::task::{Task, max_id, has_id, ids_unique, lemma_max_id_bounds};

verus! {

/// The store after adding a task with description `d`: it is appended with the id one above
/// the current largest, not done. Where that id would not fit in `usize` the store stays as it is.
pub open spec fn added(s: Seq<Task>, d: String) -> Seq<Task> {
    if max_id(s) < usize::MAX {
        s.push(Task { id: (max_id(s) + 1) as usize, desc: d, done: false })
    } else {
        s
    }
}

/// The id that the next added task receives: one above the largest id in the store (so 1 for
/// an empty store), or `None` where that would not fit in `usize`.
pub fn next_id(tasks: &Vec<Task>) -> (r: Option<usize>)
    ensures
        r == (if max_id(tasks@) < usize::MAX {
            Some((max_id(tasks@) + 1) as usize)
        } else {
            None::<usize>
        }),
{
    let mut m: usize = 0;
    let mut i: usize = 0;
    while i < tasks.len()
        invariant
            i <= tasks@.len(),
            m as nat == max_id(tasks@.subrange(0, i as int)),
        decreases tasks@.len() - i,
    {
        assert(tasks@.subrange(0, i + 1).drop_last() =~= tasks@.subrange(0, i as int));
        if tasks[i].id > m {
            m = tasks[i].id;
        }
        i = i + 1;
    }
    assert(tasks@.subrange(0, i as int) =~= tasks@);
    if m < usize::MAX {
        Some(m + 1)
    } else {
        None
    }
}

/// Appends a new task with description `d` and the next id, not done, and returns that id.
/// Returns `None`, leaving the store unchanged, only where the next id would not fit in `usize`.
pub fn add(tasks: &mut Vec<Task>, d: String) -> (r: Option<usize>)
    ensures
        final(tasks)@ == added(old(tasks)@, d),
        r == (if max_id(old(tasks)@) < usize::MAX {
            Some((max_id(old(tasks)@) + 1) as usize)
        } else {
            None::<usize>
        }),
{
    match next_id(tasks) {
        Some(id) => {
            tasks.push(Task::new(id, d));
            Some(id)
        },
        None => None,
    }
}

/// Adding keeps the ids of a store distinct: the new id lies above every id already there.
pub proof fn lemma_add_keeps_ids_unique(s: Seq<Task>, d: String)
    requires
        ids_unique(s),
    ensures
        ids_unique(added(s, d)),
{
    lemma_max_id_bounds(s);
}

/// The same task with its completion flag flipped.
pub open spec fn flipped(t: Task) -> Task {
    Task { id: t.id, desc: t.desc, done: !t.done }
}

/// `i` is the position of the first task with the id.
pub open spec fn is_first_with_id(s: Seq<Task>, id: usize, i: int) -> bool {
    &&& 0 <= i < s.len()
    &&& s[i].id == id
    &&& forall|j: int| 0 <= j < i ==> s[j].id != id
}

/// The position of the first task with the id (meaningful only where one has it).
pub open spec fn first_with_id(s: Seq<Task>, id: usize) -> int {
    choose|i: int| is_first_with_id(s, id, i)
}

/// The store after toggling `id`: the first task with that id has its flag flipped; a store
/// without that id stays as it is.
pub open spec fn toggled(s: Seq<Task>, id: usize) -> Seq<Task> {
    if has_id(s, id) {
        s.update(first_with_id(s, id), flipped(s[first_with_id(s, id)]))
    } else {
        s
    }
}

/// What toggling reports: the new state of the task, or that no task has the id.
#[derive(PartialEq, Eq, Structural, Debug, Clone, Copy)]
pub enum DoneOutcome {
    MarkedDone,
    MarkedNotDone,
    NotFound,
}

/// Any position holding the id, with no earlier one holding it, is the first one.
pub proof fn lemma_first_with_id(s: Seq<Task>, id: usize, i: int)
    requires
        is_first_with_id(s, id, i),
    ensures
        first_with_id(s, id) == i,
        has_id(s, id),
{
    let k = first_with_id(s, id);
    assert(is_first_with_id(s, id, k));
    if k < i {
        assert(s[k].id != id);
    } else if k > i {
        assert(s[i].id != id);
    }
}

/// Flips the completion flag of the first task with the given id and says which state it now
/// has; reports `NotFound` and leaves the store unchanged where no task has that id.
pub fn done(tasks: &mut Vec<Task>, id: usize) -> (r: DoneOutcome)
    ensures
        final(tasks)@ == toggled(old(tasks)@, id),
        r == (if !has_id(old(tasks)@, id) {
            DoneOutcome::NotFound
        } else if final(tasks)@[first_with_id(old(tasks)@, id)].done {
            DoneOutcome::MarkedDone
        } else {
            DoneOutcome::MarkedNotDone
        }),
        forall|i: int| is_first_with_id(old(tasks)@, id, i) ==> {
            &&& final(tasks)@ == old(tasks)@.update(i, flipped(old(tasks)@[i]))
            &&& r == (if old(tasks)@[i].done { DoneOutcome::MarkedNotDone } else { DoneOutcome::MarkedDone })
        },
        !has_id(old(tasks)@, id) ==> final(tasks)@ == old(tasks)@ && r == DoneOutcome::NotFound,
{
    let mut i: usize = 0;
    while i < tasks.len()
        invariant
            i <= tasks@.len(),
            tasks@ == old(tasks)@,
            forall|j: int| 0 <= j < i ==> tasks@[j].id != id,
        decreases tasks@.len() - i,
    {
        if tasks[i].id == id {
            proof {
                lemma_first_with_id(tasks@, id, i as int);
                assert forall|j: int| is_first_with_id(old(tasks)@, id, j) implies j == i by {
                    lemma_first_with_id(old(tasks)@, id, j);
                }
            }
            let now_done = !tasks[i].done;
            tasks[i].done = now_done;
            assert(tasks@ =~= toggled(old(tasks)@, id));
            if now_done {
                return DoneOutcome::MarkedDone;
            } else {
                return DoneOutcome::MarkedNotDone;
            }
        }
        i = i + 1;
    }
    DoneOutcome::NotFound
}

/// A store that holds the id has a first position holding it.
pub proof fn lemma_has_first(s: Seq<Task>, id: usize)
    requires
        has_id(s, id),
    ensures
        is_first_with_id(s, id, first_with_id(s, id)),
    decreases s.len(),
{
    let p = s.drop_last();
    if has_id(p, id) {
        lemma_has_first(p, id);
        let k = first_with_id(p, id);
        assert forall|j: int| 0 <= j < k implies s[j].id != id by {
            assert(s[j] == p[j]);
        }
        assert(s[k] == p[k]);
        assert(is_first_with_id(s, id, k));
    } else {
        let w = choose|w: int| 0 <= w < s.len() && s[w].id == id;
        if w < s.len() - 1 {
            assert(p[w].id == id);
        }
        assert forall|j: int| 0 <= j < s.len() - 1 implies s[j].id != id by {
            assert(s[j] == p[j]);
        }
        assert(is_first_with_id(s, id, s.len() - 1));
    }
}

/// Toggling the same id twice gives back the store it started from.
pub proof fn lemma_toggle_twice(s: Seq<Task>, id: usize)
    ensures
        toggled(toggled(s, id), id) == s,
{
    if has_id(s, id) {
        let i = first_with_id(s, id);
        lemma_has_first(s, id);
        let t = toggled(s, id);
        assert(is_first_with_id(t, id, i));
        lemma_first_with_id(t, id, i);
        assert(toggled(t, id) =~= s);
    }
}

/// The store without any task that has the id; the others keep their order.
pub open spec fn without_id(s: Seq<Task>, id: usize) -> Seq<Task>
    decreases s.len(),
{
    if s.len() == 0 {
        s
    } else if s.last().id == id {
        without_id(s.drop_last(), id)
    } else {
        without_id(s.drop_last(), id).push(s.last())
    }
}

/// Deletes every task that has the id, keeping the order of the others.
pub fn remove_task(tasks: &mut Vec<Task>, id: usize)
    ensures
        final(tasks)@ == without_id(old(tasks)@, id),
{
    let ghost orig = tasks@;
    let mut i: usize = 0;
    let mut k: usize = 0;
    let n: usize = tasks.len();
    while k < n
        invariant
            n == orig.len(),
            k <= orig.len(),
            i <= k,
            i == without_id(orig.subrange(0, k as int), id).len(),
            tasks@ == without_id(orig.subrange(0, k as int), id) + orig.subrange(k as int, orig.len() as int),
        decreases orig.len() - k,
    {
        assert(orig.subrange(0, k + 1).drop_last() =~= orig.subrange(0, k as int));
        assert(tasks@[i as int] == orig[k as int]);
        if tasks[i].id == id {
            tasks.remove(i);
            assert(tasks@ =~= without_id(orig.subrange(0, k + 1), id) + orig.subrange(k + 1, orig.len() as int));
        } else {
            assert(tasks@ =~= without_id(orig.subrange(0, k + 1), id) + orig.subrange(k + 1, orig.len() as int));
            i = i + 1;
        }
        k = k + 1;
    }
    assert(orig.subrange(0, k as int) =~= orig);
    assert(tasks@ =~= without_id(orig, id));
}

/// Deletes every task.
pub fn clear_tasks(tasks: &mut Vec<Task>)
    ensures
        final(tasks)@ == Seq::<Task>::empty(),
{
    tasks.clear();
}

/// Removing leaves no task with the id, and every remaining id was in the store before.
pub proof fn lemma_without_id(s: Seq<Task>, id: usize)
    ensures
        !has_id(without_id(s, id), id),
        forall|i: int| 0 <= i < without_id(s, id).len() ==>
            exists|j: int| 0 <= j < s.len() && s[j] == #[trigger] without_id(s, id)[i],
        forall|j: int| 0 <= j < s.len() && s[j].id != id ==>
            exists|i: int| 0 <= i < without_id(s, id).len() && #[trigger] s[j] == without_id(s, id)[i],
    decreases s.len(),
{
    if s.len() > 0 {
        let p = s.drop_last();
        lemma_without_id(p, id);
        let r = without_id(s, id);
        let rp = without_id(p, id);
        assert forall|i: int| 0 <= i < r.len() implies
            exists|j: int| 0 <= j < s.len() && s[j] == #[trigger] r[i] by {
            if i < rp.len() {
                assert(r[i] == rp[i]);
                let j = choose|j: int| 0 <= j < p.len() && p[j] == rp[i];
                assert(s[j] == p[j]);
            } else {
                assert(r[i] == s[s.len() - 1]);
            }
        }
        assert(!has_id(r, id)) by {
            if has_id(r, id) {
                let w = choose|w: int| 0 <= w < r.len() && r[w].id == id;
                if w < rp.len() {
                    assert(r[w] == rp[w]);
                }
            }
        }
        assert forall|j: int| 0 <= j < s.len() && s[j].id != id implies
            exists|i: int| 0 <= i < r.len() && #[trigger] s[j] == r[i] by {
            if j < p.len() {
                assert(s[j] == p[j]);
                let i = choose|i: int| 0 <= i < rp.len() && p[j] == rp[i];
                assert(r[i] == rp[i]);
            } else {
                assert(r[r.len() - 1] == s[j]);
            }
        }
    }
}

/// Toggling and removing keep the ids of a store distinct.
pub proof fn lemma_ops_keep_ids_unique(s: Seq<Task>, id: usize)
    requires
        ids_unique(s),
    ensures
        ids_unique(toggled(s, id)),
        ids_unique(without_id(s, id)),
    decreases s.len(),
{
    let t = toggled(s, id);
    if has_id(s, id) {
        lemma_has_first(s, id);
    }
    assert forall|i: int, j: int| 0 <= i < t.len() && 0 <= j < t.len() && i != j implies t[i].id != t[j].id by {
        assert(t[i].id == s[i].id && t[j].id == s[j].id);
    }
    if s.len() > 0 {
        let p = s.drop_last();
        assert(ids_unique(p)) by {
            assert forall|i: int, j: int| 0 <= i < p.len() && 0 <= j < p.len() && i != j implies p[i].id != p[j].id by {
                assert(p[i] == s[i] && p[j] == s[j]);
            }
        }
        lemma_ops_keep_ids_unique(p, id);
        lemma_without_id(p, id);
        let r = without_id(s, id);
        let rp = without_id(p, id);
        if s.last().id != id {
            assert forall|i: int, j: int| 0 <= i < r.len() && 0 <= j < r.len() && i != j implies r[i].id != r[j].id by {
                if i < rp.len() && j < rp.len() {
                    assert(r[i] == rp[i] && r[j] == rp[j]);
                } else if i < rp.len() {
                    assert(r[i] == rp[i]);
                    let k = choose|k: int| 0 <= k < p.len() && p[k] == rp[i];
                    assert(s[k] == p[k]);
                } else if j < rp.len() {
                    assert(r[j] == rp[j]);
                    let k = choose|k: int| 0 <= k < p.len() && p[k] == rp[j];
                    assert(s[k] == p[k]);
                }
            }
        }
    }
}

/// The store after adding one task per description, one after another in the order given.
pub open spec fn added_all(s: Seq<Task>, ds: Seq<String>) -> Seq<Task>
    decreases ds.len(),
{
    if ds.len() == 0 {
        s
    } else {
        added(added_all(s, ds.drop_last()), ds.last())
    }
}

/// Adds one task per description, in the order given, each seeing the ones added before it.
pub fn add_all(tasks: &mut Vec<Task>, descs: &Vec<String>)
    ensures
        final(tasks)@ == added_all(old(tasks)@, descs@),
{
    let mut i: usize = 0;
    while i < descs.len()
        invariant
            i <= descs@.len(),
            tasks@ == added_all(old(tasks)@, descs@.subrange(0, i as int)),
        decreases descs@.len() - i,
    {
        assert(descs@.subrange(0, i + 1).drop_last() =~= descs@.subrange(0, i as int));
        let _ = crate::store::add(tasks, descs[i].clone());
        i = i + 1;
    }
    assert(descs@.subrange(0, i as int) =~= descs@);
}

/// Adding `n` tasks to an empty store numbers them 1 to `n` in the order they were added, each
/// with its own description and not done, whatever the descriptions hold.
pub proof fn lemma_add_from_empty(ds: Seq<String>)
    requires
        ds.len() < usize::MAX,
    ensures
        added_all(Seq::empty(), ds).len() == ds.len(),
        max_id(added_all(Seq::empty(), ds)) == ds.len(),
        forall|i: int| 0 <= i < ds.len() ==> (#[trigger] added_all(Seq::empty(), ds)[i]) == (Task {
            id: (i + 1) as usize,
            desc: ds[i],
            done: false,
        }),
    decreases ds.len(),
{
    if ds.len() > 0 {
        let p = ds.drop_last();
        lemma_add_from_empty(p);
        let before = added_all(Seq::empty(), p);
        let after = added_all(Seq::empty(), ds);
        assert(after.drop_last() =~= before);
        assert forall|i: int| 0 <= i < ds.len() implies (#[trigger] after[i]) == (Task {
            id: (i + 1) as usize,
            desc: ds[i],
            done: false,
        }) by {
            if i < p.len() {
                assert(after[i] == before[i]);
            }
        }
    }
}

/// Removing a task and then adding one gives the new task the id one above the largest that
/// remains (1 where none remains); it differs from every remaining id, and from the removed id
/// wherever the store held a larger id than the removed one.
pub proof fn lemma_remove_then_add(s: Seq<Task>, id: usize, d: String)
    requires
        max_id(without_id(s, id)) < usize::MAX,
    ensures
        ({
            let rest = without_id(s, id);
            let after = added(rest, d);
            &&& after.len() == rest.len() + 1
            &&& after.last().id as nat == max_id(rest) + 1
            &&& forall|i: int| 0 <= i < rest.len() ==> rest[i].id != after.last().id
            &&& (max_id(s) > id ==> after.last().id != id)
        }),
{
    let rest = without_id(s, id);
    lemma_max_id_bounds(rest);
    lemma_max_id_bounds(s);
    lemma_without_id(s, id);
    if max_id(s) > id {
        let w = choose|w: int| 0 <= w < s.len() && s[w].id as nat == max_id(s);
        assert(s[w].id != id);
        let i = choose|i: int| 0 <= i < rest.len() && s[w] == rest[i];
        assert(rest[i].id as nat <= max_id(rest));
    }
}

/// What reading the saved store gave: its tasks, no saved store at all, or a saved store
/// whose content does not have the expected shape.
pub enum Loaded {
    Tasks(Vec<Task>),
    Missing,
    Malformed,
}

/// The store that an invocation starts from: the saved tasks, or an empty store where none was
/// saved. `None` where the saved store is malformed, which ends the invocation.
pub fn starting_store(loaded: Loaded) -> (r: Option<Vec<Task>>)
    ensures
        match loaded {
            Loaded::Tasks(v) => r == Some(v),
            Loaded::Missing => r.is_some() && r.unwrap()@.len() == 0,
            Loaded::Malformed => r.is_none(),
        },
{
    match loaded {
        Loaded::Tasks(v) => Some(v),
        Loaded::Missing => Some(Vec::new()),
        Loaded::Malformed => None,
    }
}

} // verus!
