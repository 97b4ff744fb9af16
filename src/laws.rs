use crate::models::{Database, Task};
use vstd::prelude::*;

verus! {

/// The task map after inserting each task of `s` in turn, starting from `m`.
pub open spec fn tasks_inserted(m: Map<u64, Task>, s: Seq<Task>) -> Map<u64, Task>
    decreases s.len(),
{
    if s.len() == 0 {
        m
    } else {
        tasks_inserted(m, s.drop_last()).insert(s.last().id, s.last())
    }
}

/// No two tasks of `s` share an id.
pub open spec fn distinct_ids(s: Seq<Task>) -> bool {
    forall|i: int, j: int| 0 <= i < j < s.len() ==> #[trigger] s[i].id != #[trigger] s[j].id
}

/// After `insert` (or `update`) of a task, looking up its id gives that very task.
pub proof fn lemma_insert_then_get(before: Database, after: Database, task: Task)
    requires
        after.tasks@ == before.tasks@.insert(task.id, task),
    ensures
        after.tasks@.contains_key(task.id),
        after.tasks@[task.id] == task,
{
}

/// After `delete` of an id, looking it up finds nothing; deleting an id that is not
/// stored leaves the tasks as they were.
pub proof fn lemma_delete_then_get(before: Database, after: Database, id: u64)
    requires
        after.tasks@ == before.tasks@.remove(id),
    ensures
        !after.tasks@.contains_key(id),
        !before.tasks@.contains_key(id) ==> after.tasks@ == before.tasks@,
{
    if !before.tasks@.contains_key(id) {
        assert(after.tasks@ =~= before.tasks@);
    }
}

/// `update` of a task whose id is not stored creates it, just as `insert` does: the two
/// leave the same tasks, one more than before.
pub proof fn lemma_update_creates(
    before: Database,
    by_insert: Database,
    by_update: Database,
    task: Task,
)
    requires
        !before.tasks@.contains_key(task.id),
        by_insert.tasks@ == before.tasks@.insert(task.id, task),
        by_update.tasks@ == before.tasks@.insert(task.id, task),
    ensures
        by_update.tasks@ == by_insert.tasks@,
        by_update.tasks@.dom() == before.tasks@.dom().insert(task.id),
        by_update.tasks@[task.id] == task,
{
}

proof fn lemma_inserted_distinct(s: Seq<Task>)
    requires
        distinct_ids(s),
    ensures
        tasks_inserted(Map::empty(), s).dom().finite(),
        tasks_inserted(Map::empty(), s).len() == s.len(),
        tasks_inserted(Map::empty(), s).values() == s.to_set(),
        forall|k: u64| #[trigger] tasks_inserted(Map::empty(), s).contains_key(k)
            <==> exists|i: int| 0 <= i < s.len() && s[i].id == k,
    decreases s.len(),
{
    let m = tasks_inserted(Map::empty(), s);
    if s.len() == 0 {
        assert(m.values() =~= s.to_set());
    } else {
        let p = s.drop_last();
        let last = s.last();
        assert(distinct_ids(p)) by {
            assert forall|i: int, j: int| 0 <= i < j < p.len() implies #[trigger] p[i].id != #[trigger] p[j].id by {
                assert(p[i] == s[i] && p[j] == s[j]);
            }
        }
        lemma_inserted_distinct(p);
        let mp = tasks_inserted(Map::empty(), p);
        assert(!mp.contains_key(last.id)) by {
            if mp.contains_key(last.id) {
                let i = choose|i: int| 0 <= i < p.len() && p[i].id == last.id;
                assert(s[i] == p[i]);
                assert(s[i].id != s[s.len() - 1].id);
            }
        }
        assert(m == mp.insert(last.id, last));
        assert(m.dom() == mp.dom().insert(last.id));
        assert forall|k: u64| #[trigger] m.contains_key(k)
            <==> exists|i: int| 0 <= i < s.len() && s[i].id == k by {
            if k != last.id {
                if mp.contains_key(k) {
                    let i = choose|i: int| 0 <= i < p.len() && p[i].id == k;
                    assert(s[i] == p[i]);
                }
                if exists|i: int| 0 <= i < s.len() && s[i].id == k {
                    let i = choose|i: int| 0 <= i < s.len() && s[i].id == k;
                    assert(p[i] == s[i]);
                }
            } else {
                assert(s[s.len() - 1].id == k);
            }
        }
        assert forall|t: Task| #[trigger] m.values().contains(t) <==> s.to_set().contains(t) by {
            if m.values().contains(t) {
                let k = choose|k: u64| #[trigger] m.contains_key(k) && m[k] == t;
                if k == last.id {
                    assert(s[s.len() - 1] == t);
                } else {
                    assert(mp.values().contains(t));
                    assert(p.contains(t));
                    let i = choose|i: int| 0 <= i < p.len() && p[i] == t;
                    assert(s[i] == t);
                }
            }
            if s.to_set().contains(t) {
                let i = choose|i: int| 0 <= i < s.len() && s[i] == t;
                if i == s.len() - 1 {
                    assert(m.contains_key(last.id) && m[last.id] == t);
                } else {
                    assert(p[i] == t);
                    assert(p.to_set().contains(t));
                    let k = choose|k: u64| #[trigger] mp.contains_key(k) && mp[k] == t;
                    assert(k != last.id);
                    assert(m.contains_key(k) && m[k] == t);
                }
            }
        }
        assert(m.values() =~= s.to_set());
    }
}

/// Inserting tasks with distinct ids into an empty store, `get_all` then lists exactly
/// those tasks: as many as were inserted, and the same set.
pub proof fn lemma_get_all_after_inserts(inserted: Seq<Task>, listed: Seq<Task>)
    requires
        distinct_ids(inserted),
        listed.len() == tasks_inserted(Map::empty(), inserted).len(),
        listed.to_set() == tasks_inserted(Map::empty(), inserted).values(),
    ensures
        listed.len() == inserted.len(),
        listed.to_set() == inserted.to_set(),
{
    lemma_inserted_distinct(inserted);
}

} // verus!
