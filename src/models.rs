use std::collections::HashMap;
use vstd::prelude::*;
use vstd::std_specs::iter::IteratorSpec;

verus! {

broadcast use vstd::std_specs::hash::group_hash_axioms;

/// A to-do item, keyed by its `id`.
pub struct Task {
    pub id: u64,
    pub name: String,
    pub completed: bool,
}

impl Task {
    /// A field-by-field copy.
    pub fn duplicate(&self) -> (r: Task)
        ensures
            r == *self,
    {
        Task { id: self.id, name: self.name.clone(), completed: self.completed }
    }
}

/// A registered account; the password is kept as given.
pub struct User {
    pub id: u64,
    pub username: String,
    pub password: String,
}

impl User {
    /// A field-by-field copy.
    pub fn duplicate(&self) -> (r: User)
        ensures
            r == *self,
    {
        User { id: self.id, username: self.username.clone(), password: self.password.clone() }
    }
}

/// The map that a list of `(key, value)` entries describes: each entry is stored under
/// its key, and a later entry replaces an earlier one with the same key.
pub open spec fn entries_map<V>(s: Seq<(u64, V)>) -> Map<u64, V>
    decreases s.len(),
{
    if s.len() == 0 {
        Map::empty()
    } else {
        entries_map(s.drop_last()).insert(s.last().0, s.last().1)
    }
}

/// `s` lists the entries of `m`: each key of `m` once, with its value, and nothing else.
pub open spec fn lists_entries_of<V>(s: Seq<(u64, V)>, m: Map<u64, V>) -> bool {
    &&& s.len() == m.len()
    &&& forall|i: int| 0 <= i < s.len() ==> #[trigger] m.contains_key(s[i].0) && m[s[i].0] == s[i].1
    &&& forall|k: u64| #[trigger] m.contains_key(k) ==> exists|i: int| 0 <= i < s.len() && s[i].0 == k
}

proof fn lemma_entries_map_within<V>(s: Seq<(u64, V)>, m: Map<u64, V>)
    requires
        forall|i: int| 0 <= i < s.len() ==> #[trigger] m.contains_key(s[i].0) && m[s[i].0] == s[i].1,
    ensures
        forall|k: u64| #[trigger] entries_map(s).contains_key(k) <==> exists|i: int| 0 <= i < s.len() && s[i].0 == k,
        forall|k: u64| #[trigger] entries_map(s).contains_key(k) ==> entries_map(s)[k] == m[k],
    decreases s.len(),
{
    if s.len() > 0 {
        let p = s.drop_last();
        assert forall|i: int| 0 <= i < p.len() implies #[trigger] m.contains_key(p[i].0) && m[p[i].0] == p[i].1 by {
            assert(p[i] == s[i]);
            assert(m.contains_key(s[i].0));
        }
        lemma_entries_map_within(p, m);
        assert(m.contains_key(s[s.len() - 1].0));
        assert(entries_map(s) == entries_map(p).insert(s.last().0, s.last().1));
        assert forall|k: u64| #[trigger] entries_map(s).contains_key(k) <==> exists|i: int| 0 <= i < s.len() && s[i].0 == k by {
            if k != s.last().0 {
                if entries_map(p).contains_key(k) {
                    let i = choose|i: int| 0 <= i < p.len() && p[i].0 == k;
                    assert(s[i] == p[i]);
                }
                if exists|i: int| 0 <= i < s.len() && s[i].0 == k {
                    let i = choose|i: int| 0 <= i < s.len() && s[i].0 == k;
                    assert(p[i] == s[i]);
                }
            } else {
                assert(s[s.len() - 1].0 == k);
            }
        }
    }
}

/// Restoring a store from a complete list of its entries gives back the same map:
/// reloading what `Database::entries` saved yields the store that was saved.
pub proof fn lemma_entries_round_trip<V>(s: Seq<(u64, V)>, m: Map<u64, V>)
    requires
        lists_entries_of(s, m),
    ensures
        entries_map(s) == m,
{
    lemma_entries_map_within(s, m);
    assert forall|k: u64| #[trigger] m.contains_key(k) implies entries_map(s).contains_key(k) by {
        let i = choose|i: int| 0 <= i < s.len() && s[i].0 == k;
    }
    assert(entries_map(s) =~= m);
}

/// The in-memory store of tasks and users, each keyed by id.
pub struct Database {
    pub tasks: HashMap<u64, Task>,
    pub users: HashMap<u64, User>,
}

impl Database {
    /// Every task is stored under its own id, and every user under theirs.
    pub open spec fn keys_match_ids(&self) -> bool {
        &&& forall|k: u64| #[trigger] self.tasks@.contains_key(k) ==> self.tasks@[k].id == k
        &&& forall|k: u64| #[trigger] self.users@.contains_key(k) ==> self.users@[k].id == k
    }

    /// Some stored user has this username.
    pub open spec fn has_username(&self, name: Seq<char>) -> bool {
        exists|u: User| #[trigger] self.users@.values().contains(u) && u.username@ == name
    }

    /// An empty store.
    pub fn new() -> (r: Self)
        ensures
            r.tasks@ == Map::<u64, Task>::empty(),
            r.users@ == Map::<u64, User>::empty(),
            r.keys_match_ids(),
    {
        Database { tasks: HashMap::new(), users: HashMap::new() }
    }

    /// Stores `task` under its id, replacing any task held there.
    pub fn insert(&mut self, task: Task)
        ensures
            final(self).tasks@ == old(self).tasks@.insert(task.id, task),
            final(self).users@ == old(self).users@,
            old(self).keys_match_ids() ==> final(self).keys_match_ids(),
    {
        self.tasks.insert(task.id, task);
    }

    /// The task stored under `id`, if any.
    pub fn get(&self, id: &u64) -> (r: Option<&Task>)
        ensures
            match r {
                Some(t) => self.tasks@.contains_key(*id) && *t == self.tasks@[*id],
                None => !self.tasks@.contains_key(*id),
            },
    {
        self.tasks.get(id)
    }

    /// Every stored task once, in no particular order.
    pub fn get_all(&self) -> (r: Vec<&Task>)
        ensures
            r@.len() == self.tasks@.len(),
            r@.unref().to_set() == self.tasks@.values(),
    {
        let mut out: Vec<&Task> = Vec::new();
        for t in it: self.tasks.values()
            invariant
                out@ == it.seq().take(it.index() as int),
                it.seq() == self.tasks.values().remaining(),
        {
            out.push(t);
        }
        proof {
            let all = self.tasks.values().remaining();
            assert(out@ =~= all);
            assert(all.unref().to_set() == self.tasks@.values());
        }
        out
    }

    /// Removes the task stored under `id`; nothing changes if there is none.
    pub fn delete(&mut self, id: &u64)
        ensures
            final(self).tasks@ == old(self).tasks@.remove(*id),
            final(self).users@ == old(self).users@,
            old(self).keys_match_ids() ==> final(self).keys_match_ids(),
    {
        self.tasks.remove(id);
    }

    /// Stores `task` under its id whether or not one was there: the same as `insert`.
    pub fn update(&mut self, task: Task)
        ensures
            final(self).tasks@ == old(self).tasks@.insert(task.id, task),
            final(self).users@ == old(self).users@,
            old(self).keys_match_ids() ==> final(self).keys_match_ids(),
    {
        self.tasks.insert(task.id, task);
    }

    /// Stores `user` under its id, replacing any user held there.
    pub fn insert_user(&mut self, user: User)
        ensures
            final(self).users@ == old(self).users@.insert(user.id, user),
            final(self).tasks@ == old(self).tasks@,
            old(self).keys_match_ids() ==> final(self).keys_match_ids(),
    {
        self.users.insert(user.id, user);
    }

    /// A stored user with this username, if there is one; which one, where several
    /// share it, depends on the map's iteration order.
    pub fn get_user_by_name(&self, username: &str) -> (r: Option<&User>)
        ensures
            match r {
                Some(u) => self.users@.values().contains(*u) && u.username@ == username@,
                None => !self.has_username(username@),
            },
    {
        let wanted: String = username.to_owned();
        for u in it: self.users.values()
            invariant
                wanted@ == username@,
                forall|i: int|
                    0 <= i < it.index() ==> (#[trigger] it.seq()[i]).username@ != username@,
        {
            if u.username == wanted {
                return Some(u);
            }
        }
        None
    }
}

fn task_entries(m: &HashMap<u64, Task>) -> (r: Vec<(u64, Task)>)
    ensures
        lists_entries_of(r@, m@),
{
    let mut out: Vec<(u64, Task)> = Vec::new();
    for kv in it: m.iter()
        invariant
            out@.len() == it.index(),
            it.seq() == m.iter().remaining(),
            forall|j: int| 0 <= j < out@.len() ==> #[trigger] out@[j] == (*it.seq()[j].0, *it.seq()[j].1),
    {
        let (k, t) = kv;
        out.push((*k, t.duplicate()));
    }
    proof {
        let all = m.iter().remaining();
        assert forall|i: int| 0 <= i < out@.len() implies #[trigger] m@.contains_key(out@[i].0) && m@[out@[i].0] == out@[i].1 by {
            assert(out@[i] == (*all[i].0, *all[i].1));
            assert(m@.contains_key(*all[i].0));
        }
        assert forall|k: u64| #[trigger] m@.contains_key(k) implies exists|i: int| 0 <= i < out@.len() && out@[i].0 == k by {
            assert(all.contains((&k, &m@[k])));
            let i = choose|i: int| 0 <= i < all.len() && all[i] == (&k, &m@[k]);
            assert(out@[i] == (*all[i].0, *all[i].1));
        }
    }
    out
}

fn user_entries(m: &HashMap<u64, User>) -> (r: Vec<(u64, User)>)
    ensures
        lists_entries_of(r@, m@),
{
    let mut out: Vec<(u64, User)> = Vec::new();
    for kv in it: m.iter()
        invariant
            out@.len() == it.index(),
            it.seq() == m.iter().remaining(),
            forall|j: int| 0 <= j < out@.len() ==> #[trigger] out@[j] == (*it.seq()[j].0, *it.seq()[j].1),
    {
        let (k, u) = kv;
        out.push((*k, u.duplicate()));
    }
    proof {
        let all = m.iter().remaining();
        assert forall|i: int| 0 <= i < out@.len() implies #[trigger] m@.contains_key(out@[i].0) && m@[out@[i].0] == out@[i].1 by {
            assert(out@[i] == (*all[i].0, *all[i].1));
            assert(m@.contains_key(*all[i].0));
        }
        assert forall|k: u64| #[trigger] m@.contains_key(k) implies exists|i: int| 0 <= i < out@.len() && out@[i].0 == k by {
            assert(all.contains((&k, &m@[k])));
            let i = choose|i: int| 0 <= i < all.len() && all[i] == (&k, &m@[k]);
            assert(out@[i] == (*all[i].0, *all[i].1));
        }
    }
    out
}

impl Database {
    /// Every stored task and every stored user with the key it is held under, in no
    /// particular order: what persisting the store writes out.
    pub fn entries(&self) -> (r: (Vec<(u64, Task)>, Vec<(u64, User)>))
        ensures
            lists_entries_of(r.0@, self.tasks@),
            lists_entries_of(r.1@, self.users@),
    {
        (task_entries(&self.tasks), user_entries(&self.users))
    }

    /// The store that holds the given entries, a later entry replacing an earlier one
    /// with the same key: what reloading a persisted store reads back.
    pub fn from_entries(tasks: Vec<(u64, Task)>, users: Vec<(u64, User)>) -> (r: Database)
        ensures
            r.tasks@ == entries_map(tasks@),
            r.users@ == entries_map(users@),
    {
        let mut db = Database::new();
        for kv in it: tasks
            invariant
                it.seq() == tasks@,
                db.tasks@ == entries_map(tasks@.take(it.index() as int)),
                db.users@ == Map::<u64, User>::empty(),
        {
            let (k, t) = kv;
            proof {
                assert(tasks@.take(it.index() + 1).drop_last() == tasks@.take(it.index() as int));
            }
            db.tasks.insert(k, t);
        }
        assert(tasks@.take(tasks@.len() as int) == tasks@);
        for kv in it: users
            invariant
                it.seq() == users@,
                db.tasks@ == entries_map(tasks@),
                db.users@ == entries_map(users@.take(it.index() as int)),
        {
            let (k, u) = kv;
            proof {
                assert(users@.take(it.index() + 1).drop_last() == users@.take(it.index() as int));
            }
            db.users.insert(k, u);
        }
        assert(users@.take(users@.len() as int) == users@);
        db
    }
}

} // verus!
