use crate::models::{Database, Task, User};
use vstd::prelude::*;

verus! {

/// What a request is answered with.
pub enum Body<'a> {
    Empty,
    Task(&'a Task),
    Tasks(Vec<&'a Task>),
    Text(&'static str),
}

/// An answer to one request: the HTTP status, the body, and whether the request
/// changed the store, so that the store has to be written out before answering.
pub struct Reply<'a> {
    pub status: u16,
    pub body: Body<'a>,
    pub persist: bool,
}

/// The answer to a request that changed the store.
pub open spec fn is_saved_ok(r: Reply) -> bool {
    r.status == 200 && r.body is Empty && r.persist
}

/// Some stored user has this username and this password.
pub open spec fn credentials_match(db: &Database, name: Seq<char>, password: Seq<char>) -> bool {
    exists|u: User|
        #[trigger] db.users@.values().contains(u) && u.username@ == name && u.password@ == password
}

/// Some stored user has this username but another password.
pub open spec fn credentials_clash(db: &Database, name: Seq<char>, password: Seq<char>) -> bool {
    exists|u: User|
        #[trigger] db.users@.values().contains(u) && u.username@ == name && u.password@ != password
}

/// At most one stored user has this username.
pub open spec fn username_unique(db: &Database, name: Seq<char>) -> bool {
    forall|u: User, v: User|
        #[trigger] db.users@.values().contains(u) && #[trigger] db.users@.values().contains(v)
            && u.username@ == name && v.username@ == name ==> u == v
}

pub const LOGGED_IN: &'static str = "Logged in!";

pub const INVALID_CREDENTIALS: &'static str = "Invalid username or password";

/// Stores a new task (or replaces the one with its id).
pub fn create_task(db: &mut Database, task: Task) -> (r: Reply<'static>)
    ensures
        final(db).tasks@ == old(db).tasks@.insert(task.id, task),
        final(db).users@ == old(db).users@,
        is_saved_ok(r),
{
    db.insert(task);
    Reply { status: 200, body: Body::Empty, persist: true }
}

/// Answers with the task stored under `id`, or with "not found".
pub fn read_task(db: &Database, id: u64) -> (r: Reply<'_>)
    ensures
        !r.persist,
        db.tasks@.contains_key(id) ==> r.status == 200 && r.body == Body::Task(&db.tasks@[id]),
        !db.tasks@.contains_key(id) ==> r.status == 404 && r.body is Empty,
{
    match db.get(&id) {
        Some(task) => Reply { status: 200, body: Body::Task(task), persist: false },
        None => Reply { status: 404, body: Body::Empty, persist: false },
    }
}

/// Answers with every stored task.
pub fn read_all_tasks(db: &Database) -> (r: Reply<'_>)
    ensures
        r.status == 200,
        !r.persist,
        r.body is Tasks,
        r.body->Tasks_0@.len() == db.tasks@.len(),
        r.body->Tasks_0@.unref().to_set() == db.tasks@.values(),
{
    Reply { status: 200, body: Body::Tasks(db.get_all()), persist: false }
}

/// Stores `task` under its id, whether or not a task was there before.
pub fn update_task(db: &mut Database, task: Task) -> (r: Reply<'static>)
    ensures
        final(db).tasks@ == old(db).tasks@.insert(task.id, task),
        final(db).users@ == old(db).users@,
        is_saved_ok(r),
{
    db.update(task);
    Reply { status: 200, body: Body::Empty, persist: true }
}

/// Removes the task stored under `id`; an absent id is no error.
pub fn delete_task(db: &mut Database, id: u64) -> (r: Reply<'static>)
    ensures
        final(db).tasks@ == old(db).tasks@.remove(id),
        final(db).users@ == old(db).users@,
        is_saved_ok(r),
{
    db.delete(&id);
    Reply { status: 200, body: Body::Empty, persist: true }
}

/// Stores a new user (or replaces the one with its id).
pub fn register(db: &mut Database, user: User) -> (r: Reply<'static>)
    ensures
        final(db).users@ == old(db).users@.insert(user.id, user),
        final(db).tasks@ == old(db).tasks@,
        is_saved_ok(r),
{
    db.insert_user(user);
    Reply { status: 200, body: Body::Empty, persist: true }
}

/// Looks the user up by name and compares the passwords exactly.
pub fn login(db: &Database, credentials: &User) -> (r: Reply<'static>)
    ensures
        !r.persist,
        r.status == 200 || r.status == 400,
        r.status == 200 ==> r.body == Body::Text(LOGGED_IN),
        r.status == 400 ==> r.body == Body::Text(INVALID_CREDENTIALS),
        r.status == 200 ==> credentials_match(db, credentials.username@, credentials.password@),
        r.status == 400 ==> !db.has_username(credentials.username@) || credentials_clash(
            db,
            credentials.username@,
            credentials.password@,
        ),
        username_unique(db, credentials.username@) ==> (r.status == 200 <==> credentials_match(
            db,
            credentials.username@,
            credentials.password@,
        )),
{
    match db.get_user_by_name(credentials.username.as_str()) {
        Some(stored) => {
            if stored.password == credentials.password {
                return Reply { status: 200, body: Body::Text(LOGGED_IN), persist: false };
            }
        },
        None => {},
    }
    Reply { status: 400, body: Body::Text(INVALID_CREDENTIALS), persist: false }
}

} // verus!
