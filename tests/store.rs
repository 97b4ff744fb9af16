use task_store::cors::origin_allowed;
use task_store::handlers::{
    create_task, delete_task, login, read_all_tasks, read_task, register, update_task, Body,
    INVALID_CREDENTIALS, LOGGED_IN,
};
use task_store::models::{Database, Task, User};

fn task(id: u64, name: &str, completed: bool) -> Task {
    Task { id, name: name.to_string(), completed }
}

fn user(id: u64, username: &str, password: &str) -> User {
    User { id, username: username.to_string(), password: password.to_string() }
}

fn same_task(a: &Task, b: &Task) -> bool {
    a.id == b.id && a.name == b.name && a.completed == b.completed
}

#[test]
fn new_store_is_empty() {
    let db = Database::new();
    assert!(db.tasks.is_empty());
    assert!(db.users.is_empty());
    assert!(db.get_all().is_empty());
}

#[test]
fn insert_then_get_returns_task() {
    let mut db = Database::new();
    db.insert(task(42, "write report", true));
    let got = db.get(&42).expect("task present");
    assert!(same_task(got, &task(42, "write report", true)));
}

#[test]
fn insert_largest_id() {
    let mut db = Database::new();
    db.insert(task(u64::MAX, "edge", false));
    assert!(same_task(db.get(&u64::MAX).unwrap(), &task(u64::MAX, "edge", false)));
    assert!(db.get(&0).is_none());
}

#[test]
fn insert_same_id_overwrites() {
    let mut db = Database::new();
    db.insert(task(1, "first", false));
    db.insert(task(1, "second", true));
    assert_eq!(db.tasks.len(), 1);
    assert!(same_task(db.get(&1).unwrap(), &task(1, "second", true)));
}

#[test]
fn delete_then_get_is_not_found() {
    let mut db = Database::new();
    db.insert(task(3, "x", false));
    db.delete(&3);
    assert!(db.get(&3).is_none());
}

#[test]
fn delete_absent_id_is_noop() {
    let mut db = Database::new();
    db.insert(task(1, "keep", false));
    db.delete(&99);
    db.delete(&99);
    assert!(db.get(&99).is_none());
    assert_eq!(db.tasks.len(), 1);
    assert!(same_task(db.get(&1).unwrap(), &task(1, "keep", false)));
}

#[test]
fn update_absent_id_creates() {
    let mut a = Database::new();
    let mut b = Database::new();
    a.update(task(5, "new", true));
    b.insert(task(5, "new", true));
    assert_eq!(a.tasks.len(), 1);
    assert!(same_task(a.get(&5).unwrap(), b.get(&5).unwrap()));
}

#[test]
fn update_present_id_replaces() {
    let mut db = Database::new();
    db.insert(task(5, "old", false));
    db.update(task(5, "new", true));
    assert!(same_task(db.get(&5).unwrap(), &task(5, "new", true)));
}

#[test]
fn get_all_lists_each_inserted_task() {
    let mut db = Database::new();
    for i in 0..10u64 {
        db.insert(task(i, &format!("t{}", i), i % 2 == 0));
    }
    let all = db.get_all();
    assert_eq!(all.len(), 10);
    let mut ids: Vec<u64> = all.iter().map(|t| t.id).collect();
    ids.sort();
    assert_eq!(ids, (0..10u64).collect::<Vec<u64>>());
    for t in all {
        assert_eq!(t.name, format!("t{}", t.id));
    }
}

#[test]
fn get_user_by_name_finds_match() {
    let mut db = Database::new();
    db.insert_user(user(1, "alice", "secret"));
    db.insert_user(user(2, "bob", "hunter2"));
    let found = db.get_user_by_name("bob").unwrap();
    assert_eq!(found.id, 2);
    assert!(db.get_user_by_name("carol").is_none());
    assert!(db.get_user_by_name("Bob").is_none());
}

#[test]
fn entries_then_from_entries_round_trip() {
    let mut db = Database::new();
    db.insert(task(1, "a", false));
    db.insert(task(2, "b", true));
    db.insert_user(user(7, "alice", "secret"));
    let (tasks, users) = db.entries();
    assert_eq!(tasks.len(), 2);
    assert_eq!(users.len(), 1);
    let back = Database::from_entries(tasks, users);
    assert_eq!(back.tasks.len(), 2);
    assert!(same_task(back.get(&1).unwrap(), &task(1, "a", false)));
    assert!(same_task(back.get(&2).unwrap(), &task(2, "b", true)));
    let u = back.users.get(&7).unwrap();
    assert_eq!((u.id, u.username.as_str(), u.password.as_str()), (7, "alice", "secret"));
}

#[test]
fn from_entries_later_entry_wins() {
    let tasks = vec![(1, task(1, "first", false)), (1, task(1, "second", true))];
    let db = Database::from_entries(tasks, Vec::new());
    assert_eq!(db.tasks.len(), 1);
    assert!(same_task(db.get(&1).unwrap(), &task(1, "second", true)));
}

#[test]
fn task_lifecycle_over_handlers() {
    let mut db = Database::new();
    let r = create_task(&mut db, task(1, "buy milk", false));
    assert_eq!(r.status, 200);
    assert!(r.persist);
    assert!(matches!(r.body, Body::Empty));
    let r = read_task(&db, 1);
    assert_eq!(r.status, 200);
    match r.body {
        Body::Task(t) => assert!(same_task(t, &task(1, "buy milk", false))),
        _ => panic!("expected a task body"),
    }
    let r = delete_task(&mut db, 1);
    assert_eq!(r.status, 200);
    let r = read_task(&db, 1);
    assert_eq!(r.status, 404);
    assert!(matches!(r.body, Body::Empty));
}

#[test]
fn read_all_and_update_over_handlers() {
    let mut db = Database::new();
    create_task(&mut db, task(1, "a", false));
    let r = update_task(&mut db, task(2, "b", true));
    assert_eq!(r.status, 200);
    assert!(r.persist);
    let r = read_all_tasks(&db);
    assert_eq!(r.status, 200);
    assert!(!r.persist);
    match r.body {
        Body::Tasks(v) => assert_eq!(v.len(), 2),
        _ => panic!("expected a list body"),
    }
}

#[test]
fn register_then_login() {
    let mut db = Database::new();
    let r = register(&mut db, user(1, "alice", "secret"));
    assert_eq!(r.status, 200);
    assert!(r.persist);
    let r = login(&db, &user(1, "alice", "wrong"));
    assert_eq!(r.status, 400);
    assert!(matches!(r.body, Body::Text(s) if s == "Invalid username or password"));
    let r = login(&db, &user(1, "alice", "secret"));
    assert_eq!(r.status, 200);
    assert!(matches!(r.body, Body::Text(s) if s == "Logged in!"));
}

#[test]
fn login_unknown_user_and_case_sensitive_password() {
    let mut db = Database::new();
    register(&mut db, user(1, "alice", "secret"));
    assert_eq!(login(&db, &user(9, "mallory", "secret")).status, 400);
    assert_eq!(login(&db, &user(1, "alice", "Secret")).status, 400);
    assert_eq!(login(&db, &user(1, "Alice", "secret")).status, 400);
    assert_eq!(LOGGED_IN, "Logged in!");
    assert_eq!(INVALID_CREDENTIALS, "Invalid username or password");
}

#[test]
fn cors_origins() {
    assert!(origin_allowed(b"http://localhost"));
    assert!(origin_allowed(b"http://localhost:3000"));
    assert!(origin_allowed(b"null"));
    assert!(!origin_allowed(b"https://localhost"));
    assert!(!origin_allowed(b"http://example.com"));
    assert!(!origin_allowed(b"nul"));
    assert!(!origin_allowed(b"nulls"));
    assert!(!origin_allowed(b""));
}
