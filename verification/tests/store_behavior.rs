use solstice::models::{NewTask, StoreError, TaskPatch};
use solstice::store::Store;

fn new_task(title: &str) -> NewTask {
    NewTask { title: title.to_string() }
}

fn no_patch() -> TaskPatch {
    TaskPatch { title: None, completed: None }
}

#[test]
fn migrate_always_succeeds() {
    let s = Store::new();
    assert!(s.migrate().is_ok());
    assert!(s.migrate().is_ok());
}

#[test]
fn empty_store_lists_nothing() {
    let s = Store::new();
    assert_eq!(s.list().unwrap().len(), 0);
}

#[test]
fn create_sets_defaults() {
    let mut s = Store::new();
    let t = s.create_with(new_task("buy milk"), 7, 1_000).unwrap();
    assert_eq!(t.id, 7);
    assert_eq!(t.title, "buy milk");
    assert!(!t.completed);
    assert_eq!(t.created_at, 1_000);
    assert_eq!(t.updated_at, 1_000);
}

#[test]
fn get_after_create_returns_equal_record() {
    let mut s = Store::new();
    let t = s.create_with(new_task("read"), 3, 50).unwrap();
    let g = s.get(3).unwrap();
    assert_eq!(g, t);
}

#[test]
fn create_rejects_reassigned_identifier() {
    let mut s = Store::new();
    s.create_with(new_task("a"), 1, 10).unwrap();
    let r = s.create_with(new_task("b"), 1, 20);
    assert!(matches!(r, Err(StoreError::StorageFault(_))));
    assert_eq!(s.list().unwrap().len(), 1);
    assert_eq!(s.get(1).unwrap().title, "a");
}

#[test]
fn identifier_never_reused_after_delete() {
    let mut s = Store::new();
    s.create_with(new_task("a"), 1, 10).unwrap();
    s.delete(1).unwrap();
    let r = s.create_with(new_task("b"), 1, 20);
    assert!(matches!(r, Err(StoreError::StorageFault(_))));
}

#[test]
fn patch_completed_changes_only_completed_and_updated_at() {
    let mut s = Store::new();
    let t = s.create_with(new_task("walk"), 5, 100).unwrap();
    let p = TaskPatch { title: None, completed: Some(true) };
    let u = s.patch_with(5, p, 250).unwrap();
    assert_eq!(u.id, t.id);
    assert_eq!(u.title, t.title);
    assert_eq!(u.created_at, t.created_at);
    assert!(u.completed);
    assert_eq!(u.updated_at, 250);
    assert!(u.updated_at >= t.updated_at);
    assert_eq!(s.get(5).unwrap(), u);
}

#[test]
fn patch_title_changes_only_title_and_updated_at() {
    let mut s = Store::new();
    let t = s.create_with(new_task("old title"), 5, 100).unwrap();
    let p = TaskPatch { title: Some("new title".to_string()), completed: None };
    let u = s.patch_with(5, p, 300).unwrap();
    assert_eq!(u.title, "new title");
    assert_eq!(u.completed, t.completed);
    assert_eq!(u.created_at, t.created_at);
    assert_eq!(u.updated_at, 300);
}

#[test]
fn empty_patch_still_refreshes_updated_at() {
    let mut s = Store::new();
    let t = s.create_with(new_task("same"), 5, 100).unwrap();
    let u = s.patch_with(5, no_patch(), 900).unwrap();
    assert_eq!(u.title, t.title);
    assert_eq!(u.completed, t.completed);
    assert_eq!(u.created_at, t.created_at);
    assert_eq!(u.updated_at, 900);
}

#[test]
fn updated_at_never_moves_backwards() {
    let mut s = Store::new();
    s.create_with(new_task("steady"), 5, 100).unwrap();
    let u = s.patch_with(5, no_patch(), 40).unwrap();
    assert_eq!(u.updated_at, 100);
    assert_eq!(u.created_at, 100);
}

#[test]
fn operations_on_unknown_identifier_are_not_found() {
    let mut s = Store::new();
    s.create_with(new_task("only"), 1, 10).unwrap();
    assert_eq!(s.get(2), Err(StoreError::NotFound));
    assert_eq!(s.patch_with(2, no_patch(), 20), Err(StoreError::NotFound));
    assert_eq!(s.patch(2, no_patch()), Err(StoreError::NotFound));
    assert_eq!(s.delete(2), Err(StoreError::NotFound));
    assert_eq!(s.list().unwrap().len(), 1);
}

#[test]
fn delete_then_get_and_repeated_delete_are_not_found() {
    let mut s = Store::new();
    s.create_with(new_task("gone"), 9, 10).unwrap();
    assert_eq!(s.delete(9), Ok(()));
    assert_eq!(s.get(9), Err(StoreError::NotFound));
    assert_eq!(s.delete(9), Err(StoreError::NotFound));
    assert_eq!(s.patch_with(9, no_patch(), 20), Err(StoreError::NotFound));
}

#[test]
fn list_is_newest_first() {
    let mut s = Store::new();
    let a = s.create_with(new_task("a"), 1, 10).unwrap();
    let b = s.create_with(new_task("b"), 2, 20).unwrap();
    let c = s.create_with(new_task("c"), 3, 30).unwrap();
    let all = s.list().unwrap();
    assert_eq!(all, vec![c, b, a]);
}

#[test]
fn list_keeps_newest_first_with_equal_timestamps() {
    let mut s = Store::new();
    let a = s.create_with(new_task("a"), 1, 10).unwrap();
    let b = s.create_with(new_task("b"), 2, 10).unwrap();
    let all = s.list().unwrap();
    assert_eq!(all, vec![b, a]);
}

#[test]
fn patch_keeps_list_position() {
    let mut s = Store::new();
    let a = s.create_with(new_task("a"), 1, 10).unwrap();
    s.create_with(new_task("b"), 2, 20).unwrap();
    let p = TaskPatch { title: None, completed: Some(true) };
    let b2 = s.patch_with(2, p, 30).unwrap();
    let all = s.list().unwrap();
    assert_eq!(all, vec![b2, a]);
}

#[test]
fn reading_twice_yields_identical_results() {
    let mut s = Store::new();
    s.create_with(new_task("a"), 1, 10).unwrap();
    s.create_with(new_task("b"), 2, 20).unwrap();
    assert_eq!(s.list().unwrap(), s.list().unwrap());
    assert_eq!(s.get(1).unwrap(), s.get(1).unwrap());
}

#[test]
fn create_draws_distinct_nonzero_identifiers() {
    let mut s = Store::new();
    let a = s.create(new_task("first")).unwrap();
    let b = s.create(new_task("second")).unwrap();
    assert_ne!(a.id, 0);
    assert_ne!(b.id, 0);
    assert_ne!(a.id, b.id);
    assert!(!a.completed);
    assert_eq!(a.created_at, a.updated_at);
    assert_eq!(s.get(a.id).unwrap(), a);
    assert_eq!(s.get(b.id).unwrap(), b);
}

#[test]
fn patch_with_clock_refreshes_updated_at() {
    let mut s = Store::new();
    let t = s.create(new_task("clocked")).unwrap();
    let p = TaskPatch { title: None, completed: Some(true) };
    let u = s.patch(t.id, p).unwrap();
    assert_eq!(u.id, t.id);
    assert_eq!(u.title, t.title);
    assert_eq!(u.created_at, t.created_at);
    assert!(u.completed);
    assert!(u.updated_at >= t.updated_at);
}

#[test]
fn full_task_lifecycle() {
    let mut s = Store::new();
    let created = s.create_with(new_task("buy milk"), 11, 1_000).unwrap();
    assert!(!created.completed);
    let p = TaskPatch { title: None, completed: Some(true) };
    let patched = s.patch_with(11, p, 2_000).unwrap();
    assert!(patched.completed);
    assert_eq!(patched.id, created.id);
    assert_eq!(patched.title, created.title);
    assert_eq!(patched.created_at, created.created_at);
    assert_eq!(s.delete(11), Ok(()));
    assert_eq!(s.get(11), Err(StoreError::NotFound));
}

#[test]
fn error_messages() {
    assert_eq!(StoreError::NotFound.message(), "not found");
    assert_eq!(StoreError::StorageFault("disk on fire".to_string()).message(), "disk on fire");
}
