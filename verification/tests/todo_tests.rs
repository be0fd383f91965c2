use todo_store::todo::{Todo, TodoError, TodoStore};

const TITLE_MSG: &str = "Title must be between 1 and 200 characters";
const DESC_MSG: &str = "Description must be at most 2000 characters";

fn validation_message(e: TodoError) -> String {
    match e {
        TodoError::ValidationError(m) => m,
        TodoError::NotFound => panic!("expected a validation error, got NotFound"),
    }
}

#[test]
fn create_valid_returns_input_fields() {
    let mut store = TodoStore::new();
    let task = store
        .create("Write tests", Some("Add unit tests for auth module"))
        .unwrap();
    assert_eq!(task.title, "Write tests");
    assert_eq!(task.description.as_deref(), Some("Add unit tests for auth module"));
    assert!(!task.completed);
    assert!(task.id > 0);
}

#[test]
fn create_boundary_lengths_accepted() {
    let mut store = TodoStore::new();
    assert!(store.create("a", None).is_ok());
    assert!(store.create(&"b".repeat(200), None).is_ok());
    assert!(store.create("c", Some(&"d".repeat(2000))).is_ok());
    assert!(store.create("e", Some("")).is_ok());
}

#[test]
fn create_empty_title_fails_and_store_unchanged() {
    let mut store = TodoStore::new();
    let err = store.create("", None).unwrap_err();
    assert_eq!(validation_message(err), TITLE_MSG);
    assert_eq!(store.list(None).len(), 0);
    // The counter did not move: the next successful create still gets id 1.
    let task = store.create("first", None).unwrap();
    assert_eq!(task.id, 1);
}

#[test]
fn create_overlong_title_fails_and_store_unchanged() {
    let mut store = TodoStore::new();
    let err = store.create(&"x".repeat(201), None).unwrap_err();
    assert_eq!(validation_message(err), TITLE_MSG);
    assert_eq!(store.list(None).len(), 0);
    let task = store.create("first", None).unwrap();
    assert_eq!(task.id, 1);
}

#[test]
fn create_overlong_description_fails() {
    let mut store = TodoStore::new();
    let err = store.create("ok", Some(&"x".repeat(2001))).unwrap_err();
    assert_eq!(validation_message(err), DESC_MSG);
    assert_eq!(store.list(None).len(), 0);
}

#[test]
fn create_counts_characters_not_bytes() {
    let mut store = TodoStore::new();
    // 200 two-byte characters: within the 200-character title limit.
    assert!(store.create(&"é".repeat(200), None).is_ok());
    let err = store.create(&"é".repeat(201), None).unwrap_err();
    assert_eq!(validation_message(err), TITLE_MSG);
}

#[test]
fn create_ids_strictly_increase_from_one() {
    let mut store = TodoStore::new();
    let a = store.create("a", None).unwrap().id;
    let b = store.create("b", None).unwrap().id;
    let c = store.create("c", None).unwrap().id;
    assert_eq!((a, b, c), (1, 2, 3));
}

#[test]
fn get_unknown_id_not_found() {
    let mut store = TodoStore::new();
    store.create("a", None).unwrap();
    assert!(matches!(store.get(0), Err(TodoError::NotFound)));
    assert!(matches!(store.get(42), Err(TodoError::NotFound)));
}

#[test]
fn get_after_delete_not_found() {
    let mut store = TodoStore::new();
    let id = store.create("a", None).unwrap().id;
    store.delete(id).unwrap();
    assert!(matches!(store.get(id), Err(TodoError::NotFound)));
}

#[test]
fn create_then_get_round_trip() {
    let mut store = TodoStore::new();
    let created = store.create("Write tests", Some("soon")).unwrap();
    let fetched = store.get(created.id).unwrap();
    assert_eq!(fetched.id, created.id);
    assert_eq!(fetched.title, created.title);
    assert_eq!(fetched.description, created.description);
    assert_eq!(fetched.completed, created.completed);
}

#[test]
fn list_none_returns_all_in_insertion_order() {
    let mut store = TodoStore::new();
    store.create("first", None).unwrap();
    store.create("second", None).unwrap();
    store.create("third", None).unwrap();
    let titles: Vec<String> = store.list(None).into_iter().map(|t| t.title).collect();
    assert_eq!(titles, vec!["first", "second", "third"]);
}

#[test]
fn list_filters_by_completed_flag() {
    let mut store = TodoStore::new();
    let a = store.create("a", None).unwrap().id;
    let b = store.create("b", None).unwrap().id;
    let c = store.create("c", None).unwrap().id;
    store.update(b, None, None, Some(true)).unwrap();
    let done: Vec<u64> = store.list(Some(true)).into_iter().map(|t| t.id).collect();
    let open: Vec<u64> = store.list(Some(false)).into_iter().map(|t| t.id).collect();
    assert_eq!(done, vec![b]);
    assert_eq!(open, vec![a, c]);
}

#[test]
fn update_changes_only_provided_fields() {
    let mut store = TodoStore::new();
    let id = store.create("old title", Some("old desc")).unwrap().id;
    let updated = store.update(id, Some("New"), None, None).unwrap();
    assert_eq!(updated.title, "New");
    assert_eq!(updated.description.as_deref(), Some("old desc"));
    assert!(!updated.completed);
    let fetched = store.get(id).unwrap();
    assert_eq!(fetched.title, "New");
    assert_eq!(fetched.description.as_deref(), Some("old desc"));
    assert!(!fetched.completed);
}

#[test]
fn update_completed_only() {
    let mut store = TodoStore::new();
    let id = store.create("a", Some("d")).unwrap().id;
    let updated = store.update(id, None, None, Some(true)).unwrap();
    assert!(updated.completed);
    assert_eq!(updated.title, "a");
    assert_eq!(updated.description.as_deref(), Some("d"));
}

#[test]
fn update_clears_description() {
    let mut store = TodoStore::new();
    let id = store.create("a", Some("to be cleared")).unwrap().id;
    let updated = store.update(id, None, Some(None), None).unwrap();
    assert_eq!(updated.description, None);
    let fetched = store.get(id).unwrap();
    assert_eq!(fetched.description, None);
}

#[test]
fn update_replaces_description() {
    let mut store = TodoStore::new();
    let id = store.create("a", None).unwrap().id;
    let updated = store.update(id, None, Some(Some("fresh")), None).unwrap();
    assert_eq!(updated.description.as_deref(), Some("fresh"));
}

#[test]
fn update_unknown_id_not_found() {
    let mut store = TodoStore::new();
    assert!(matches!(store.update(7, Some("t"), None, None), Err(TodoError::NotFound)));
}

#[test]
fn update_invalid_title_applies_nothing() {
    let mut store = TodoStore::new();
    let id = store.create("keep", Some("keep desc")).unwrap().id;
    let err = store.update(id, Some(""), None, Some(true)).unwrap_err();
    assert_eq!(validation_message(err), TITLE_MSG);
    let fetched = store.get(id).unwrap();
    assert_eq!(fetched.title, "keep");
    assert_eq!(fetched.description.as_deref(), Some("keep desc"));
    assert!(!fetched.completed);
}

#[test]
fn update_invalid_description_applies_nothing() {
    // Atomicity: even though the provided title is valid, the invalid
    // description makes the whole update a no-op.
    let mut store = TodoStore::new();
    let id = store.create("keep", Some("keep desc")).unwrap().id;
    let too_long = "x".repeat(2001);
    let err = store
        .update(id, Some("New"), Some(Some(&too_long)), Some(true))
        .unwrap_err();
    assert_eq!(validation_message(err), DESC_MSG);
    let fetched = store.get(id).unwrap();
    assert_eq!(fetched.title, "keep");
    assert_eq!(fetched.description.as_deref(), Some("keep desc"));
    assert!(!fetched.completed);
}

#[test]
fn delete_returns_task_as_it_stood() {
    let mut store = TodoStore::new();
    let id = store.create("doomed", Some("last words")).unwrap().id;
    store.update(id, None, None, Some(true)).unwrap();
    let removed = store.delete(id).unwrap();
    assert_eq!(removed.id, id);
    assert_eq!(removed.title, "doomed");
    assert_eq!(removed.description.as_deref(), Some("last words"));
    assert!(removed.completed);
    assert!(matches!(store.delete(id), Err(TodoError::NotFound)));
}

#[test]
fn delete_does_not_reuse_ids() {
    let mut store = TodoStore::new();
    let a = store.create("a", None).unwrap().id;
    let b = store.create("b", None).unwrap().id;
    store.delete(b).unwrap();
    let c = store.create("c", None).unwrap().id;
    assert_eq!((a, b, c), (1, 2, 3));
    // The survivor kept its id.
    assert_eq!(store.get(a).unwrap().title, "a");
}

#[test]
fn todo_new_returns_unstored_task() {
    let task = Todo::new("standalone", None).unwrap();
    assert_eq!(task.id, 0);
    assert_eq!(task.title, "standalone");
    assert_eq!(task.description, None);
    assert!(!task.completed);
}

#[test]
fn todo_new_rejects_bad_fields() {
    let err = Todo::new("", None).unwrap_err();
    assert_eq!(validation_message(err), TITLE_MSG);
    let err = Todo::new(&"t".repeat(201), None).unwrap_err();
    assert_eq!(validation_message(err), TITLE_MSG);
    let err = Todo::new("ok", Some(&"d".repeat(2001))).unwrap_err();
    assert_eq!(validation_message(err), DESC_MSG);
}
