use user_registry::repositories::check_update;
use user_registry::repositories::in_memory_repository::InMemoryUserRepository;
use user_registry::{LogConfig, User, UserError};

fn user(id: &str, name: &str, email: &str) -> User {
    User { id: id.to_string(), name: name.to_string(), email: email.to_string() }
}

fn sorted(mut users: Vec<User>) -> Vec<User> {
    users.sort_by(|a, b| a.id.cmp(&b.id));
    users
}

fn is_ulid_text(s: &str) -> bool {
    s.len() == 26 && s.chars().all(|c| "0123456789ABCDEFGHJKMNPQRSTVWXYZ".contains(c))
}

#[test]
fn listing_after_creates_holds_exactly_the_created_records() {
    let mut repository = InMemoryUserRepository::new();
    let mut created = Vec::new();
    for (id, name) in [("u1", "Ann"), ("", "Bob"), ("u3", "Cy"), ("", "Di")] {
        let stored = repository.create(user(id, name, "x@example.com")).expect("distinct ids");
        created.push(stored);
    }
    assert_eq!(sorted(repository.get_all()), sorted(created));
}

#[test]
fn listing_of_empty_repository_is_empty() {
    assert_eq!(InMemoryUserRepository::new().get_all(), Vec::<User>::new());
}

#[test]
fn second_create_with_same_id_fails_and_keeps_first_record() {
    let mut repository = InMemoryUserRepository::new();
    let first = user("same", "First", "first@example.com");
    assert_eq!(repository.create(first.clone()), Ok(first.clone()));
    let second = user("same", "Second", "second@example.com");
    assert_eq!(repository.create(second), Err(UserError::DuplicateId));
    assert_eq!(repository.get("same"), Some(first.clone()));
    assert_eq!(repository.get_all(), vec![first]);
}

#[test]
fn update_of_missing_id_fails_with_not_found_and_changes_nothing() {
    let mut repository = InMemoryUserRepository::new();
    let kept = user("kept", "Kept", "kept@example.com");
    assert!(repository.create(kept.clone()).is_ok());
    let result = repository.update("missing", user("fresh", "N", "n@example.com"));
    assert_eq!(result, Err(UserError::NotFound));
    assert_eq!(result.unwrap_err().http_status(), 404);
    assert_eq!(repository.get_all(), vec![kept]);
}

#[test]
fn update_of_missing_id_onto_taken_id_is_not_found() {
    let mut repository = InMemoryUserRepository::new();
    let kept = user("kept", "Kept", "kept@example.com");
    assert!(repository.create(kept.clone()).is_ok());
    let result = repository.update("missing", user("kept", "N", "n@example.com"));
    assert_eq!(result, Err(UserError::NotFound));
    assert_eq!(repository.get_all(), vec![kept]);
}

#[test]
fn rename_onto_taken_id_fails_and_keeps_both_records() {
    let mut repository = InMemoryUserRepository::new();
    let a = user("a", "A", "a@example.com");
    let b = user("b", "B", "b@example.com");
    assert!(repository.create(a.clone()).is_ok());
    assert!(repository.create(b.clone()).is_ok());
    let result = repository.update("a", user("b", "A2", "a2@example.com"));
    assert_eq!(result, Err(UserError::IdConflict));
    assert_eq!(repository.get("a"), Some(a));
    assert_eq!(repository.get("b"), Some(b));
}

#[test]
fn update_in_place_replaces_the_fields() {
    let mut repository = InMemoryUserRepository::new();
    assert!(repository.create(user("a", "A", "a@example.com")).is_ok());
    let changed = user("a", "Alice", "alice@example.com");
    assert_eq!(repository.update("a", changed.clone()), Ok(()));
    assert_eq!(repository.get_all(), vec![changed]);
}

#[test]
fn update_with_new_id_moves_the_record() {
    let mut repository = InMemoryUserRepository::new();
    let other = user("other", "O", "o@example.com");
    assert!(repository.create(user("old", "A", "a@example.com")).is_ok());
    assert!(repository.create(other.clone()).is_ok());
    let moved = user("new", "A", "a@example.com");
    assert_eq!(repository.update("old", moved.clone()), Ok(()));
    assert_eq!(repository.get("old"), None);
    assert_eq!(repository.get("new"), Some(moved.clone()));
    assert_eq!(sorted(repository.get_all()), vec![moved, other]);
}

#[test]
fn delete_present_then_get_is_empty() {
    let mut repository = InMemoryUserRepository::new();
    assert!(repository.create(user("a", "A", "a@example.com")).is_ok());
    assert!(repository.delete("a"));
    assert_eq!(repository.get("a"), None);
    assert!(repository.get_all().is_empty());
}

#[test]
fn delete_absent_is_false_and_changes_nothing() {
    let mut repository = InMemoryUserRepository::new();
    let a = user("a", "A", "a@example.com");
    assert!(repository.create(a.clone()).is_ok());
    assert!(!repository.delete("b"));
    assert_eq!(repository.get_all(), vec![a]);
}

#[test]
fn generated_id_scenario() {
    let mut repository = InMemoryUserRepository::new();
    let created = repository
        .create(user("", "John Doe", "john.doe@example.com"))
        .expect("creation succeeds");
    assert!(!created.id.is_empty());
    assert!(is_ulid_text(&created.id));
    assert_eq!(created.name, "John Doe");
    assert_eq!(repository.get(&created.id), Some(created.clone()));
    let again = user(&created.id, "John Doe", "john.doe@example.com");
    assert_eq!(repository.create(again), Err(UserError::DuplicateId));
}

#[test]
fn rename_conflict_scenario() {
    let mut repository = InMemoryUserRepository::new();
    let user1 = user("U1", "User One", "user.one@example.com");
    let user2 = user("U2", "User Two", "user.two@example.com");
    assert!(repository.create(user1.clone()).is_ok());
    assert!(repository.create(user2).is_ok());
    let result = repository.update("U1", user("U2", "Updated", "updated@example.com"));
    assert_eq!(result, Err(UserError::IdConflict));
    assert_eq!(repository.get("U1"), Some(user1));
}

#[test]
fn generated_ids_differ() {
    let mut repository = InMemoryUserRepository::new();
    let a = repository.create(user("", "A", "a@example.com")).unwrap();
    let b = repository.create(user("", "B", "b@example.com")).unwrap();
    assert_ne!(a.id, b.id);
    assert_eq!(repository.get_all().len(), 2);
}

#[test]
fn insert_new_keeps_an_empty_id() {
    let mut repository = InMemoryUserRepository::new();
    let blank = user("", "Blank", "blank@example.com");
    assert_eq!(repository.insert_new(blank.clone()), Ok(blank.clone()));
    assert_eq!(repository.get(""), Some(blank.clone()));
    assert_eq!(repository.insert_new(blank), Err(UserError::DuplicateId));
}

#[test]
fn new_user_generates_an_id_only_when_none_is_given() {
    let given = User::new(Some("id-1".to_string()), "N".to_string(), "e".to_string());
    assert_eq!(given, user("id-1", "N", "e"));
    let generated = User::new(None, "N".to_string(), "e".to_string());
    assert!(is_ulid_text(&generated.id));
    assert_eq!(generated.name, "N");
    assert_eq!(generated.email, "e");
}

#[test]
fn assigned_id_is_generated_only_for_an_empty_id() {
    let kept = user("k", "K", "k@example.com").with_assigned_id();
    assert_eq!(kept, user("k", "K", "k@example.com"));
    let fresh = user("", "K", "k@example.com").with_assigned_id();
    assert!(is_ulid_text(&fresh.id));
    assert_eq!((fresh.name.as_str(), fresh.email.as_str()), ("K", "k@example.com"));
}

#[test]
fn duplicate_copies_every_field() {
    let original = user("d", "Dee", "dee@example.com");
    assert_eq!(original.duplicate(), original);
}

#[test]
fn error_messages_and_statuses() {
    assert_eq!(UserError::DuplicateId.message(), "User ID already exists");
    assert_eq!(UserError::IdConflict.message(), "New user ID already exists");
    assert_eq!(UserError::NotFound.message(), "User not found");
    assert_eq!(UserError::DuplicateId.http_status(), 400);
    assert_eq!(UserError::IdConflict.http_status(), 400);
    assert_eq!(UserError::NotFound.http_status(), 404);
}

#[test]
fn update_decision_table() {
    assert_eq!(check_update(false, false, false), Err(UserError::NotFound));
    assert_eq!(check_update(false, true, true), Err(UserError::NotFound));
    assert_eq!(check_update(true, true, true), Err(UserError::IdConflict));
    assert_eq!(check_update(true, true, false), Ok(()));
    assert_eq!(check_update(true, false, true), Ok(()));
}

#[test]
fn log_filter_directives() {
    let config = LogConfig { level: "info".to_string() };
    assert_eq!(
        config.filter_directives("user_service"),
        "user_service=info,tower_http=debug,axum::rejection=trace"
    );
}
