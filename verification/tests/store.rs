//! Entity-store behavior: lookups, uniqueness, capability checks and set
//! reconciliation.

use clowder::db::models::{Capability, Email, Role, RoleAssignment, User};
use clowder::db::store::Store;
use clowder::error::DbError;

fn store_with_users() -> Store {
    let mut c = Store::new();
    c.create_user("alice", "Alice A.").unwrap();
    c.create_user("bob", "Bob B.").unwrap();
    c
}

#[test]
fn create_user_and_lookup() {
    let c = store_with_users();
    let u = User::with_username("alice", &c).unwrap();
    assert_eq!(u.username, "alice");
    assert_eq!(u.name, "Alice A.");
    let again = User::get(u.id, &c).unwrap();
    assert_eq!(again.username, "alice");
}

#[test]
fn unknown_username_is_not_found() {
    let c = store_with_users();
    assert!(matches!(User::with_username("carol", &c), Err(DbError::NotFound)));
    assert!(matches!(User::get(999, &c), Err(DbError::NotFound)));
}

#[test]
fn duplicate_username_is_rejected() {
    let mut c = store_with_users();
    assert!(matches!(c.create_user("alice", "Another Alice"), Err(DbError::UniqueViolation)));
    assert_eq!(User::all(&c).unwrap().len(), 2);
}

#[test]
fn users_are_listed_in_username_order() {
    let mut c = Store::new();
    c.create_user("zoe", "Zoe").unwrap();
    c.create_user("alice", "Alice").unwrap();
    c.create_user("mike", "Mike").unwrap();
    let names: Vec<String> =
        User::all(&c).unwrap().into_iter().map(|u| u.username).collect();
    assert_eq!(names, vec!["alice".to_string(), "mike".to_string(), "zoe".to_string()]);
}

#[test]
fn change_name_updates_the_record() {
    let mut c = store_with_users();
    let u = User::with_username("alice", &c).unwrap();
    let updated = u.change_name("Alice Q.", &mut c).unwrap();
    assert_eq!(updated.name, "Alice Q.");
    assert_eq!(updated.username, "alice");
    assert_eq!(User::with_username("alice", &c).unwrap().name, "Alice Q.");
}

#[test]
fn emails_reconcile_to_the_new_set() {
    let mut c = store_with_users();
    let alice = User::with_username("alice", &c).unwrap();
    alice
        .set_emails(&vec!["a@example.org".to_string(), "b@example.org".to_string()], &mut c)
        .unwrap();
    let mut got = alice.emails(&c).unwrap();
    got.sort();
    assert_eq!(got, vec!["a@example.org".to_string(), "b@example.org".to_string()]);

    alice
        .set_emails(&vec!["b@example.org".to_string(), "c@example.org".to_string()], &mut c)
        .unwrap();
    let mut got = alice.emails(&c).unwrap();
    got.sort();
    assert_eq!(got, vec!["b@example.org".to_string(), "c@example.org".to_string()]);
}

#[test]
fn email_owned_by_another_user_blocks_the_update() {
    let mut c = store_with_users();
    let alice = User::with_username("alice", &c).unwrap();
    let bob = User::with_username("bob", &c).unwrap();
    alice.set_emails(&vec!["a@example.org".to_string()], &mut c).unwrap();
    let r = bob.set_emails(&vec!["a@example.org".to_string()], &mut c);
    assert!(matches!(r, Err(DbError::UniqueViolation)));
    assert!(bob.emails(&c).unwrap().is_empty());
    let owner = User::with_email("a@example.org", &c).unwrap();
    assert_eq!(owner.username, "alice");
}

#[test]
fn email_insert_rejects_duplicates() {
    let mut c = store_with_users();
    let alice = User::with_username("alice", &c).unwrap();
    Email::insert(&alice, "a@example.org", &mut c).unwrap();
    assert!(matches!(
        Email::insert(&alice, "a@example.org", &mut c),
        Err(DbError::UniqueViolation)
    ));
}

#[test]
fn roles_reconcile_to_the_new_set() {
    let mut c = store_with_users();
    c.create_role("admin", true, true, true, true, true).unwrap();
    c.create_role("operator", true, false, false, false, false).unwrap();
    c.create_role("viewer", false, false, false, false, true).unwrap();
    let alice = User::with_username("alice", &c).unwrap();

    alice
        .set_roles(&vec!["admin".to_string(), "viewer".to_string()], &mut c)
        .unwrap();
    let mut names: Vec<String> =
        alice.roles(&c).unwrap().into_iter().map(|r| r.name).collect();
    names.sort();
    assert_eq!(names, vec!["admin".to_string(), "viewer".to_string()]);

    // Regardless of the prior set, the new set is exactly what remains.
    alice
        .set_roles(&vec!["operator".to_string(), "viewer".to_string()], &mut c)
        .unwrap();
    let mut names: Vec<String> =
        alice.roles(&c).unwrap().into_iter().map(|r| r.name).collect();
    names.sort();
    assert_eq!(names, vec!["operator".to_string(), "viewer".to_string()]);
}

#[test]
fn set_roles_with_unknown_name_changes_nothing() {
    let mut c = store_with_users();
    c.create_role("admin", true, true, true, true, true).unwrap();
    let alice = User::with_username("alice", &c).unwrap();
    alice.set_roles(&vec!["admin".to_string()], &mut c).unwrap();
    let r = alice.set_roles(&vec!["admin".to_string(), "ghost".to_string()], &mut c);
    assert!(matches!(r, Err(DbError::NotFound)));
    let names: Vec<String> = alice.roles(&c).unwrap().into_iter().map(|r| r.name).collect();
    assert_eq!(names, vec!["admin".to_string()]);
}

#[test]
fn capability_is_the_or_of_held_roles() {
    let mut c = store_with_users();
    c.create_role("viewer", false, false, false, false, true).unwrap();
    c.create_role("builder", false, false, true, false, false).unwrap();
    let alice = User::with_username("alice", &c).unwrap();

    // No roles at all: every capability is denied.
    assert!(!alice.can_alter_users(&c).unwrap());
    assert!(!alice.can_view_users(&c).unwrap());

    // Roles that all deny a capability leave it denied; one grant suffices.
    alice
        .set_roles(&vec!["viewer".to_string(), "builder".to_string()], &mut c)
        .unwrap();
    assert!(!alice.can_alter_users(&c).unwrap());
    assert!(!alice.can_alter_machines(&c).unwrap());
    assert!(!alice.can_delete_machines(&c).unwrap());
    assert!(alice.can_view_users(&c).unwrap());
    assert!(alice.can_create_machines(&c).unwrap());
    assert!(alice.has_capability(Capability::ViewUsers, &c).unwrap());
}

#[test]
fn inhabits_role_tracks_assignments() {
    let mut c = store_with_users();
    let admin = c.create_role("admin", true, true, true, true, true).unwrap();
    let alice = User::with_username("alice", &c).unwrap();
    assert!(!alice.inhabits_role(&admin, &c).unwrap());
    RoleAssignment::insert(&alice, &admin, &mut c).unwrap();
    assert!(alice.inhabits_role(&admin, &c).unwrap());
    assert!(matches!(
        RoleAssignment::insert(&alice, &admin, &mut c),
        Err(DbError::UniqueViolation)
    ));
}

#[test]
fn roles_are_listed_in_name_order() {
    let mut c = Store::new();
    c.create_role("viewer", false, false, false, false, true).unwrap();
    c.create_role("admin", true, true, true, true, true).unwrap();
    let names: Vec<String> = Role::all(&c).unwrap().into_iter().map(|r| r.name).collect();
    assert_eq!(names, vec!["admin".to_string(), "viewer".to_string()]);
    assert!(matches!(Role::with_name("ghost", &c), Err(DbError::NotFound)));
    assert_eq!(Role::with_name("admin", &c).unwrap().can_alter_users, true);
}

#[test]
fn db_error_messages() {
    assert_eq!(DbError::NotFound.message(), "record not found");
    assert_eq!(DbError::UniqueViolation.message(), "uniqueness constraint violated");
    assert_eq!(DbError::ForeignKeyViolation.message(), "foreign key constraint violated");
    assert_eq!(DbError::NotNullViolation.message(), "not-null constraint violated");
}

#[test]
fn set_roles_with_an_empty_set_clears_all_assignments() {
    let mut c = store_with_users();
    c.create_role("admin", true, true, true, true, true).unwrap();
    let alice = User::with_username("alice", &c).unwrap();
    alice.set_roles(&vec!["admin".to_string()], &mut c).unwrap();
    assert_eq!(alice.roles(&c).unwrap().len(), 1);
    alice.set_roles(&vec![], &mut c).unwrap();
    assert!(alice.roles(&c).unwrap().is_empty());
    assert!(!alice.can_alter_users(&c).unwrap());
}

#[test]
fn set_roles_leaves_other_users_assignments_alone() {
    let mut c = store_with_users();
    c.create_role("admin", true, true, true, true, true).unwrap();
    let alice = User::with_username("alice", &c).unwrap();
    let bob = User::with_username("bob", &c).unwrap();
    bob.set_roles(&vec!["admin".to_string()], &mut c).unwrap();
    alice.set_roles(&vec!["admin".to_string()], &mut c).unwrap();
    alice.set_roles(&vec![], &mut c).unwrap();
    assert_eq!(bob.roles(&c).unwrap().len(), 1);
}
