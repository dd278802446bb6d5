use miso::errors::{DeleteOutcome, Error};
use miso::system::System;

fn s(text: &str) -> String {
    text.to_string()
}

#[test]
fn create_then_get_returns_secret() {
    let mut sys = System::new();
    assert_eq!(sys.create(&s("github"), &s("hunter2"), false, true, true), Ok(()));
    assert_eq!(sys.get(&s("github")), Ok(s("hunter2")));
}

#[test]
fn get_absent_is_not_found() {
    let sys = System::new();
    assert_eq!(sys.get(&s("github")), Err(Error::NotFound));
}

#[test]
fn delete_absent_twice_is_benign_noop_both_times() {
    let mut sys = System::new();
    assert_eq!(sys.delete(&s("github"), true, true), Ok(DeleteOutcome::NotPresent));
    assert_eq!(sys.delete(&s("github"), true, true), Ok(DeleteOutcome::NotPresent));
    assert!(sys.list().is_empty());
}

#[test]
fn force_overwrite_keeps_one_entry_and_new_secret() {
    let mut sys = System::new();
    assert_eq!(sys.create(&s("github"), &s("first"), false, true, true), Ok(()));
    assert_eq!(sys.create(&s("github"), &s("second"), true, true, true), Ok(()));
    assert_eq!(sys.list(), vec![s("github")]);
    assert_eq!(sys.get(&s("github")), Ok(s("second")));
}

#[test]
fn create_without_force_rejects_and_keeps_old_secret() {
    let mut sys = System::new();
    assert_eq!(sys.create(&s("github"), &s("first"), false, true, true), Ok(()));
    assert_eq!(
        sys.create(&s("github"), &s("second"), false, true, true),
        Err(Error::AlreadyExists)
    );
    assert_eq!(sys.get(&s("github")), Ok(s("first")));
    assert_eq!(sys.list(), vec![s("github")]);
}

#[test]
fn list_reflects_deletions() {
    let mut sys = System::new();
    assert_eq!(sys.create(&s("alpha"), &s("pw-a"), false, true, true), Ok(()));
    assert_eq!(sys.create(&s("beta"), &s("pw-b"), false, true, true), Ok(()));
    assert_eq!(sys.delete(&s("alpha"), true, true), Ok(DeleteOutcome::Deleted));
    assert_eq!(sys.list(), vec![s("beta")]);
    assert_eq!(sys.get(&s("alpha")), Err(Error::NotFound));
}

#[test]
fn orphan_entry_surfaces_as_not_found_and_heals_on_forced_create() {
    let mut sys = System::new();
    assert_eq!(
        sys.create(&s("github"), &s("hunter2"), false, true, false),
        Err(Error::BackendWriteFailed)
    );
    assert_eq!(sys.list(), vec![s("github")]);
    assert_eq!(sys.get(&s("github")), Err(Error::NotFound));
    assert_eq!(sys.create(&s("github"), &s("hunter3"), true, true, true), Ok(()));
    assert_eq!(sys.list(), vec![s("github")]);
    assert_eq!(sys.get(&s("github")), Ok(s("hunter3")));
}

#[test]
fn failed_index_write_on_create_changes_nothing() {
    let mut sys = System::new();
    assert_eq!(
        sys.create(&s("github"), &s("hunter2"), false, false, true),
        Err(Error::IndexWriteFailed)
    );
    assert!(sys.list().is_empty());
    assert_eq!(sys.get(&s("github")), Err(Error::NotFound));
}

#[test]
fn failed_backend_delete_keeps_index_entry() {
    let mut sys = System::new();
    assert_eq!(sys.create(&s("github"), &s("hunter2"), false, true, true), Ok(()));
    assert_eq!(sys.delete(&s("github"), false, true), Err(Error::BackendDeleteFailed));
    assert_eq!(sys.list(), vec![s("github")]);
    assert_eq!(sys.get(&s("github")), Ok(s("hunter2")));
}

#[test]
fn failed_index_write_on_delete_keeps_index_entry() {
    let mut sys = System::new();
    assert_eq!(sys.create(&s("github"), &s("hunter2"), false, true, true), Ok(()));
    assert_eq!(sys.delete(&s("github"), true, false), Err(Error::IndexWriteFailed));
    assert_eq!(sys.list(), vec![s("github")]);
    assert_eq!(sys.get(&s("github")), Err(Error::NotFound));
}

#[test]
fn repeated_creates_never_duplicate_a_label() {
    let mut sys = System::new();
    assert_eq!(sys.create(&s("github"), &s("a"), false, true, true), Ok(()));
    assert_eq!(
        sys.create(&s("github"), &s("b"), false, true, true),
        Err(Error::AlreadyExists)
    );
    assert_eq!(sys.create(&s("github"), &s("c"), true, true, true), Ok(()));
    assert_eq!(
        sys.create(&s("github"), &s("d"), false, true, false),
        Err(Error::AlreadyExists)
    );
    assert_eq!(sys.list(), vec![s("github")]);
}
