use miso::index::LabelIndex;
use miso::search;
use miso::sync;
use miso::system::System;

fn s(text: &str) -> String {
    text.to_string()
}

fn sample_index() -> LabelIndex {
    let mut index = LabelIndex::new();
    index.append(&s("GitHub"));
    index.append(&s("gitlab"));
    index.append(&s("aws"));
    index
}

#[test]
fn search_is_case_insensitive_substring_in_index_order() {
    let index = sample_index();
    assert_eq!(search::search(&index, &s("git")), vec![s("GitHub"), s("gitlab")]);
}

#[test]
fn empty_query_matches_every_label() {
    let index = sample_index();
    assert_eq!(search::search(&index, &s("")), vec![s("GitHub"), s("gitlab"), s("aws")]);
}

#[test]
fn query_casing_does_not_matter() {
    let index = sample_index();
    assert_eq!(search::search(&index, &s("GIT")), vec![s("GitHub"), s("gitlab")]);
    assert!(search::matches_query(&s("GitHub"), &s("hub")));
    assert!(search::matches_query(&s("github"), &s("HUB")));
    assert!(!search::matches_query(&s("aws"), &s("git")));
}

#[test]
fn unmatched_query_returns_nothing() {
    let index = sample_index();
    assert_eq!(search::search(&index, &s("azure")), Vec::<String>::new());
}

#[test]
fn list_returns_all_labels_in_insertion_order() {
    let index = sample_index();
    assert_eq!(sync::list(&index), vec![s("GitHub"), s("gitlab"), s("aws")]);
}

#[test]
fn system_search_sees_created_labels() {
    let mut sys = System::new();
    sys.create(&s("GitHub"), &s("a"), false, true, true).unwrap();
    sys.create(&s("gitlab"), &s("b"), false, true, true).unwrap();
    sys.create(&s("aws"), &s("c"), false, true, true).unwrap();
    assert_eq!(sys.search(&s("git")), vec![s("GitHub"), s("gitlab")]);
    assert_eq!(sys.search(&s("")), vec![s("GitHub"), s("gitlab"), s("aws")]);
}

#[test]
fn contains_and_plans_follow_index_membership() {
    let index = sample_index();
    assert!(index.contains(&s("GitHub")));
    assert!(!index.contains(&s("github")));
    assert!(matches!(
        sync::create_plan(&index, &s("GitHub"), false),
        sync::CreatePlan::Reject
    ));
    assert!(matches!(
        sync::create_plan(&index, &s("GitHub"), true),
        sync::CreatePlan::StoreOnly
    ));
    assert!(matches!(
        sync::create_plan(&index, &s("new-label"), false),
        sync::CreatePlan::AppendThenStore
    ));
    assert!(matches!(
        sync::delete_plan(&index, &s("aws")),
        sync::DeletePlan::RemoveSecretFirst
    ));
    assert!(matches!(
        sync::delete_plan(&index, &s("azure")),
        sync::DeletePlan::NotPresent
    ));
}

#[test]
fn index_remove_drops_exactly_the_label() {
    let mut index = sample_index();
    index.remove(&s("gitlab"));
    assert_eq!(index.to_labels(), vec![s("GitHub"), s("aws")]);
    index.remove(&s("absent"));
    assert_eq!(index.to_labels(), vec![s("GitHub"), s("aws")]);
}
