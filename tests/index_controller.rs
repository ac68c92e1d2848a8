use std::collections::HashMap;

use doc_store::index_controller::{Facets, IndexError, IndexRegistry, IndexSettings, IndexSettingsState, Settings};
use doc_store::updates::{UpdateError, UpdateMeta, UpdatePhase, UpdateResult, UpdateState, UpdateStore};

fn named(name: &str, primary_key: Option<&str>) -> IndexSettings {
    IndexSettings { name: Some(String::from(name)), primary_key: primary_key.map(String::from) }
}

#[test]
fn create_and_list_indexes() {
    let mut controller = IndexRegistry::new();
    controller.create_index(named("test_index", None)).unwrap();
    controller.create_index(named("test_index2", Some("foo"))).unwrap();

    let indexes = controller.list_indexes();
    assert_eq!(indexes.len(), 2);
    assert_eq!(indexes[0].name, "test_index");
    assert_eq!(indexes[1].name, "test_index2");
    assert_eq!(indexes[1].primary_key.clone().unwrap(), "foo");
}

#[test]
fn create_index_with_no_name_is_error() {
    let mut controller = IndexRegistry::new();
    let settings = IndexSettings { name: None, primary_key: None };
    assert_eq!(controller.create_index(settings).err(), Some(IndexError::MissingName));
    assert_eq!(controller.create_index(named("", None)).err(), Some(IndexError::MissingName));
    assert!(controller.list_indexes().is_empty());
}

#[test]
fn create_existing_index_is_error() {
    let mut controller = IndexRegistry::new();
    controller.create_index(named("movies", None)).unwrap();
    assert_eq!(controller.create_index(named("movies", None)).err(), Some(IndexError::IndexAlreadyExists));
    assert_eq!(controller.list_indexes().len(), 1);
}

#[test]
fn update_index() {
    let mut controller = IndexRegistry::new();
    assert!(controller.create_index(named("test", None)).is_ok());

    let settings = IndexSettings { name: None, primary_key: None };
    let result = controller.update_index("test", settings).unwrap();
    assert_eq!(result.name, "test");
    assert_eq!(result.created_at, result.updated_at);
    assert!(result.primary_key.is_none());

    assert_eq!(controller.update_index("test", named("bar", None)).err(), Some(IndexError::ImmutableName));

    let settings = IndexSettings { name: None, primary_key: Some(String::from("foo")) };
    let result = controller.update_index("test", settings.clone()).unwrap();
    assert_eq!(result.name, "test");
    assert!(result.created_at < result.updated_at);
    assert_eq!(result.primary_key.unwrap(), "foo");

    assert_eq!(controller.update_index("test", settings).err(), Some(IndexError::PrimaryKeyAlreadyPresent));
    let listed = controller.list_indexes();
    assert_eq!(listed[0].primary_key.clone().unwrap(), "foo");
}

#[test]
fn update_at_fixed_time_bumps_timestamp() {
    let mut controller = IndexRegistry::new();
    let m = controller.create_index_at(named("t", None), 5, 100).unwrap();
    assert_eq!((m.created_at, m.updated_at, m.uuid), (100, 100, 5));
    let settings = IndexSettings { name: None, primary_key: Some(String::from("id")) };
    let m = controller.update_index_at("t", settings, 100).unwrap();
    assert_eq!(m.updated_at, 101);
    assert_eq!(m.created_at, 100);
}

#[test]
fn update_unknown_index_is_error() {
    let mut controller = IndexRegistry::new();
    let settings = IndexSettings { name: None, primary_key: None };
    assert_eq!(controller.update_index("nope", settings).err(), Some(IndexError::IndexNotFound));
}

#[test]
fn delete_and_swap_indices() {
    let mut controller = IndexRegistry::new();
    controller.create_index_at(named("a", None), 1, 10).unwrap();
    controller.create_index_at(named("b", None), 2, 10).unwrap();
    assert_eq!(controller.index("a"), Some(1));
    controller.swap_indices("a", "b").unwrap();
    assert_eq!(controller.index("a"), Some(2));
    assert_eq!(controller.index("b"), Some(1));
    assert_eq!(controller.swap_indices("a", "c").err(), Some(IndexError::IndexNotFound));
    controller.delete_index("a").unwrap();
    assert_eq!(controller.index("a"), None);
    assert_eq!(controller.delete_index("a").err(), Some(IndexError::IndexNotFound));
    assert_eq!(controller.list_indexes().len(), 1);
}

fn state() -> IndexSettingsState {
    let mut facets = HashMap::new();
    facets.insert(String::from("genre"), String::from("string"));
    IndexSettingsState {
        displayed_attributes: Some(vec![String::from("title")]),
        searchable_attributes: Some(vec![String::from("title"), String::from("body")]),
        faceted_attributes: Some(facets),
        criteria: Some(vec![String::from("typo")]),
    }
}

#[test]
fn settings_tri_state() {
    let mut update = Settings::new();
    update.displayed_attributes = Some(None);
    update.criteria = Some(Some(vec![String::from("words")]));
    let r = update.apply_to(state());
    assert_eq!(r.displayed_attributes, None);
    assert_eq!(r.searchable_attributes, Some(vec![String::from("title"), String::from("body")]));
    assert_eq!(r.faceted_attributes.unwrap().get("genre").unwrap(), "string");
    assert_eq!(r.criteria, Some(vec![String::from("words")]));
}

#[test]
fn cleared_settings_reset_everything() {
    let r = Settings::cleared().apply_to(state());
    assert!(r.displayed_attributes.is_none());
    assert!(r.searchable_attributes.is_none());
    assert!(r.faceted_attributes.is_none());
    assert!(r.criteria.is_none());
}

#[test]
fn empty_settings_change_nothing() {
    let r = Settings::new().apply_to(IndexSettingsState::defaults());
    assert!(r.displayed_attributes.is_none());
    assert!(r.criteria.is_none());
}

#[test]
fn one_processing_update_per_index() {
    let mut store = UpdateStore::new();
    let u0 = store.enqueue("movies", UpdateMeta::ClearDocuments);
    let u1 = store.enqueue("movies", UpdateMeta::DeleteDocuments);
    let u2 = store.enqueue("books", UpdateMeta::ClearDocuments);
    assert_eq!((u0, u1, u2), (0, 1, 2));
    assert_eq!(store.status(u0), Some(UpdatePhase::Enqueued));
    store.start_processing(u0).unwrap();
    assert_eq!(store.start_processing(u1).err(), Some(UpdateError::IndexBusy));
    store.start_processing(u2).unwrap();
    assert_eq!(store.status(u0), Some(UpdatePhase::Processing));
    assert_eq!(store.status(u2), Some(UpdatePhase::Processing));
    store.finish(u0, Ok(UpdateResult::DocumentDeletion { deleted: 3 })).unwrap();
    assert_eq!(store.status(u0), Some(UpdatePhase::Processed));
    store.start_processing(u1).unwrap();
    store.finish(u1, Err(String::from("bad payload"))).unwrap();
    assert_eq!(store.status(u1), Some(UpdatePhase::Failed));
}

#[test]
fn final_states_do_not_change() {
    let mut store = UpdateStore::new();
    let u = store.enqueue("movies", UpdateMeta::ClearDocuments);
    assert_eq!(store.finish(u, Ok(UpdateResult::Other)).err(), Some(UpdateError::NotProcessing));
    store.start_processing(u).unwrap();
    assert_eq!(store.start_processing(u).err(), Some(UpdateError::NotEnqueued));
    store.finish(u, Ok(UpdateResult::Other)).unwrap();
    assert_eq!(store.finish(u, Err(String::from("late"))).err(), Some(UpdateError::NotProcessing));
    assert_eq!(store.start_processing(u).err(), Some(UpdateError::NotEnqueued));
    assert_eq!(store.status(u), Some(UpdatePhase::Processed));
    assert_eq!(store.status(7), None);
    assert_eq!(store.start_processing(7).err(), Some(UpdateError::UnknownUpdate));
}

#[test]
fn ensure_index_creates_once() {
    let mut controller = IndexRegistry::new();
    let m = controller.ensure_index_at("movies", 3, 50).unwrap();
    assert_eq!((m.uuid, m.created_at, m.updated_at), (3, 50, 50));
    assert!(m.primary_key.is_none());
    let again = controller.ensure_index_at("movies", 9, 80).unwrap();
    assert_eq!((again.uuid, again.created_at), (3, 50));
    assert_eq!(controller.list_indexes().len(), 1);
    assert_eq!(controller.ensure_index("").err(), Some(IndexError::MissingName));
    assert_eq!(controller.ensure_index("books").unwrap().name, "books");
    assert_eq!(controller.list_indexes().len(), 2);
}

#[test]
fn facets_reject_zero() {
    assert!(Facets { level_group_size: Some(4), min_level_size: None }.is_valid());
    assert!(!Facets { level_group_size: Some(0), min_level_size: Some(2) }.is_valid());
    assert!(!Facets { level_group_size: None, min_level_size: Some(0) }.is_valid());
}

#[test]
fn full_states_and_index_listing() {
    let mut store = UpdateStore::new();
    let u0 = store.enqueue("movies", UpdateMeta::ClearDocuments);
    let u1 = store.enqueue("books", UpdateMeta::ClearDocuments);
    let u2 = store.enqueue("movies", UpdateMeta::DeleteDocuments);
    assert_eq!(store.index_updates("movies"), vec![u0, u2]);
    assert_eq!(store.index_updates("books"), vec![u1]);
    assert!(store.index_updates("none").is_empty());
    store.start_processing(u0).unwrap();
    store.finish(u0, Err(String::from("bad csv"))).unwrap();
    match store.update_state(u0) {
        Some(UpdateState::Failed(msg)) => assert_eq!(msg, "bad csv"),
        other => panic!("unexpected state {:?}", other),
    }
    store.start_processing(u1).unwrap();
    store.finish(u1, Ok(UpdateResult::DocumentDeletion { deleted: 2 })).unwrap();
    match store.update_state(u1) {
        Some(UpdateState::Processed(r)) => assert_eq!(r, UpdateResult::DocumentDeletion { deleted: 2 }),
        other => panic!("unexpected state {:?}", other),
    }
    assert!(matches!(store.update_state(u2), Some(UpdateState::Enqueued)));
    assert!(store.update_state(3).is_none());
}
