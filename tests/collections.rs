use std::path::PathBuf;

use apidesk::collections::{Collection, CollectionRequest, Collections, Entry, Environment, FolderId, RequestId};
use apidesk::request::KeyValue;

fn store_with_collection() -> (Collections, apidesk::keys::CollectionKey) {
    let mut cols = Collections::new();
    let key = cols.create_collection("api".to_string(), PathBuf::from("/data/api"));
    (cols, key)
}

#[test]
fn create_collection_is_empty_and_clean() {
    let (cols, key) = store_with_collection();
    let c = cols.get(key).unwrap();
    assert_eq!(c.name, "api");
    assert_eq!(c.path, PathBuf::from("/data/api"));
    assert!(c.children.is_empty());
    assert!(!c.dirty);
    assert!(!cols.any_dirty());
    assert!(cols.get_collections_for_save().is_empty());
}

#[test]
fn folders_nest_and_report_their_paths() {
    let (mut cols, key) = store_with_collection();
    let top = cols.create_folder_in("users".to_string(), key, None).unwrap();
    assert_eq!(top, PathBuf::from("/data/api/users"));
    let inner = cols.create_folder_in("admin".to_string(), key, Some(FolderId(0))).unwrap();
    assert_eq!(inner, PathBuf::from("/data/api/users/admin"));
    let c = cols.get(key).unwrap();
    assert!(c.dirty);
    assert_eq!(c.children.len(), 1);
    match &c.children[0] {
        Entry::Folder(f) => {
            assert_eq!(f.id, FolderId(0));
            assert_eq!(f.children.len(), 1);
            match &f.children[0] {
                Entry::Folder(g) => assert_eq!(g.id, FolderId(1)),
                Entry::Item(_) => panic!("expected a folder"),
            }
        }
        Entry::Item(_) => panic!("expected a folder"),
    }
    assert!(cols.any_dirty());
    assert_eq!(cols.get_collections_for_save(), vec![key]);
}

#[test]
fn missing_parent_or_collection_is_a_soft_failure() {
    let (mut cols, key) = store_with_collection();
    assert!(cols.create_folder_in("x".to_string(), key, Some(FolderId(42))).is_none());
    assert!(!cols.get(key).unwrap().dirty);
    let removed = cols.remove(key).unwrap();
    assert_eq!(removed.name, "api");
    assert!(cols.create_folder_in("x".to_string(), key, None).is_none());
    assert!(cols.delete_folder(key, FolderId(0)).is_none());
    assert!(cols.get(key).is_none());
    assert!(cols.get_active_env(key).is_none());
}

#[test]
fn delete_folder_removes_its_subtree() {
    let (mut cols, key) = store_with_collection();
    cols.create_folder_in("a".to_string(), key, None).unwrap();
    cols.create_folder_in("b".to_string(), key, Some(FolderId(0))).unwrap();
    let (req, _) = cols.add_request("get".to_string(), key, Some(FolderId(1))).unwrap();
    assert!(cols.get_ref(req).is_some());
    cols.create_folder_in("c".to_string(), key, None).unwrap();
    let path = cols.delete_folder(key, FolderId(1)).unwrap();
    assert_eq!(path, PathBuf::from("/data/api/a/b"));
    assert!(cols.get_ref(req).is_none());
    let c = cols.get(key).unwrap();
    assert_eq!(c.children.len(), 2);
    match &c.children[0] {
        Entry::Folder(f) => assert!(f.children.is_empty()),
        Entry::Item(_) => panic!("expected a folder"),
    }
    let top = cols.delete_folder(key, FolderId(3)).unwrap();
    assert_eq!(top, PathBuf::from("/data/api/c"));
    assert_eq!(cols.get(key).unwrap().children.len(), 1);
}

#[test]
fn requests_are_found_by_reference() {
    let (mut cols, key) = store_with_collection();
    let (req, path) = cols.add_request("list".to_string(), key, None).unwrap();
    assert_eq!(req, CollectionRequest(key, RequestId(0)));
    assert_eq!(path, PathBuf::from("/data/api/list.toml"));
    let r = cols.get_ref(req).unwrap();
    assert_eq!(r.name, "list");
    assert_eq!(r.path, path);
    assert!(cols.get_ref(CollectionRequest(key, RequestId(9))).is_none());
}

#[test]
fn saved_collections_are_no_longer_dirty() {
    let (mut cols, key) = store_with_collection();
    let other = cols.create_collection("web".to_string(), PathBuf::from("/data/web"));
    cols.add_request("r".to_string(), key, None).unwrap();
    assert_eq!(cols.get_collections_for_save(), vec![key]);
    cols.mark_saved(key);
    assert!(!cols.any_dirty());
    assert!(!cols.get(other).unwrap().dirty);
}

#[test]
fn active_environment_is_looked_up() {
    let mut cols = Collections::new();
    let mut c = Collection::new("env".to_string(), PathBuf::from("/e"));
    c.environments.push(Environment {
        name: "dev".to_string(),
        variables: vec![KeyValue { name: "host".to_string(), value: "localhost".to_string(), disabled: false }],
    });
    let key = cols.insert(c);
    assert!(cols.get_active_env(key).is_none());
    cols.get_mut(key).unwrap().active_environment = Some(0);
    assert_eq!(cols.get_active_env(key).unwrap().name, "dev");
    cols.get_mut(key).unwrap().active_environment = Some(3);
    assert!(cols.get_active_env(key).is_none());
}

#[test]
fn insert_all_registers_in_order() {
    let mut cols = Collections::new();
    let keys = cols.insert_all(vec![
        Collection::new("one".to_string(), PathBuf::from("/1")),
        Collection::new("two".to_string(), PathBuf::from("/2")),
    ]);
    assert_eq!(keys.len(), 2);
    assert_eq!(cols.get(keys[0]).unwrap().name, "one");
    assert_eq!(cols.get(keys[1]).unwrap().name, "two");
}
