use culper::admin_service::AdminService;
use culper::errors::CulperError;
use culper::commands::decrypt::{Certificate, Key, KeyBinding, KeyFlags};
use culper::store::{Binding, KeyMaterial, KeyStore};

fn material(fingerprint: &str, key_ids: &[u64]) -> KeyMaterial {
    KeyMaterial {
        fingerprint: fingerprint.to_string(),
        bytes: fingerprint.as_bytes().to_vec(),
        key_ids: key_ids.to_vec(),
    }
}

fn labels(found: &[Binding]) -> Vec<String> {
    found.iter().map(|b| b.label.clone()).collect()
}

#[test]
fn an_empty_store_holds_nothing() {
    let store = KeyStore::new();
    assert_eq!(store.lookup("targets", "alice").err(), Some(CulperError::NotFound));
    assert_eq!(store.lookup_by_key_id("targets", 1).err(), Some(CulperError::NotFound));
    assert!(store.list("targets").is_empty());
    assert!(!store.knows_domain("targets"));
    assert_eq!(store.owner_of(1), None);
}

#[test]
fn import_binds_a_label_and_indexes_the_keys() {
    let mut store = KeyStore::new();
    let id = store.import("targets", "alice", &material("F1", &[11, 12]), 100).unwrap();
    assert_eq!(id, 1);
    let found = store.lookup("targets", "alice").unwrap();
    assert_eq!(
        *found,
        Binding {
            id: 1,
            store_domain: "targets".to_string(),
            label: "alice".to_string(),
            fingerprint: "F1".to_string(),
            public_key_material: b"F1".to_vec(),
            created_at: 100,
            updated_at: 100,
        }
    );
    assert!(store.knows_domain("targets"));
    assert_eq!(store.owner_of(11), Some(1));
    assert_eq!(store.owner_of(12), Some(1));
    assert_eq!(store.owner_of(13), None);
    assert_eq!(store.lookup_by_key_id("targets", 12).unwrap().label, "alice");
}

#[test]
fn identifiers_count_up() {
    let mut store = KeyStore::new();
    assert_eq!(store.import("targets", "a", &material("F1", &[1]), 0), Ok(1));
    assert_eq!(store.import("admins", "b", &material("F2", &[2]), 0), Ok(2));
    assert_eq!(store.import("targets", "c", &material("F3", &[]), 0), Ok(3));
}

#[test]
fn labels_are_kept_apart_by_domain() {
    let mut store = KeyStore::new();
    store.import("targets", "alice", &material("F1", &[1]), 0).unwrap();
    store.import("admins", "alice", &material("F2", &[2]), 0).unwrap();
    assert_eq!(store.lookup("targets", "alice").unwrap().fingerprint, "F1");
    assert_eq!(store.lookup("admins", "alice").unwrap().fingerprint, "F2");
    assert_eq!(store.lookup("owners", "alice").err(), Some(CulperError::NotFound));
    assert_eq!(store.lookup_by_key_id("admins", 1).err(), Some(CulperError::NotFound));
    assert_eq!(store.lookup_by_key_id("admins", 2).unwrap().fingerprint, "F2");
}

#[test]
fn importing_a_label_again_adds_a_binding() {
    let mut store = KeyStore::new();
    store.import("targets", "alice", &material("F1", &[1]), 10).unwrap();
    store.import("targets", "alice", &material("F2", &[2]), 20).unwrap();
    let listed = store.list("targets");
    assert_eq!(listed.len(), 2);
    assert_eq!(listed[0].fingerprint, "F1");
    assert_eq!(listed[1].fingerprint, "F2");
    assert_eq!(listed[1].updated_at, 20);
    assert_eq!(store.lookup("targets", "alice").unwrap().fingerprint, "F1");
}

#[test]
fn list_gives_a_domain_in_import_order() {
    let mut store = KeyStore::new();
    store.import("targets", "c", &material("F1", &[1]), 0).unwrap();
    store.import("admins", "x", &material("F2", &[2]), 0).unwrap();
    store.import("targets", "a", &material("F3", &[3]), 0).unwrap();
    store.import("targets", "b", &material("F4", &[4]), 0).unwrap();
    assert_eq!(labels(&store.list("targets")), vec!["c", "a", "b"]);
    assert_eq!(labels(&store.list("admins")), vec!["x"]);
    assert!(store.list("owners").is_empty());
}

#[test]
fn a_key_of_another_binding_fails_the_whole_import() {
    let mut store = KeyStore::new();
    store.import("targets", "alice", &material("F1", &[1, 2]), 0).unwrap();
    let res = store.import("targets", "bob", &material("F2", &[3, 2, 1]), 0);
    assert_eq!(res, Err(CulperError::StoreConflict { key_id: 2, owner: 1 }));
    assert_eq!(store.lookup("targets", "bob").err(), Some(CulperError::NotFound));
    assert_eq!(store.owner_of(3), None);
    assert_eq!(store.list("targets").len(), 1);
    assert_eq!(store.import("targets", "bob", &material("F2", &[3]), 0), Ok(2));
}

#[test]
fn a_refused_import_leaves_no_domain_behind() {
    let mut store = KeyStore::new();
    store.import("targets", "alice", &material("F1", &[1]), 0).unwrap();
    assert!(store.import("owners", "bob", &material("F2", &[1]), 0).is_err());
    assert!(!store.knows_domain("owners"));
}

#[test]
fn a_key_named_twice_is_indexed_once() {
    let mut store = KeyStore::new();
    assert_eq!(store.import("targets", "alice", &material("F1", &[5, 5, 6, 5]), 0), Ok(1));
    assert_eq!(store.owner_of(5), Some(1));
    assert_eq!(store.owner_of(6), Some(1));
    assert_eq!(
        store.index_key_id(5, 2),
        Err(CulperError::StoreConflict { key_id: 5, owner: 1 })
    );
}

#[test]
fn indexing_a_pair_twice_is_accepted() {
    let mut store = KeyStore::new();
    store.import("targets", "alice", &material("F1", &[]), 0).unwrap();
    store.import("targets", "bob", &material("F2", &[]), 0).unwrap();
    assert_eq!(store.index_key_id(42, 1), Ok(()));
    assert_eq!(store.index_key_id(42, 1), Ok(()));
    assert_eq!(store.owner_of(42), Some(1));
    assert!(store.holds_key(42));
    assert_eq!(
        store.index_key_id(42, 2),
        Err(CulperError::StoreConflict { key_id: 42, owner: 1 })
    );
    assert_eq!(store.owner_of(42), Some(1));
    assert_eq!(store.index_key_id(43, 2), Ok(()));
    assert_eq!(store.lookup_by_key_id("targets", 43).unwrap().label, "bob");
}

#[test]
fn indexing_for_a_binding_that_is_not_there_is_refused() {
    let mut store = KeyStore::new();
    assert_eq!(store.index_key_id(42, 1), Err(CulperError::NotFound));
    assert!(!store.holds_key(42));
}

#[test]
fn deleting_a_binding_takes_its_index_entries_along() {
    let mut store = KeyStore::new();
    store.import("targets", "alice", &material("F1", &[1, 2]), 0).unwrap();
    store.import("targets", "bob", &material("F2", &[3]), 0).unwrap();
    assert_eq!(store.delete_binding("targets", "alice"), Ok(()));
    assert_eq!(store.lookup("targets", "alice").err(), Some(CulperError::NotFound));
    assert_eq!(store.owner_of(1), None);
    assert_eq!(store.owner_of(2), None);
    assert_eq!(store.owner_of(3), Some(2));
    assert_eq!(labels(&store.list("targets")), vec!["bob"]);
    assert_eq!(store.import("targets", "carol", &material("F3", &[1]), 0), Ok(3));
}

#[test]
fn deleting_a_label_takes_all_its_bindings() {
    let mut store = KeyStore::new();
    store.import("targets", "alice", &material("F1", &[1]), 0).unwrap();
    store.import("targets", "alice", &material("F2", &[2]), 0).unwrap();
    store.import("admins", "alice", &material("F3", &[3]), 0).unwrap();
    assert_eq!(store.delete_binding("targets", "alice"), Ok(()));
    assert!(store.list("targets").is_empty());
    assert_eq!(store.list("admins").len(), 1);
    assert_eq!(store.owner_of(3), Some(3));
    assert!(store.knows_domain("targets"));
}

#[test]
fn deleting_what_is_not_there_is_reported() {
    let mut store = KeyStore::new();
    store.import("targets", "alice", &material("F1", &[1]), 0).unwrap();
    assert_eq!(store.delete_binding("targets", "bob"), Err(CulperError::NotFound));
    assert_eq!(store.delete_binding("admins", "alice"), Err(CulperError::NotFound));
    assert_eq!(store.delete_domain("admins"), Err(CulperError::NotFound));
    assert_eq!(store.list("targets").len(), 1);
}

#[test]
fn deleting_a_domain_cascades() {
    let mut store = KeyStore::new();
    store.import("targets", "alice", &material("F1", &[1]), 0).unwrap();
    store.import("admins", "root", &material("F2", &[2]), 0).unwrap();
    store.import("targets", "bob", &material("F3", &[3, 4]), 0).unwrap();
    assert_eq!(store.delete_domain("targets"), Ok(()));
    assert!(!store.knows_domain("targets"));
    assert!(store.knows_domain("admins"));
    assert!(store.list("targets").is_empty());
    assert_eq!(store.owner_of(1), None);
    assert_eq!(store.owner_of(3), None);
    assert_eq!(store.owner_of(4), None);
    assert_eq!(store.owner_of(2), Some(2));
    assert_eq!(store.delete_domain("targets"), Err(CulperError::NotFound));
    assert_eq!(store.import("targets", "alice", &material("F1", &[1]), 0), Ok(4));
}

#[test]
fn a_copy_of_a_binding_is_equal_to_it() {
    let mut store = KeyStore::new();
    store.import("targets", "alice", &material("F1", &[1]), 7).unwrap();
    let found = store.lookup("targets", "alice").unwrap();
    assert_eq!(found.duplicate(), *found);
}

#[test]
fn admins_are_bindings_of_their_domain() {
    let mut service = AdminService::new(KeyStore::new());
    assert_eq!(service.import("root", &material("F1", &[1]), 5), Ok(()));
    assert_eq!(
        service.import("other", &material("F2", &[1]), 5),
        Err(CulperError::StoreConflict { key_id: 1, owner: 1 })
    );
    assert_eq!(service.store().lookup("admins", "root").unwrap().fingerprint, "F1");
    let store = service.into_store();
    assert_eq!(labels(&store.list("admins")), vec!["root"]);
}

#[test]
fn the_contents_of_a_store_make_the_store_again() {
    let mut store = KeyStore::new();
    store.import("targets", "alice", &material("F1", &[1, 2]), 3).unwrap();
    store.import("admins", "root", &material("F2", &[3]), 4).unwrap();
    let contents = store.contents();
    assert_eq!(contents.domains, vec!["targets", "admins"]);
    assert_eq!(contents.bindings.len(), 2);
    assert_eq!(contents.next_id, 3);
    assert_eq!(
        contents.index,
        vec![
            culper::store::IndexEntry { key_id: 1, binding_id: 1 },
            culper::store::IndexEntry { key_id: 2, binding_id: 1 },
            culper::store::IndexEntry { key_id: 3, binding_id: 2 },
        ]
    );
    let mut again = KeyStore::from_contents(contents.clone()).unwrap();
    assert_eq!(again.contents(), contents);
    assert_eq!(again.lookup_by_key_id("admins", 3).unwrap().label, "root");
    assert_eq!(again.import("targets", "bob", &material("F3", &[4]), 5), Ok(3));
}

#[test]
fn damaged_contents_are_refused() {
    let mut store = KeyStore::new();
    store.import("targets", "alice", &material("F1", &[1]), 3).unwrap();
    store.import("targets", "bob", &material("F2", &[2]), 3).unwrap();
    let good = store.contents();

    let mut orphan = good.clone();
    orphan.index.push(culper::store::IndexEntry { key_id: 9, binding_id: 7 });
    assert!(matches!(KeyStore::from_contents(orphan), Err(CulperError::IntegrityError(_))));

    let mut twice = good.clone();
    twice.index.push(culper::store::IndexEntry { key_id: 1, binding_id: 2 });
    assert!(KeyStore::from_contents(twice).is_err());

    let mut same_id = good.clone();
    same_id.bindings[1].id = 1;
    assert!(KeyStore::from_contents(same_id).is_err());

    let mut stale = good.clone();
    stale.next_id = 2;
    assert!(KeyStore::from_contents(stale).is_err());

    let mut homeless = good.clone();
    homeless.domains.clear();
    assert!(KeyStore::from_contents(homeless).is_err());

    assert!(KeyStore::from_contents(good).is_ok());
}

#[test]
fn a_store_that_has_no_identifier_left_is_full() {
    let mut contents = KeyStore::new().contents();
    contents.next_id = u64::MAX;
    let mut store = KeyStore::from_contents(contents).unwrap();
    assert_eq!(
        store.import("targets", "alice", &material("F1", &[1]), 0),
        Err(CulperError::StoreFull)
    );
    assert!(store.list("targets").is_empty());
    assert_eq!(CulperError::StoreFull.describe(), "The key store is full");
    assert_eq!(CulperError::NotFound.describe(), "No such binding");
}

fn bound(key_id: u64, flags: Option<KeyFlags>) -> KeyBinding {
    KeyBinding { key: Key { key_id, secret: None }, flags }
}

#[test]
fn the_primary_key_and_the_encryption_subkeys_are_indexed() {
    let at_rest = Some(KeyFlags { encrypt_at_rest: true, encrypt_for_transport: false });
    let in_transit = Some(KeyFlags { encrypt_at_rest: false, encrypt_for_transport: true });
    let signing = Some(KeyFlags { encrypt_at_rest: false, encrypt_for_transport: false });
    let cert = Certificate {
        fingerprint: "F1".to_string(),
        userids: vec!["alice".to_string()],
        primary: bound(10, signing),
        subkeys: vec![bound(11, at_rest), bound(12, signing), bound(13, None), bound(14, in_transit)],
    };
    let material = KeyMaterial::from_certificate(&cert, vec![1, 2, 3]);
    assert_eq!(
        material,
        KeyMaterial { fingerprint: "F1".to_string(), bytes: vec![1, 2, 3], key_ids: vec![10, 11, 14] }
    );
    let mut store = KeyStore::new();
    store.import("targets", "alice", &material, 0).unwrap();
    assert_eq!(store.lookup_by_key_id("targets", 14).unwrap().label, "alice");
    assert_eq!(store.lookup_by_key_id("targets", 12).err(), Some(CulperError::NotFound));
    let bare = Certificate {
        fingerprint: "F2".to_string(),
        userids: vec![],
        primary: bound(20, None),
        subkeys: vec![],
    };
    assert_eq!(KeyMaterial::from_certificate(&bare, vec![]).key_ids, vec![20]);
}

#[test]
fn the_admin_index_takes_a_pair_twice() {
    let mut service = AdminService::new(KeyStore::new());
    service.import("root", &material("F1", &[1]), 5).unwrap();
    service.import("second", &material("F2", &[2]), 5).unwrap();
    assert_eq!(service.index_key_id(1, 1), Ok(()));
    assert_eq!(service.index_key_id(7, 1), Ok(()));
    assert_eq!(service.index_key_id(7, 1), Ok(()));
    assert_eq!(service.store().owner_of(7), Some(1));
    assert_eq!(
        service.index_key_id(7, 2),
        Err(CulperError::StoreConflict { key_id: 7, owner: 1 })
    );
    assert_eq!(service.store().contents().index.len(), 3);
}
