use blit_server::catalog::{
    decode_arguments, decode_definition, encode_definition, encoded_argument_bytes,
    validate_definition_fields, BlockedState, CatalogError, CatalogRules, PersistentDefinition,
};
use blit_server::extension_catalog::{
    catalog_path, CatalogBase, CatalogSettings, Change, ExtensionCatalog, LifecycleChange,
};
use blit_server::kv::message::Platform;

const ENABLED: u8 = 4;
const MAX_ARG: usize = 64 * 1024;

fn rules() -> CatalogRules {
    CatalogRules {
        max_name: 64,
        max_arg: MAX_ARG,
        max_args: 64,
        max_argument_bytes: 1024 * 1024,
        max_detail: 256,
        flags_known: 15,
        flag_detach: 1,
        flag_persist: 2,
        flag_enabled: ENABLED,
        flag_desired_running: 8,
        restart_always: 2,
    }
}

/// A table of records, by id.
type Table = Vec<(u64, Vec<u8>)>;

/// Writes a change as a transaction would, then applies it.
fn store(table: &mut Table, catalog: &mut ExtensionCatalog, change: Change) {
    let id = change.definition.extension_id;
    table.retain(|row| row.0 != id);
    if let Some(record) = &change.record {
        table.push((id, record.clone()));
        table.sort();
    }
    catalog.commit(change);
}

fn record(table: &Table, id: u64) -> Option<&[u8]> {
    table.iter().find(|row| row.0 == id).map(|row| row.1.as_slice())
}

fn unchanged<'a>() -> LifecycleChange<'a> {
    LifecycleChange {
        enabled: None,
        desired_running: None,
        attempt: None,
        last_running_attempt: None,
        failure_count: None,
        next_start_unix_ms: None,
        blocked: None,
    }
}

#[test]
fn create_update_lifecycle_and_reopen_are_durable() {
    let mut table = Table::new();
    let mut catalog = ExtensionCatalog::open(Some(table.clone()), 2, rules()).unwrap();
    let created = catalog.create([1; 32], "builder", &vec!["one".to_owned()], 2).unwrap();
    let id = created.definition.extension_id;
    store(&mut table, &mut catalog, created);
    let updated =
        catalog.update(id, 1, "builder", [2; 32], &vec!["two".to_owned()], 1).unwrap();
    assert_eq!(updated.definition.definition_revision, 2);
    store(&mut table, &mut catalog, updated);
    let changed = catalog
        .set_lifecycle(
            id,
            LifecycleChange {
                enabled: Some(false),
                attempt: Some(3),
                last_running_attempt: Some(2),
                failure_count: Some(4),
                next_start_unix_ms: Some(123_456),
                blocked: Some(BlockedState::Blocked("blocked")),
                ..unchanged()
            },
        )
        .unwrap();
    let change = catalog.replace_metadata(changed, record(&table, id)).unwrap();
    store(&mut table, &mut catalog, change);
    drop(catalog);

    let reopened = ExtensionCatalog::open(Some(table.clone()), 2, rules()).unwrap();
    let found = reopened.by_name("builder").unwrap();
    assert_eq!(found.hash, [2; 32]);
    assert_eq!(found.attempt, 3);
    assert_eq!(found.last_running_attempt, 2);
    assert_eq!(found.failure_count, 4);
    assert_eq!(found.next_start_unix_ms, 123_456);
    assert!(found.blocked);
    assert_eq!(found.blocked_detail, "blocked");
    assert_eq!(found.flags & ENABLED, 0);
    assert!(matches!(
        reopened.load_arguments(id, 1, record(&table, id)),
        Err(CatalogError::Conflict)
    ));
    assert_eq!(
        reopened.load_arguments(id, found.definition_revision, record(&table, id)).unwrap(),
        vec!["two"]
    );
}

#[test]
fn conflicts_and_capacity_do_not_mutate_the_catalog() {
    let mut table = Table::new();
    let mut catalog = ExtensionCatalog::open(Some(table.clone()), 1, rules()).unwrap();
    let first = catalog.create([1; 32], "one", &Vec::new(), 0).unwrap();
    let id = first.definition.extension_id;
    store(&mut table, &mut catalog, first);
    assert!(matches!(
        catalog.create([2; 32], "two", &Vec::new(), 0),
        Err(CatalogError::Budget)
    ));
    assert!(matches!(
        catalog.update(id, 99, "one", [3; 32], &Vec::new(), 0),
        Err(CatalogError::Conflict)
    ));
    assert_eq!(catalog.by_name("one").unwrap().hash, [1; 32]);
}

#[test]
fn reopening_many_large_argument_records_keeps_only_metadata_resident() {
    let mut table = Table::new();
    let mut catalog = ExtensionCatalog::open(Some(table.clone()), 8, rules()).unwrap();
    let argument = "x".repeat(MAX_ARG);
    let mut ids = Vec::new();
    for index in 0..8 {
        let created = catalog
            .create(
                [index as u8 + 1; 32],
                &format!("extension-{index}"),
                &vec![argument.clone(); 8],
                0,
            )
            .unwrap();
        ids.push(created.definition.extension_id);
        store(&mut table, &mut catalog, created);
    }
    drop(catalog);

    let reopened = ExtensionCatalog::open(Some(table.clone()), 8, rules()).unwrap();
    let records = reopened.list();
    assert_eq!(records.len(), 8);
    assert!(records.iter().all(|r| r.argument_bytes == 2 + 8 * (4 + MAX_ARG)));
    assert_eq!(
        reopened.load_arguments(ids[3], 1, record(&table, ids[3])).unwrap(),
        vec![argument; 8]
    );
}

#[test]
fn a_catalog_without_a_table_is_unavailable() {
    let catalog = ExtensionCatalog::open(None, 8, rules()).unwrap();
    assert!(matches!(
        catalog.create([1; 32], "one", &Vec::new(), 0),
        Err(CatalogError::Unavailable)
    ));
    assert!(catalog.list().is_empty());
    assert!(matches!(catalog.remove(1), Err(CatalogError::NotFound)));
}

#[test]
fn ids_are_random_and_free() {
    let mut table = Table::new();
    let mut catalog = ExtensionCatalog::open(Some(Vec::new()), 8, rules()).unwrap();
    assert!(!catalog.id_is_free(0));
    assert!(catalog.id_is_free(5));
    let change = catalog.create_with_id(5, [1; 32], "five", &Vec::new(), 0).unwrap();
    store(&mut table, &mut catalog, change);
    assert!(!catalog.id_is_free(5));
    let (a, b) = (catalog.allocate_id().unwrap(), catalog.allocate_id().unwrap());
    assert!(a != b && catalog.id_is_free(a) && catalog.id_is_free(b));
}

#[test]
fn the_catalog_stays_within_its_maximum() {
    let mut table = Table::new();
    let mut catalog = ExtensionCatalog::open(Some(Vec::new()), 2, rules()).unwrap();
    for (id, name) in [(5, "five"), (6, "six")] {
        let change = catalog.create_with_id(id, [1; 32], name, &Vec::new(), 0).unwrap();
        store(&mut table, &mut catalog, change);
    }
    assert_eq!(catalog.list().len(), 2);
    assert!(matches!(
        catalog.create_with_id(7, [1; 32], "seven", &Vec::new(), 0),
        Err(CatalogError::Budget)
    ));
    let change = catalog.update(6, 1, "six", [2; 32], &Vec::new(), 0).unwrap();
    store(&mut table, &mut catalog, change);
    assert_eq!(catalog.list().len(), 2);
    let change = catalog.remove(5).unwrap();
    store(&mut table, &mut catalog, change);
    assert_eq!(catalog.list().len(), 1);
    assert!(catalog.create_with_id(7, [1; 32], "seven", &Vec::new(), 0).is_ok());
}

#[test]
fn removal_frees_the_name() {
    let mut table = Table::new();
    let mut catalog = ExtensionCatalog::open(Some(Vec::new()), 1, rules()).unwrap();
    let change = catalog.create_with_id(5, [1; 32], "five", &Vec::new(), 0).unwrap();
    store(&mut table, &mut catalog, change);
    let change = catalog.remove(5).unwrap();
    assert!(change.record.is_none());
    store(&mut table, &mut catalog, change);
    assert!(catalog.by_name("five").is_none());
    assert!(catalog.get(5).is_none());
    assert!(matches!(catalog.remove(5), Err(CatalogError::NotFound)));
    assert!(catalog.create_with_id(6, [1; 32], "five", &Vec::new(), 0).is_ok());
}

#[test]
fn definitions_round_trip() {
    let args = vec!["alpha".to_owned(), String::new(), "\u{e9}".to_owned()];
    let size = encoded_argument_bytes(&args).unwrap();
    assert_eq!(size, 2 + (4 + 5) + 4 + (4 + 2));
    let d = PersistentDefinition {
        extension_id: 77,
        definition_revision: 3,
        flags: 1 | 2 | ENABLED,
        restart: 1,
        attempt: 9,
        last_running_attempt: 8,
        failure_count: 2,
        next_start_unix_ms: 1234,
        blocked: true,
        blocked_detail: "why".to_owned(),
        hash: [6; 32],
        name: "name".to_owned(),
        argument_bytes: size,
    };
    let bytes = encode_definition(&d, &args, &rules()).unwrap();
    let (back, at) = decode_definition(&bytes, &rules()).unwrap();
    assert_eq!(back.extension_id, 77);
    assert_eq!(back.hash, [6; 32]);
    assert_eq!((back.attempt, back.last_running_attempt), (9, 8));
    assert_eq!((back.name.as_str(), back.blocked_detail.as_str()), ("name", "why"));
    let (read, decoded) = decode_arguments(&bytes[at..], true, &rules()).unwrap();
    assert_eq!((read, decoded), (size, args));
    assert!(decode_definition(&bytes[..bytes.len() - 1], &rules()).is_err());
    assert!(decode_arguments(&[1, 0, 9, 0, 0, 0], true, &rules()).is_err());
}

#[test]
fn fields_are_held_to_their_limits() {
    let r = rules();
    assert!(validate_definition_fields("ok", &Vec::new(), 0, &r).is_ok());
    for (name, args, restart) in [
        (String::new(), Vec::new(), 0),
        ("x".repeat(65), Vec::new(), 0),
        ("ok".to_owned(), Vec::new(), 3),
        ("ok".to_owned(), vec![String::new(); 65], 0),
        ("ok".to_owned(), vec!["x".repeat(MAX_ARG + 1)], 0),
    ] {
        assert!(matches!(
            validate_definition_fields(&name, &args, restart, &r),
            Err(CatalogError::Invalid(_))
        ));
    }
    assert!(!CatalogError::Budget.text().is_empty());
    assert_eq!(CatalogError::Storage("disk".to_owned()).text(), "persistent extension storage failed: disk");
}

#[test]
fn the_catalog_lies_where_the_environment_says() {
    let none = CatalogSettings {
        extension_path: false,
        extension_db: false,
        state_home: false,
        home: false,
        app_data: false,
    };
    assert_eq!(catalog_path(Platform::Unix, &none), None);
    let home = CatalogSettings { home: true, ..none };
    assert_eq!(catalog_path(Platform::Unix, &home), Some((CatalogBase::Home, ".local/state")));
    assert_eq!(
        catalog_path(Platform::MacOs, &home),
        Some((CatalogBase::Home, "Library/Application Support"))
    );
    assert_eq!(catalog_path(Platform::Windows, &home), None);
    let state = CatalogSettings { state_home: true, ..home };
    assert_eq!(catalog_path(Platform::Unix, &state), Some((CatalogBase::StateHome, "")));
    let db = CatalogSettings { extension_db: true, ..state };
    assert_eq!(catalog_path(Platform::Unix, &db), Some((CatalogBase::ExtensionDb, "")));
    let path = CatalogSettings { extension_path: true, ..db };
    assert_eq!(catalog_path(Platform::Unix, &path), Some((CatalogBase::ExtensionPath, "")));
}
