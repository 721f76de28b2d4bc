//! End-to-end behavior through a real in-memory store: row encoding,
//! id allocation, the sync round trip, the tree listing, and the
//! version-scoped update and delete operations.

use rusqlite::Connection;
use rusty_configs::{
    add_config, add_version, apply_pull, delete_by_id, delete_by_name, delete_by_path,
    delete_version, init_db, list_configs, list_version, update_config, update_version, write_all,
    Config, Error, Version,
};

fn fresh_db() -> Connection {
    let mut db = Connection::open_in_memory().expect("could not open db");
    init_db(&mut db).expect("could not init tables");
    db
}

fn raw_data_column(db: &Connection, id: i32) -> String {
    db.query_row("SELECT data FROM configs WHERE id = ?1", (id,), |r| r.get(0))
        .expect("could not read raw data column")
}

#[test]
fn config_row_roundtrip() {
    // lines with embedded whitespace, an empty line, and a final empty
    // line from a trailing newline all come back unchanged
    let cfg = Config {
        id: 7,
        version_id: 2,
        path: "/etc/x".to_string(),
        data: vec![
            "a b".to_string(),
            "".to_string(),
            "  tail  ".to_string(),
            "".to_string(),
        ],
    };
    let row = cfg.serialize();
    let back = Config::decode_row(&row).expect("decode failed");
    assert_eq!(back.id, cfg.id);
    assert_eq!(back.version_id, cfg.version_id);
    assert_eq!(back.path, cfg.path);
    assert_eq!(back.data, cfg.data);
}

#[test]
fn stored_data_is_base64_of_joined_lines() {
    let mut db = fresh_db();
    add_version(&mut db, "home").expect("add version failed");
    let id = add_config(&mut db, "/tmp/f", 1, "first line\nsecond line\n")
        .expect("add config failed");
    assert_eq!(id, 1);
    assert_eq!(raw_data_column(&db, 1), "Zmlyc3QgbGluZQpzZWNvbmQgbGluZQ==");
    let cfg = Config::find(&db, 1).expect("find failed");
    assert_eq!(
        cfg.data,
        vec!["first line".to_string(), "second line".to_string()]
    );
}

#[test]
fn next_id_allocation() {
    let mut db = fresh_db();
    assert_eq!(Version::next_id(&db).expect("next_id failed"), 1);
    for (id, name) in [(1, "a"), (2, "b"), (5, "c")] {
        let v = Version {
            id,
            name: name.to_string(),
        };
        v.create(&mut db).expect("create failed");
    }
    assert_eq!(Version::next_id(&db).expect("next_id failed"), 6);
    assert_eq!(Config::next_id(&db).expect("next_id failed"), 1);
}

#[test]
fn pull_right_after_push_changes_no_row() {
    let mut db = fresh_db();
    add_version(&mut db, "home").expect("add version failed");
    let id = add_config(&mut db, "/tmp/a", 1, "alpha\n\nbeta").expect("add config failed");
    let raw_before = raw_data_column(&db, id);
    let before = Config::all(&db).expect("fetch failed");

    let files = write_all(&db).expect("push rendering failed");
    assert_eq!(files.len(), 1);
    assert_eq!(files[0].0, "/tmp/a");
    // every line followed by a newline terminator, in stored order
    assert_eq!(files[0].1, "alpha\n\nbeta\n");

    apply_pull(&mut db, id, &files[0].1).expect("pull failed");
    let after = Config::all(&db).expect("fetch failed");
    assert_eq!(raw_data_column(&db, id), raw_before);
    assert_eq!(before[0].data, after[0].data);
    assert_eq!(before[0].path, after[0].path);
    assert_eq!(before[0].version_id, after[0].version_id);
}

#[test]
fn pull_overwrites_stored_lines() {
    let mut db = fresh_db();
    add_version(&mut db, "home").expect("add version failed");
    let id = add_config(&mut db, "/tmp/c", 1, "old\n").expect("add config failed");
    apply_pull(&mut db, id, "new one\nnew two\n").expect("pull failed");
    let cfg = Config::find(&db, id).expect("find failed");
    assert_eq!(
        cfg.data,
        vec!["new one".to_string(), "new two".to_string()]
    );
}

#[test]
fn tree_listing_two_versions() {
    let mut db = fresh_db();
    add_version(&mut db, "home").expect("add version failed");
    add_version(&mut db, "work").expect("add version failed");
    add_config(&mut db, "/a", 1, "x\n").expect("add config failed");
    add_config(&mut db, "/b", 1, "x\n").expect("add config failed");
    add_config(&mut db, "/c", 2, "x\n").expect("add config failed");

    let s = list_configs(&db).expect("listing failed");
    let home_block = "================\nhome\n     ├── /a\n     └── /b\n";
    let work_block = "================\nwork\n     └── /c\n";
    assert!(s.contains(home_block));
    assert!(s.contains(work_block));
    assert_eq!(s.len(), home_block.len() + work_block.len());

    let only_work = list_version(&db, "work").expect("single listing failed");
    assert_eq!(only_work, work_block);
}

#[test]
fn tree_listing_empty_store() {
    let db = fresh_db();
    assert_eq!(list_configs(&db).expect("listing failed"), "No configs in db\n");
}

#[test]
fn tree_item_connectors() {
    assert_eq!(rusty_configs::tree_item(0, 1, 3, "x"), "   └── x");
    assert_eq!(rusty_configs::tree_item(0, 2, 1, "y"), " ├── y");
    assert_eq!(rusty_configs::tree_item(1, 2, 0, "z"), "└── z");
}

#[test]
fn update_config_version_reassign() {
    let mut db = fresh_db();
    add_version(&mut db, "home").expect("add version failed");
    add_version(&mut db, "work").expect("add version failed");
    add_config(&mut db, "/etc/x", 1, "line\n").expect("add config failed");

    update_config(&mut db, "/etc/x", "home", "version=work").expect("update failed");
    let cfgs = Config::all(&db).expect("fetch failed");
    assert_eq!(cfgs.len(), 1);
    assert_eq!(cfgs[0].version_id, 2);

    // nothing matches path "/etc/x" under "home" any more
    let e = update_config(&mut db, "/etc/x", "home", "version=work").unwrap_err();
    assert_eq!(e, Error::NoMatch);
}

#[test]
fn update_config_path_rewrite() {
    let mut db = fresh_db();
    add_version(&mut db, "home").expect("add version failed");
    add_config(&mut db, "/etc/x", 1, "line\n").expect("add config failed");
    update_config(&mut db, "/etc/x", "home", "path=/etc/y").expect("update failed");
    let cfgs = Config::all(&db).expect("fetch failed");
    assert_eq!(cfgs[0].path, "/etc/y");
}

#[test]
fn update_config_rejects_unknown_field() {
    let mut db = fresh_db();
    add_version(&mut db, "home").expect("add version failed");
    add_config(&mut db, "/etc/x", 1, "line\n").expect("add config failed");
    let e = update_config(&mut db, "/etc/x", "home", "owner=root").unwrap_err();
    assert_eq!(e, Error::InvalidField);
    let e = update_config(&mut db, "/etc/x", "home", "no-equals-sign").unwrap_err();
    assert_eq!(e, Error::InvalidField);
}

#[test]
fn update_config_missing_version_is_not_found() {
    let mut db = fresh_db();
    add_version(&mut db, "home").expect("add version failed");
    add_config(&mut db, "/etc/x", 1, "line\n").expect("add config failed");
    let e = update_config(&mut db, "/etc/x", "ghost", "path=/y").unwrap_err();
    assert_eq!(e, Error::NotFound);
    let e = update_config(&mut db, "/etc/x", "home", "version=ghost").unwrap_err();
    assert_eq!(e, Error::NotFound);
}

#[test]
fn update_version_renames_every_match() {
    let mut db = fresh_db();
    add_version(&mut db, "home").expect("add version failed");
    let dup = Version {
        id: 7,
        name: "home".to_string(),
    };
    dup.create(&mut db).expect("create failed");
    update_version(&mut db, "home", "base").expect("rename failed");
    let mut names: Vec<String> = Version::all(&db)
        .expect("fetch failed")
        .into_iter()
        .map(|v| v.name)
        .collect();
    names.sort();
    assert_eq!(names, vec!["base".to_string(), "base".to_string()]);

    let e = update_version(&mut db, "ghost", "x").unwrap_err();
    assert_eq!(e, Error::NoMatch);
}

#[test]
fn delete_version_leaves_configs_dangling() {
    let mut db = fresh_db();
    add_version(&mut db, "staging").expect("add version failed");
    add_config(&mut db, "/s", 1, "x\n").expect("add config failed");
    delete_version(&mut db, "staging").expect("delete failed");
    assert!(Version::all(&db).expect("fetch failed").is_empty());
    let cfgs = Config::all(&db).expect("fetch failed");
    assert_eq!(cfgs.len(), 1);
    assert_eq!(cfgs[0].version_id, 1);

    // a dangling reference makes the listing fail with NotFound
    let e = list_configs(&db).unwrap_err();
    assert_eq!(e, Error::NotFound);
}

#[test]
fn delete_config_by_each_mode() {
    let mut db = fresh_db();
    add_version(&mut db, "home").expect("add version failed");
    add_config(&mut db, "/tmp/a.conf", 1, "x\n").expect("add config failed");
    add_config(&mut db, "/tmp/b.conf", 1, "x\n").expect("add config failed");
    add_config(&mut db, "/other/x", 1, "x\n").expect("add config failed");
    add_config(&mut db, "/keep", 1, "x\n").expect("add config failed");

    // by name: a suffix match can delete several rows at once
    delete_by_name(&mut db, ".conf").expect("delete by name failed");
    let mut paths: Vec<String> = Config::all(&db)
        .expect("fetch failed")
        .into_iter()
        .map(|c| c.path)
        .collect();
    paths.sort();
    assert_eq!(paths, vec!["/keep".to_string(), "/other/x".to_string()]);

    delete_by_path(&mut db, "/other/x").expect("delete by path failed");
    assert_eq!(Config::all(&db).expect("fetch failed").len(), 1);

    let id = Config::all(&db).expect("fetch failed")[0].id;
    delete_by_id(&mut db, id as u64).expect("delete by id failed");
    assert!(Config::all(&db).expect("fetch failed").is_empty());

    // zero matches is not an error
    delete_by_path(&mut db, "/ghost").expect("delete by path failed");
}

#[test]
fn delete_by_id_out_of_range_is_a_no_op() {
    let mut db = fresh_db();
    add_version(&mut db, "home").expect("add version failed");
    add_config(&mut db, "/keep", 1, "x\n").expect("add config failed");
    // no row can carry an id this large, so the call succeeds and
    // changes nothing
    delete_by_id(&mut db, u64::MAX).expect("delete by id failed");
    delete_by_id(&mut db, (i32::MAX as u64) + 1).expect("delete by id failed");
    assert_eq!(Config::all(&db).expect("fetch failed").len(), 1);
}

#[test]
fn missing_table_is_a_storage_error() {
    let db = Connection::open_in_memory().expect("could not open db");
    let e = Version::all(&db).unwrap_err();
    assert_eq!(e, Error::Storage);
}

#[test]
fn find_missing_row_is_not_found() {
    let db = fresh_db();
    assert_eq!(Version::find(&db, 99).unwrap_err(), Error::NotFound);
    assert_eq!(Config::find(&db, 99).unwrap_err(), Error::NotFound);
}

#[test]
fn entity_update_rejects_unknown_column() {
    let mut db = fresh_db();
    add_version(&mut db, "home").expect("add version failed");
    assert_eq!(
        Version::update(&mut db, 1, "id", "9").unwrap_err(),
        Error::InvalidField
    );
    assert_eq!(
        Config::update(&mut db, 1, "version", "9").unwrap_err(),
        Error::InvalidField
    );
}

#[test]
fn delicate_characters_survive_storage() {
    // values are bound as parameters, so quotes and SQL fragments in
    // names, paths and content are stored as plain text
    let mut db = fresh_db();
    let name = "o'hara\"; DROP TABLE versions; --";
    add_version(&mut db, name).expect("add version failed");
    let versions = Version::all(&db).expect("fetch failed");
    assert_eq!(versions.len(), 1);
    assert_eq!(versions[0].name, name);

    let path = "/tmp/it's \"quoted\"";
    let content = "line with 'quotes'\nand \"doubles\"\n";
    let id = add_config(&mut db, path, 1, content).expect("add config failed");
    let cfg = Config::find(&db, id).expect("find failed");
    assert_eq!(cfg.path, path);
    assert_eq!(
        cfg.data,
        vec![
            "line with 'quotes'".to_string(),
            "and \"doubles\"".to_string()
        ]
    );
}

#[test]
fn error_messages_name_each_failure() {
    assert_eq!(Error::Storage.message(), "storage failure");
    assert_eq!(Error::NotFound.message(), "no row with the given id or name");
    assert_eq!(Error::NoMatch.message(), "no row matches the given criteria");
    assert_eq!(
        Error::InvalidField.message(),
        "unknown field to update, options: path, version"
    );
    assert_eq!(Error::Io.message(), "file read or write failed");
    assert_eq!(
        Error::Ambiguous.message(),
        "conflicting or missing identifying parameters"
    );
}
