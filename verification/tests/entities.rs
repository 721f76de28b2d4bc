//! The two entity round trips: create, fetch, find, update.

use rusqlite::Connection;
use rusty_configs::{Config, Error, Version};

/// testing version entity, create and fetch
#[test]
fn version_entity() -> Result<(), Error> {
    let mut db = Connection::open_in_memory().expect("could not open db");

    // setup
    Version::table(&mut db)?;
    let test_version = Version {
        id: 1,
        name: "home".to_string(),
    };
    test_version.create(&mut db)?;

    // all
    let versions: Vec<Version> = Version::all(&db)?;
    assert_eq!(1, versions[0].id);
    assert_eq!("home", versions[0].name);

    // find
    let version: Version = Version::find(&db, 1)?;
    assert_eq!(1, version.id);
    assert_eq!("home".to_string(), version.name);

    // update
    Version::update(&mut db, version.id, "name", "work")?;
    let updated_version: Version = Version::find(&db, 1)?;
    assert_eq!(1, updated_version.id);
    assert_eq!("work".to_string(), updated_version.name);

    Ok(())
}

/// testing config entity, create and fetch
#[test]
fn config_entity() -> Result<(), Error> {
    let mut db = Connection::open_in_memory().expect("could not open db");

    // setup
    Config::table(&mut db)?;
    let test_config = Config {
        id: 1,
        version_id: 1,
        path: "/tmp/test".to_string(),
        data: vec!["first line".to_string(), "second line".to_string()],
    };
    test_config.create(&mut db)?;

    // all
    let configs: Vec<Config> = Config::all(&db)?;
    assert_eq!(1, configs[0].id);
    assert_eq!("/tmp/test", configs[0].path);
    assert_eq!(
        vec!["first line".to_string(), "second line".to_string()],
        configs[0].data
    );

    // find
    let config: Config = Config::find(&db, 1)?;
    assert_eq!(1, config.id);
    assert_eq!(1, config.version_id);
    assert_eq!("/tmp/test".to_string(), config.path);

    // update
    Config::update(&mut db, config.id, "path", "/tmp/test2")?;
    let updated_config: Config = Config::find(&db, 1)?;
    assert_eq!(1, updated_config.id);
    assert_eq!("/tmp/test2".to_string(), updated_config.path);

    Ok(())
}
