use culper::config::{
    config_file_path, config_path_in, gpg_path_in, home_dir, priv_key_path, ConfigReader,
    CulperConfig, TargetConfig, UserConfig,
};
use culper::errors::CulperError;
use culper::server::{register_admin, update_culperconfig_with_admin, SetupData, SetupState, SetupToken};

fn me() -> UserConfig {
    UserConfig {
        email: "overwrite@mail.de".to_owned(),
        id: "87654321".to_owned(),
    }
}

#[test]
fn a_reader_keeps_the_path_it_is_given() {
    let reader = ConfigReader::new(Some("./culper.toml")).unwrap();
    assert_eq!(reader.path, "./culper.toml");
    assert_eq!(reader.config, None);
    let default = ConfigReader::new(None).unwrap();
    assert!(default.path.ends_with(".culper.toml"));
    assert_eq!(default.config, None);
}

#[test]
fn a_target_is_added_to_an_updated_config() {
    let mut config_reader = ConfigReader::new(Some("./culper.toml")).unwrap();

    config_reader.update(CulperConfig {
        me: me(),
        targets: None,
        owners: None,
        admins: None,
    });

    config_reader
        .add_target("www.test.de", "alskjdflsajfd")
        .unwrap();
    assert_eq!(
        config_reader.config,
        Some(CulperConfig {
            me: me(),
            targets: Some(vec![TargetConfig {
                host: "www.test.de".to_owned(),
                id: "alskjdflsajfd".to_owned(),
            }]),
            owners: None,
            admins: None,
        })
    );
    config_reader.add_target("second.test.de", "id2").unwrap();
    let targets = config_reader.config.as_ref().unwrap().targets.as_ref().unwrap();
    assert_eq!(targets.len(), 2);
    assert_eq!(targets[1].host, "second.test.de");
    assert_eq!(
        config_reader.config.as_ref().unwrap().target_ids(),
        vec!["alskjdflsajfd", "id2"]
    );
}

#[test]
fn a_target_cannot_be_added_without_a_config() {
    let mut config_reader = ConfigReader::new(Some("./culper.toml")).unwrap();
    assert_eq!(
        config_reader.add_target("www.test.de", "id"),
        Err(CulperError::RuntimeError("Config is not set.".to_owned()))
    );
    assert_eq!(config_reader.config, None);
}

#[test]
fn paths_are_joined_as_paths() {
    assert_eq!(config_file_path("/home/me/.culper"), "/home/me/.culper/.culper.toml");
    assert_eq!(config_file_path("/home/me/"), "/home/me/.culper.toml");
    assert_eq!(priv_key_path("/home/me", None), "/home/me/privkey.asc");
    assert_eq!(priv_key_path("/home/me", Some("/keys/mine.asc")), "/keys/mine.asc");
    assert_eq!(priv_key_path("/home/me", Some("mine.asc")), "mine.asc");
    assert_eq!(config_path_in(Some("/home/me".to_string())), "/home/me/.culper.toml");
    assert_eq!(config_path_in(None), "./.culper.toml");
    assert_eq!(gpg_path_in(Some("/home/me".to_string())), "/home/me/.culper_gpg");
    assert_eq!(gpg_path_in(None), "./.culper_gpg");
    assert_eq!(home_dir(Some("/srv/culper"), Some("/home/me".to_string())), "/srv/culper");
    assert_eq!(home_dir(None, Some("/home/me".to_string())), "/home/me/.culper");
    assert_eq!(home_dir(None, None), ".culper");
}

#[test]
fn admins_are_added_in_order() {
    let mut config = CulperConfig::new(me());
    assert!(config.needs_setup());
    config.add_admin("root@test.de", "AAAA");
    config.add_admin("second@test.de", "BBBB");
    assert!(!config.needs_setup());
    assert_eq!(
        config.admins,
        Some(vec![
            UserConfig { email: "root@test.de".to_owned(), id: "AAAA".to_owned() },
            UserConfig { email: "second@test.de".to_owned(), id: "BBBB".to_owned() },
        ])
    );
    assert!(config.target_ids().is_empty());
}

#[test]
fn a_registered_admin_is_recorded_with_the_imported_key() {
    let admin = SetupData { email: "root@test.de".to_owned(), pubkey: "-----BEGIN".to_owned() };
    let after =
        update_culperconfig_with_admin(CulperConfig::new(me()), &admin, Ok("ABCDEF".to_owned()))
            .unwrap();
    assert_eq!(
        after.admins,
        Some(vec![UserConfig { email: "root@test.de".to_owned(), id: "ABCDEF".to_owned() }])
    );
    assert_eq!(after.me, me());
    assert_eq!(
        update_culperconfig_with_admin(CulperConfig::new(me()), &admin, Err(CulperError::NotFound)),
        Err(CulperError::RuntimeError(
            "Could not import gpg key. Error: No such binding".to_owned()
        ))
    );
}

#[test]
fn the_setup_secret_works_once() {
    let mut token = SetupToken::new(Some("s3cret".to_owned()));
    assert!(token.accepts(Some("s3cret")));
    assert!(!token.accepts(Some("S3cret")));
    assert!(!token.accepts(None));
    assert_eq!(register_admin(&mut token, Some("wrong"), || Ok(())), Ok(SetupState::Failure));
    assert_eq!(register_admin(&mut token, None, || Ok(())), Ok(SetupState::Failure));
    assert_eq!(
        register_admin(&mut token, Some("s3cret"), || Err(CulperError::NotFound)),
        Err(CulperError::NotFound)
    );
    assert!(token.accepts(Some("s3cret")));
    assert_eq!(register_admin(&mut token, Some("s3cret"), || Ok(())), Ok(SetupState::Success));
    assert!(!token.accepts(Some("s3cret")));
    assert_eq!(register_admin(&mut token, Some("s3cret"), || Ok(())), Ok(SetupState::Failure));
}

#[test]
fn the_update_runs_only_for_the_secret() {
    let ran = std::cell::Cell::new(0);
    let mut token = SetupToken::new(Some("s3cret".to_owned()));
    let _ = register_admin(&mut token, Some("wrong"), || {
        ran.set(ran.get() + 1);
        Ok(())
    });
    assert_eq!(ran.get(), 0);
    let _ = register_admin(&mut token, Some("s3cret"), || {
        ran.set(ran.get() + 1);
        Ok(())
    });
    assert_eq!(ran.get(), 1);
    let mut used = SetupToken::new(None);
    assert_eq!(register_admin(&mut used, None, || Ok(())), Ok(SetupState::Failure));
    used.clear();
    assert!(!used.accepts(Some("")));
}

#[test]
fn a_failed_import_is_reported_with_its_cause() {
    let admin = SetupData { email: "root@test.de".to_owned(), pubkey: "-----BEGIN".to_owned() };
    let cause = CulperError::RuntimeError("Key was not imported. Error: [1]: denied".to_owned());
    assert_eq!(
        update_culperconfig_with_admin(CulperConfig::new(me()), &admin, Err(cause)),
        Err(CulperError::RuntimeError(
            "Could not import gpg key. Error: Internal error: Key was not imported. Error: [1]: denied"
                .to_owned()
        ))
    );
}
