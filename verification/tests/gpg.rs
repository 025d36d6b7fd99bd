use culper::config::UserConfig;
use culper::errors::CulperError;
use culper::gpg::{
    extract_mail_from_uid, imported_key_from_stdout, private_key_from_stdout, GpgManager,
    ProcessOutput, PubKeyVaultHandler,
};
use culper::vault::{EncryptionFormat, SealedVault, UnsealedVault};

#[test]
fn parse_mails() {
    assert_eq!(
        extract_mail_from_uid(Some("283ujsdafj; [p'wae0- <fkbr@kuci.de>")),
        Some("fkbr@kuci.de".to_owned())
    );
    assert_eq!(
        extract_mail_from_uid(Some("Smörebröt Olsen <smoere-bloed.toppi@kuci.co.uk>")),
        Some("smoere-bloed.toppi@kuci.co.uk".to_owned())
    );
    assert_eq!(
        extract_mail_from_uid(Some("<no.name@aol.com>")),
        Some("no.name@aol.com".to_owned())
    );
}

#[test]
fn a_uid_without_a_mail_has_none() {
    assert_eq!(extract_mail_from_uid(None), None);
    assert_eq!(extract_mail_from_uid(Some("")), None);
    assert_eq!(extract_mail_from_uid(Some("just a name")), None);
    assert_eq!(extract_mail_from_uid(Some("name <not-a-mail>")), None);
    assert_eq!(extract_mail_from_uid(Some("<a@b.de> trailing")), None);
}

const LISTING: &str = "sec:u:2048:1:0123456789ABCDEF:1546300800:::u:::scESC:::+:::23::0:\n\
fpr:::::::::AAAABBBBCCCCDDDDEEEEFFFF0123456789ABCDEF:\n\
grp:::::::::0000000000000000000000000000000000000000:\n\
uid:u::::1546300800::0000000000000000000000000000000000000000::Max Mustermann <max@kuci.de>::::::::::0:\n\
ssb:u:2048:1:FEDCBA9876543210:1546300800::::::e:::+:::23:\n";

#[test]
fn a_key_listing_names_the_user() {
    assert_eq!(
        private_key_from_stdout(LISTING.to_string()),
        Ok(UserConfig {
            id: "0123456789ABCDEF".to_owned(),
            email: "max@kuci.de".to_owned(),
        })
    );
    assert_eq!(
        private_key_from_stdout(LISTING.replace('\n', "\r\n")),
        Ok(UserConfig {
            id: "0123456789ABCDEF".to_owned(),
            email: "max@kuci.de".to_owned(),
        })
    );
}

#[test]
fn a_listing_without_key_lines_is_reported_with_the_output() {
    assert_eq!(
        private_key_from_stdout("gpg: nothing here\n".to_string()),
        Err(CulperError::RuntimeError(
            "Could not reliably determine sec and uid lines from gpg output. Output was: gpg: nothing here\n"
                .to_owned()
        ))
    );
    assert_eq!(
        private_key_from_stdout("sec:u:2048:1:0123456789ABCDEF:\n".to_string()),
        Err(CulperError::RuntimeError(
            "Could not reliably determine sec and uid lines from gpg output. Output was: sec:u:2048:1:0123456789ABCDEF:\n"
                .to_owned()
        ))
    );
    assert!(private_key_from_stdout(String::new()).is_err());
}

#[test]
fn a_listing_without_key_id_or_mail_is_reported() {
    let missing = CulperError::RuntimeError(
        "Could not reliably determine Key-ID or E-Mail from GPG output.".to_owned(),
    );
    assert_eq!(
        private_key_from_stdout("sec:u:2048\nuid:u::::1::0::Max <max@kuci.de>:\n".to_string()),
        Err(missing.clone())
    );
    assert_eq!(
        private_key_from_stdout("sec:u:2048:1:ABCD:\nuid:u::::1::0::Max without mail:\n".to_string()),
        Err(missing.clone())
    );
    assert_eq!(
        private_key_from_stdout("sec:u:2048:1:ABCD:\nuid:short\n".to_string()),
        Err(missing)
    );
}

#[test]
fn the_imported_key_is_the_first_long_identifier() {
    assert_eq!(
        imported_key_from_stdout(
            "gpg: key 0123456789ABCDEF: public key \"Max <max@kuci.de>\" imported\n".to_string()
        ),
        Ok("0123456789ABCDEF".to_owned())
    );
    assert_eq!(
        imported_key_from_stdout("key AAAABBBBCCCCDDDD1111 then 2222333344445555".to_string()),
        Ok("AAAABBBBCCCCDDDD".to_owned())
    );
    assert_eq!(
        imported_key_from_stdout("gpg: no valid OpenPGP data found.".to_string()),
        Err(CulperError::RuntimeError(
            "Could not extract the key id from gpg output: gpg: no valid OpenPGP data found."
                .to_owned()
        ))
    );
    assert!(imported_key_from_stdout("0123456789abcdef".to_string()).is_err());
}

fn ended(success: bool, stdout: &[u8], stderr: &[u8]) -> ProcessOutput {
    ProcessOutput {
        success,
        status: if success { "exit status: 0".to_owned() } else { "exit status: 2".to_owned() },
        stdout: stdout.to_vec(),
        stderr: stderr.to_vec(),
    }
}

#[test]
fn the_arguments_name_the_home_directory() {
    let manager = GpgManager::new("/home/me/.culper_gpg").unwrap();
    assert_eq!(manager.gpg_path, "/home/me/.culper_gpg");
    assert_eq!(manager.homedir_arg(), "--homedir=/home/me/.culper_gpg");
    assert_eq!(manager.import_key_args(), vec!["--homedir=/home/me/.culper_gpg", "--import"]);
    assert_eq!(
        manager.parse_private_key_args(),
        vec![
            "--homedir=/home/me/.culper_gpg",
            "--with-colons",
            "--list-secret-keys",
            "--keyid-format",
            "long"
        ]
    );
    assert_eq!(
        manager.verify_args("/tmp/sig", "/tmp/content"),
        vec!["--homedir=/home/me/.culper_gpg", "--verify", "/tmp/sig", "/tmp/content"]
    );
    assert_eq!(manager.pubkey_for_id_args("ABCD"), vec!["--export", "--armor", "ABCD"]);
    assert_eq!(
        manager.encrypt_args("ME", &vec!["AAAA".to_owned(), "BBBB".to_owned()]),
        vec![
            "--homedir=/home/me/.culper_gpg",
            "--encrypt",
            "--always-trust",
            "--sign",
            "--local-user",
            "ME",
            "-r",
            "AAAA",
            "-r",
            "BBBB"
        ]
    );
    assert_eq!(
        manager.encrypt_args("ME", &vec![]),
        vec![
            "--homedir=/home/me/.culper_gpg",
            "--encrypt",
            "--always-trust",
            "--sign",
            "--local-user",
            "ME"
        ]
    );
    assert_eq!(
        manager.sign_args("ME"),
        vec!["--homedir=/home/me/.culper_gpg", "--local-user", "ME", "--detach-sign"]
    );
    assert_eq!(manager.decrypt_args(), vec!["--homedir=/home/me/.culper_gpg", "--decrypt"]);
}

#[test]
fn a_failed_program_is_reported_with_its_words() {
    let manager = GpgManager::new("x").unwrap();
    assert_eq!(
        manager.encrypt(ended(false, b"", b"no public key")),
        Err(CulperError::RuntimeError(
            "Could not encrypt secret. Error: [exit status: 2]: no public key".to_owned()
        ))
    );
    assert_eq!(
        manager.decrypt(ended(false, b"partial", b"bad key")),
        Err(CulperError::RuntimeError(
            "Could not decrypt secret. Error: [exit status: 2]: bad key".to_owned()
        ))
    );
    assert_eq!(
        manager.check("Tried.", ended(false, b"", &[0xff, 0xfe])),
        Err(CulperError::RuntimeError("Tried. Error: [exit status: 2]: ".to_owned()))
    );
    assert_eq!(
        manager.import_key(ended(false, b"", b"denied")),
        Err(CulperError::RuntimeError(
            "Key was not imported. Error: [exit status: 2]: denied".to_owned()
        ))
    );
    assert_eq!(
        manager.parse_private_key(ended(false, b"", b"denied")),
        Err(CulperError::RuntimeError(
            "Could not list keys. Error: [exit status: 2]: denied".to_owned()
        ))
    );
}

#[test]
fn the_output_of_a_program_that_ended_well_is_used() {
    let manager = GpgManager::new("x").unwrap();
    assert_eq!(manager.encrypt(ended(true, &[1, 2, 3], b"warning")), Ok(vec![1, 2, 3]));
    assert_eq!(manager.sign(ended(true, &[4, 5], b"")), Ok(vec![4, 5]));
    assert_eq!(
        manager.sign(ended(false, &[4, 5], b"no secret key")),
        Err(CulperError::RuntimeError(
            "Could not sign payload. Error: [exit status: 2]: no secret key".to_owned()
        ))
    );
    assert_eq!(manager.decrypt(ended(true, b"plain", b"")), Ok(b"plain".to_vec()));
    assert_eq!(
        manager.import_key(ended(true, b"", b"gpg: key 0123456789ABCDEF: imported")),
        Ok("0123456789ABCDEF".to_owned())
    );
    assert!(manager.import_key(ended(true, b"", &[0xff])).is_err());
    assert_eq!(
        manager.parse_private_key(ended(true, LISTING.as_bytes(), b"")),
        Ok(UserConfig { id: "0123456789ABCDEF".to_owned(), email: "max@kuci.de".to_owned() })
    );
    assert_eq!(manager.verify(Some(true)), Ok(true));
    assert_eq!(manager.verify(Some(false)), Ok(false));
    assert_eq!(
        manager.verify(None),
        Err(CulperError::RuntimeError(
            "Could not spawn GPG process for verifying payload.".to_owned()
        ))
    );
}

#[test]
fn the_handler_seals_to_its_recipients() {
    let handler = PubKeyVaultHandler::new("ME", &["AAAA".to_owned(), "BBBB".to_owned()], "/gpg");
    assert_eq!(
        handler.encrypt_args(),
        vec![
            "--homedir=/gpg",
            "--encrypt",
            "--always-trust",
            "--sign",
            "--local-user",
            "ME",
            "-r",
            "AAAA",
            "-r",
            "BBBB"
        ]
    );
    assert_eq!(handler.manager().gpg_path, "/gpg");
    let sealed = handler
        .sealed(
            UnsealedVault::new("secret".to_owned(), EncryptionFormat::GPG_PUB_KEY),
            ended(true, &[9, 8, 7], b""),
        )
        .unwrap();
    assert_eq!(sealed.secret, vec![9, 8, 7]);
    assert_eq!(sealed.salt, None);
    assert_eq!(sealed.format, EncryptionFormat::GPG_PUB_KEY);
    let opened = handler
        .unsealed(
            SealedVault::new(vec![9, 8, 7], EncryptionFormat::GPG_PUB_KEY),
            ended(true, "geheim".as_bytes(), b""),
        )
        .unwrap();
    assert_eq!(opened.plain_secret, "geheim");
    assert!(handler
        .unsealed(
            SealedVault::new(vec![9, 8, 7], EncryptionFormat::GPG_PUB_KEY),
            ended(true, &[0xc3, 0x28], b""),
        )
        .is_err());
    assert!(handler
        .sealed(
            UnsealedVault::new("secret".to_owned(), EncryptionFormat::GPG_PUB_KEY),
            ended(false, b"", b"no"),
        )
        .is_err());
}
