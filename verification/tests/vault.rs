use culper::culper_drop::CulperDrop;
use culper::errors::{CipherFailure, CulperError, ParseFailure};
use culper::vault::{
    parse, EncryptionFormat, OpenableVault, SealableVault, SealedVault, UnsealedVault, VaultHandler,
};

#[test]
fn can_encrypt() {
    let nuclear_codes = UnsealedVault::new(
        "zerozerozerozero".to_string(),
        EncryptionFormat::GPG_PUB_KEY,
    );
    let secret_nuclear_codes = nuclear_codes
        .seal(&|vault: UnsealedVault| {
            let secret = vault.plain_secret.chars().map(|c| match c {
                'A'..='M' | 'a'..='m' => (c as u8) + 13,
                'N'..='Z' | 'n'..='z' => (c as u8) - 13,
                _ => c as u8,
            });

            Ok(SealedVault::new(secret.collect(), vault.format))
        })
        .unwrap();
    assert_eq!(
        "mrebmrebmrebmreb",
        String::from_utf8(secret_nuclear_codes.secret).unwrap()
    );
}

#[test]
fn format_tags_are_exact() {
    assert_eq!(EncryptionFormat::GPG_PUB_KEY.as_str(), "GPG_PUB_KEY");
    assert_eq!(EncryptionFormat::CKM_AES_CBC_PAD.as_str(), "AES_CBC_PAD");
    assert_eq!(
        EncryptionFormat::from_str(&"GPG_PUB_KEY".to_string()),
        Ok(EncryptionFormat::GPG_PUB_KEY)
    );
    assert_eq!(
        EncryptionFormat::from_str(&"AES_CBC_PAD".to_string()),
        Ok(EncryptionFormat::CKM_AES_CBC_PAD)
    );
    assert!(EncryptionFormat::CKM_AES_CBC_PAD.is_salted());
    assert!(!EncryptionFormat::GPG_PUB_KEY.is_salted());
}

fn unknown(tag: &str) -> CulperError {
    CulperError::ParseError(ParseFailure::UnknownFormat(tag.to_string()))
}

#[test]
fn unknown_format_tag_is_a_parse_error_that_names_it() {
    assert_eq!(EncryptionFormat::from_str(&"ROT13".to_string()), Err(unknown("ROT13")));
    assert_eq!(
        EncryptionFormat::from_str(&"gpg_pub_key".to_string()),
        Err(unknown("gpg_pub_key"))
    );
    assert_eq!(
        EncryptionFormat::from_str(&" GPG_PUB_KEY".to_string()),
        Err(unknown(" GPG_PUB_KEY"))
    );
    assert_eq!(
        EncryptionFormat::from_str(&"GPG_PUB_KEY\n".to_string()),
        Err(unknown("GPG_PUB_KEY\n"))
    );
    assert_eq!(EncryptionFormat::from_str(&String::new()), Err(unknown("")));
    assert_eq!(
        EncryptionFormat::from_str(&"ROT13".to_string()).unwrap_err().describe(),
        "Unknown encryption format given: ROT13"
    );
    let long = "X".repeat(100);
    assert_eq!(
        EncryptionFormat::from_str(&long).unwrap_err().describe(),
        format!("Unknown encryption format given: {}", long)
    );
}

#[test]
fn unsalted_envelope_renders_in_three_fields() {
    let vault = SealedVault::new(b"hello world".to_vec(), EncryptionFormat::GPG_PUB_KEY);
    assert_eq!(vault.to_string(), "CULPER.GPG_PUB_KEY.aGVsbG8gd29ybGQ=");
}

#[test]
fn salted_envelope_renders_in_four_fields() {
    let vault = SealedVault::with_salt(
        b"hello world".to_vec(),
        b"salt".to_vec(),
        EncryptionFormat::CKM_AES_CBC_PAD,
    )
    .unwrap();
    assert_eq!(
        vault.to_string(),
        "CULPER.AES_CBC_PAD.c2FsdA==.aGVsbG8gd29ybGQ="
    );
}

#[test]
fn salted_envelope_without_salt_renders_the_sentinel() {
    let vault = SealedVault::new(vec![0xff, 0x00], EncryptionFormat::CKM_AES_CBC_PAD);
    assert_eq!(vault.to_string(), "CULPER.AES_CBC_PAD.<NONE>./wA=");
}

#[test]
fn unsalted_format_takes_no_salt() {
    assert!(SealedVault::with_salt(vec![1], vec![2], EncryptionFormat::GPG_PUB_KEY).is_none());
}

#[test]
fn parse_reads_what_render_wrote_unsalted() {
    let vault = SealedVault::new(vec![0, 1, 2, 250, 251, 252, 253], EncryptionFormat::GPG_PUB_KEY);
    let parsed = parse(&vault.to_string()).unwrap();
    assert_eq!(parsed.secret, vec![0, 1, 2, 250, 251, 252, 253]);
    assert_eq!(parsed.salt, None);
    assert_eq!(parsed.format, EncryptionFormat::GPG_PUB_KEY);
}

#[test]
fn parse_reads_what_render_wrote_salted() {
    let vault = SealedVault::with_salt(
        vec![9; 32],
        vec![7; 16],
        EncryptionFormat::CKM_AES_CBC_PAD,
    )
    .unwrap();
    let parsed = parse(&vault.to_string()).unwrap();
    assert_eq!(parsed.secret, vec![9; 32]);
    assert_eq!(parsed.salt, Some(vec![7; 16]));
    assert_eq!(parsed.format, EncryptionFormat::CKM_AES_CBC_PAD);
}

#[test]
fn parse_reads_an_empty_payload_and_an_empty_salt() {
    let vault =
        SealedVault::with_salt(vec![], vec![], EncryptionFormat::CKM_AES_CBC_PAD).unwrap();
    assert_eq!(vault.to_string(), "CULPER.AES_CBC_PAD..");
    let parsed = parse(&vault.to_string()).unwrap();
    assert_eq!(parsed.secret, Vec::<u8>::new());
    assert_eq!(parsed.salt, Some(vec![]));
    let bare = SealedVault::new(vec![], EncryptionFormat::GPG_PUB_KEY);
    assert_eq!(bare.to_string(), "CULPER.GPG_PUB_KEY.");
    assert_eq!(parse(&bare.to_string()).unwrap().secret, Vec::<u8>::new());
}

#[test]
fn parse_reads_the_sentinel_as_no_salt() {
    let parsed = parse(&"CULPER.AES_CBC_PAD.<NONE>.aGVsbG8gd29ybGQ=".to_string()).unwrap();
    assert_eq!(parsed.salt, None);
    assert_eq!(parsed.secret, b"hello world".to_vec());
    assert_eq!(parsed.format, EncryptionFormat::CKM_AES_CBC_PAD);
}

#[test]
fn parse_decodes_a_known_payload() {
    let parsed = parse(&"CULPER.GPG_PUB_KEY.aGVsbG8gd29ybGQ=".to_string()).unwrap();
    assert_eq!(parsed.secret, b"hello world".to_vec());
}

fn failure(text: &str) -> CulperError {
    match parse(&text.to_string()) {
        Ok(_) => panic!("{} was read as an envelope", text),
        Err(e) => e,
    }
}

#[test]
fn parse_refuses_what_is_no_envelope() {
    assert_eq!(failure(""), CulperError::ParseError(ParseFailure::MissingTag));
    assert_eq!(failure("plain"), CulperError::ParseError(ParseFailure::MissingTag));
    assert_eq!(
        failure("culper.GPG_PUB_KEY.aGVsbG8="),
        CulperError::ParseError(ParseFailure::MissingTag)
    );
    assert_eq!(
        failure("xCULPER.GPG_PUB_KEY.aGVsbG8="),
        CulperError::ParseError(ParseFailure::MissingTag)
    );
    assert_eq!(
        failure("see CULPER.GPG_PUB_KEY.aGVsbG8="),
        CulperError::ParseError(ParseFailure::MissingTag)
    );
    assert_eq!(
        failure("a.b.c"),
        CulperError::ParseError(ParseFailure::MissingTag)
    );
}

#[test]
fn parse_refuses_a_tag_with_a_malformed_tail() {
    assert_eq!(failure("CULPER"), CulperError::ParseError(ParseFailure::FieldCount));
    assert_eq!(failure("CULPER."), unknown(""));
    assert_eq!(failure("CULPER.ROT13.aGVsbG8="), unknown("ROT13"));
    assert_eq!(
        failure("CULPER.ROT13.aGVsbG8=").describe(),
        "Unknown encryption format given: ROT13"
    );
    assert_eq!(
        failure("CULPER.GPG_PUB_KEY"),
        CulperError::ParseError(ParseFailure::FieldCount)
    );
    assert_eq!(
        failure("CULPER.GPG_PUB_KEY.aGVsbG8=.aGVsbG8="),
        CulperError::ParseError(ParseFailure::FieldCount)
    );
    assert_eq!(
        failure("CULPER.AES_CBC_PAD.aGVsbG8="),
        CulperError::ParseError(ParseFailure::FieldCount)
    );
    assert_eq!(
        failure("CULPER.AES_CBC_PAD.<NONE>.aGVsbG8=.x"),
        CulperError::ParseError(ParseFailure::FieldCount)
    );
    assert_eq!(
        failure("CULPER.GPG_PUB_KEY.not base64!"),
        CulperError::ParseError(ParseFailure::InvalidPayload)
    );
    assert_eq!(
        failure("CULPER.AES_CBC_PAD.<NONE>.<garbage>"),
        CulperError::ParseError(ParseFailure::InvalidPayload)
    );
    assert_eq!(
        failure("CULPER.AES_CBC_PAD.<none>.aGVsbG8="),
        CulperError::ParseError(ParseFailure::InvalidSalt)
    );
    assert_eq!(
        failure("CULPER.AES_CBC_PAD.***.aGVsbG8="),
        CulperError::ParseError(ParseFailure::InvalidSalt)
    );
}

#[test]
fn unseal_hands_the_vault_to_the_function() {
    let sealed = SealedVault::new(b"uryyb".to_vec(), EncryptionFormat::GPG_PUB_KEY);
    let opened = sealed
        .unseal(&|vault: SealedVault| {
            Ok(UnsealedVault::new(
                String::from_utf8(vault.secret).unwrap(),
                vault.format,
            ))
        })
        .unwrap();
    assert_eq!(opened.plain_secret, "uryyb");
    assert_eq!(opened.format, EncryptionFormat::GPG_PUB_KEY);
}

#[test]
fn seal_hands_the_failure_of_the_function_on() {
    let open = UnsealedVault::new("x".to_string(), EncryptionFormat::GPG_PUB_KEY);
    let res = open.seal(&|_vault: UnsealedVault| Err(CulperError::NotFound));
    assert_eq!(res.err(), Some(CulperError::NotFound));
}

struct Reverser;

impl VaultHandler for Reverser {
    fn encrypt(&self, vault: UnsealedVault) -> Result<SealedVault, CulperError> {
        let mut bytes = vault.plain_secret.into_bytes();
        bytes.reverse();
        Ok(SealedVault::new(bytes, vault.format))
    }

    fn decrypt(&self, vault: SealedVault) -> Result<UnsealedVault, CulperError> {
        let mut bytes = vault.secret;
        bytes.reverse();
        Ok(UnsealedVault::new(String::from_utf8(bytes).unwrap(), vault.format))
    }
}

#[test]
fn a_handler_seals_and_opens() {
    let handler = Reverser;
    let sealed = UnsealedVault::new("abc".to_string(), EncryptionFormat::GPG_PUB_KEY)
        .seal(&|vault| handler.encrypt(vault))
        .unwrap();
    assert_eq!(sealed.to_string(), "CULPER.GPG_PUB_KEY.Y2Jh");
    let opened = parse(&sealed.to_string())
        .unwrap()
        .unseal(&|vault| handler.decrypt(vault))
        .unwrap();
    assert_eq!(opened.plain_secret, "abc");
}

#[test]
fn a_drop_renders_its_four_fields() {
    let drop = CulperDrop::new(
        "c2FsdA==".to_string(),
        "cGFzcw==".to_string(),
        EncryptionFormat::CKM_AES_CBC_PAD,
    );
    assert_eq!(drop.as_str(), "CULPER.AES_CBC_PAD.c2FsdA==.cGFzcw==");
}

#[test]
fn a_drop_is_read_back_from_its_text() {
    let drop = CulperDrop::new(
        "c2FsdA==".to_string(),
        "cGFzcw==".to_string(),
        EncryptionFormat::CKM_AES_CBC_PAD,
    );
    let read = CulperDrop::parse(&drop.as_str()).unwrap();
    assert_eq!(read, drop);
    assert_eq!(read.salt(), "c2FsdA==");
    assert_eq!(read.pass(), "cGFzcw==");
    assert_eq!(read.format(), EncryptionFormat::CKM_AES_CBC_PAD);
    let empty = CulperDrop::parse(&"CULPER.AES_CBC_PAD..".to_string()).unwrap();
    assert_eq!(
        empty,
        CulperDrop::new(String::new(), String::new(), EncryptionFormat::CKM_AES_CBC_PAD)
    );
    assert_eq!(empty.as_str(), "CULPER.AES_CBC_PAD..");
    let sentinel = CulperDrop::parse(&"CULPER.AES_CBC_PAD.<NONE>.cGFzcw==".to_string()).unwrap();
    assert_eq!(sentinel.salt(), "<NONE>");
}

#[test]
fn what_is_no_drop_is_refused_with_the_reason() {
    let refused = |text: &str| CulperDrop::parse(&text.to_string()).err();
    assert_eq!(refused(""), Some(CulperError::ParseError(ParseFailure::MissingTag)));
    assert_eq!(
        refused("culper.AES_CBC_PAD.c2FsdA==.cGFzcw=="),
        Some(CulperError::ParseError(ParseFailure::MissingTag))
    );
    assert_eq!(refused("CULPER"), Some(CulperError::ParseError(ParseFailure::FieldCount)));
    assert_eq!(
        refused("CULPER.whatever.."),
        Some(unknown("whatever"))
    );
    assert_eq!(
        refused("CULPER.AES_CBC_PAD.cGFzcw=="),
        Some(CulperError::ParseError(ParseFailure::FieldCount))
    );
    assert_eq!(
        refused("CULPER.AES_CBC_PAD.a.b.c"),
        Some(CulperError::ParseError(ParseFailure::FieldCount))
    );
    assert_eq!(
        refused("CULPER.GPG_PUB_KEY.c2FsdA==.cGFzcw=="),
        Some(CulperError::ParseError(ParseFailure::FieldCount))
    );
}

#[test]
fn errors_describe_themselves() {
    assert_eq!(
        CulperError::ParseError(ParseFailure::MissingTag).describe(),
        "Could not parse string"
    );
    assert_eq!(
        unknown("ROT13").describe(),
        "Unknown encryption format given: ROT13"
    );
    assert_eq!(
        CulperError::UserError("no label".to_string()).describe(),
        "User error: no label"
    );
    assert_eq!(
        CulperError::RuntimeError("boom".to_string()).describe(),
        "Internal error: boom"
    );
    assert_eq!(
        CulperError::ResolutionExhausted(vec![1, 2]).describe(),
        "No key to decrypt message"
    );
    assert_eq!(
        CulperError::StoreConflict { key_id: 1, owner: 2 }.describe(),
        "The key identifier belongs to another binding"
    );
}

#[test]
fn cipher_failures_describe_themselves() {
    use_cipher_words(CipherFailure::BadParameters, "The key or the salt has the wrong length.");
    use_cipher_words(CipherFailure::BadLength, "The payload is no whole number of blocks.");
    use_cipher_words(CipherFailure::BadPadding, "Decrypting the given payload failed.");
    use_cipher_words(CipherFailure::BadSalt, "The envelope holds no salt of the right length.");
    use_cipher_words(CipherFailure::BadText, "The decrypted payload is no text.");
    assert_eq!(
        CulperError::ParseError(ParseFailure::InvalidSalt).describe(),
        "The salt is not valid base64"
    );
    assert_eq!(
        CulperError::ParseError(ParseFailure::InvalidPayload).describe(),
        "The payload is not valid base64"
    );
    assert_eq!(
        CulperError::IntegrityError("bad".to_string()).describe(),
        "Integrity error: bad"
    );
}

fn use_cipher_words(failure: CipherFailure, words: &str) {
    assert_eq!(CulperError::CipherError(failure).describe(), words);
}
