use culper::commands::decrypt::{
    after_key_password, allows_encryption, decrypt, hint_for, recipients_of, resolve, unseal,
    Certificate, Helper, Key, KeyBinding, KeyFlags, Opening, Pass, Secret, SecretKey, Step,
};
use culper::commands::encrypt::{
    build_recipients, encrypt, recipient_bindings, signer_ready, Message, Pkesk, Recipient, Skesk,
};
use culper::errors::CulperError;
use culper::store::{Binding, KeyMaterial, KeyStore};

const FOR_TRANSPORT: Option<KeyFlags> = Some(KeyFlags {
    encrypt_at_rest: false,
    encrypt_for_transport: true,
});

fn certificate(name: &str, key_id: u64, secret: Option<SecretKey>) -> Certificate {
    Certificate {
        fingerprint: format!("FP-{}", name),
        userids: vec![format!("{} <{}@example.org>", name, name)],
        primary: KeyBinding {
            key: Key { key_id, secret },
            flags: FOR_TRANSPORT,
        },
        subkeys: vec![],
    }
}

fn use_key(record: usize, key_id: u64, name: &str) -> Step {
    Step::UseKey {
        record,
        key_id,
        identity: format!("FP-{}", name),
    }
}

#[test]
fn the_resolution_starts_in_the_first_pass() {
    assert_eq!(Pass::default(), Pass::UnencryptedKey(0));
}

#[test]
fn an_unencrypted_key_is_used_without_a_prompt() {
    let mut helper = Helper::new(vec![
        certificate("locked", 2, Some(SecretKey::Encrypted)),
        certificate("open", 3, Some(SecretKey::Unencrypted)),
    ]);
    assert_eq!(helper.get_secret(&[1, 2, 3], 1), Ok(use_key(2, 3, "open")));
}

#[test]
fn the_first_matching_record_of_a_pass_wins() {
    let mut helper = Helper::new(vec![
        certificate("a", 7, Some(SecretKey::Unencrypted)),
        certificate("b", 8, Some(SecretKey::Unencrypted)),
    ]);
    assert_eq!(helper.get_secret(&[9, 8, 7, 8], 0), Ok(use_key(1, 8, "b")));
    assert_eq!(helper.get_secret(&[9, 8, 7, 8], 0), Ok(use_key(2, 7, "a")));
    assert_eq!(helper.get_secret(&[9, 8, 7, 8], 0), Ok(use_key(3, 8, "b")));
    assert_eq!(
        helper.get_secret(&[9, 8, 7, 8], 0),
        Err(CulperError::ResolutionExhausted(vec![9, 8, 7, 8]))
    );
}

#[test]
fn encrypted_keys_are_asked_for_after_the_unencrypted_ones() {
    let mut helper = Helper::new(vec![
        certificate("locked", 2, Some(SecretKey::Encrypted)),
        certificate("open", 3, Some(SecretKey::Unencrypted)),
        certificate("sealed", 4, Some(SecretKey::Encrypted)),
    ]);
    let records = [4, 3, 2];
    assert_eq!(helper.get_secret(&records, 1), Ok(use_key(1, 3, "open")));
    assert_eq!(
        helper.get_secret(&records, 1),
        Ok(Step::AskKeyPassword {
            record: 0,
            key_id: 4,
            identity: "FP-sealed".to_string(),
            hint: "sealed <sealed@example.org> (0000000000000004)".to_string(),
        })
    );
    assert_eq!(
        helper.get_secret(&records, 1),
        Ok(Step::AskKeyPassword {
            record: 2,
            key_id: 2,
            identity: "FP-locked".to_string(),
            hint: "locked <locked@example.org> (0000000000000002)".to_string(),
        })
    );
    assert_eq!(helper.get_secret(&records, 1), Ok(Step::AskMessagePassword));
    assert_eq!(helper.get_secret(&records, 1), Ok(Step::AskMessagePassword));
}

#[test]
fn without_a_password_record_nothing_is_left_to_try() {
    let mut helper = Helper::new(vec![certificate("other", 5, Some(SecretKey::Unencrypted))]);
    assert_eq!(
        helper.get_secret(&[1, 2], 0),
        Err(CulperError::ResolutionExhausted(vec![1, 2]))
    );
    assert_eq!(
        helper.get_secret(&[1, 2], 0),
        Err(CulperError::ResolutionExhausted(vec![1, 2]))
    );
    let mut nobody = Helper::new(vec![]);
    assert_eq!(
        nobody.get_secret(&[], 0),
        Err(CulperError::ResolutionExhausted(vec![]))
    );
    assert_eq!(nobody.get_secret(&[], 2), Ok(Step::AskMessagePassword));
}

#[test]
fn a_key_without_its_secret_part_opens_nothing() {
    let mut helper = Helper::new(vec![certificate("public", 5, None)]);
    assert_eq!(
        helper.get_secret(&[5], 0),
        Err(CulperError::ResolutionExhausted(vec![5]))
    );
}

#[test]
fn only_keys_that_can_be_encrypted_to_are_offered() {
    let signing_only = Certificate {
        fingerprint: "FP".to_string(),
        userids: vec![],
        primary: KeyBinding {
            key: Key { key_id: 1, secret: Some(SecretKey::Unencrypted) },
            flags: Some(KeyFlags { encrypt_at_rest: false, encrypt_for_transport: false }),
        },
        subkeys: vec![
            KeyBinding {
                key: Key { key_id: 2, secret: Some(SecretKey::Unencrypted) },
                flags: None,
            },
            KeyBinding {
                key: Key { key_id: 3, secret: Some(SecretKey::Unencrypted) },
                flags: Some(KeyFlags { encrypt_at_rest: true, encrypt_for_transport: false }),
            },
        ],
    };
    let mut helper = Helper::new(vec![signing_only]);
    assert_eq!(
        helper.get_secret(&[1, 2, 3], 0),
        Ok(Step::UseKey { record: 2, key_id: 3, identity: "FP".to_string() })
    );
    assert!(allows_encryption(&FOR_TRANSPORT));
    assert!(!allows_encryption(&None));
}

#[test]
fn a_later_key_stands_for_a_shared_identifier() {
    let mut helper = Helper::new(vec![
        certificate("first", 5, Some(SecretKey::Encrypted)),
        certificate("second", 5, Some(SecretKey::Unencrypted)),
    ]);
    assert_eq!(helper.get_secret(&[5], 0), Ok(use_key(0, 5, "second")));
}

#[test]
fn the_hint_names_the_user_and_the_key() {
    assert_eq!(
        hint_for(&certificate("alice", 0x0123_4567_89ab_cdef, None)),
        "alice <alice@example.org> (0123456789ABCDEF)"
    );
    let mut nameless = certificate("x", u64::MAX, None);
    nameless.userids.clear();
    assert_eq!(hint_for(&nameless), "FFFFFFFFFFFFFFFF");
    let mut zero = certificate("x", 0, None);
    zero.userids.clear();
    assert_eq!(hint_for(&zero), "0000000000000000");
}

#[test]
fn a_wrong_key_password_asks_for_the_same_key_again() {
    let ask = Step::AskKeyPassword {
        record: 1,
        key_id: 9,
        identity: "FP".to_string(),
        hint: "me (0000000000000009)".to_string(),
    };
    assert_eq!(after_key_password(ask.clone(), false), ask);
    assert_eq!(after_key_password(after_key_password(ask.clone(), false), false), ask);
    assert_eq!(
        after_key_password(ask, true),
        Step::UseKey { record: 1, key_id: 9, identity: "FP".to_string() }
    );
    assert_eq!(after_key_password(Step::AskMessagePassword, true), Step::AskMessagePassword);
}

#[test]
fn the_signer_has_to_be_unlocked() {
    assert_eq!(signer_ready(Some(SecretKey::Unencrypted)), Ok(true));
    assert_eq!(signer_ready(Some(SecretKey::Encrypted)), Ok(false));
    assert_eq!(
        signer_ready(None),
        Err(CulperError::UserError("Could not access secret key".to_string()))
    );
}

fn recipient(key_id: u64, name: &str) -> Recipient {
    Recipient {
        key_id,
        fingerprint: format!("FP-{}", name),
        material: name.as_bytes().to_vec(),
    }
}

fn read_key(binding: &Binding) -> Option<Recipient> {
    let text = String::from_utf8(binding.public_key_material.clone()).ok()?;
    let key_id = text.strip_prefix("key:")?.parse().ok()?;
    Some(Recipient {
        key_id,
        fingerprint: binding.fingerprint.clone(),
        material: binding.public_key_material.clone(),
    })
}

fn stored(key_id: u64, fingerprint: &str) -> KeyMaterial {
    KeyMaterial {
        fingerprint: fingerprint.to_string(),
        bytes: format!("key:{}", key_id).into_bytes(),
        key_ids: vec![key_id],
    }
}

fn mask(key_id: u64, bytes: &[u8]) -> Vec<u8> {
    let pad = key_id.to_le_bytes();
    bytes.iter().enumerate().map(|(i, b)| b ^ pad[i % 8]).collect()
}

fn wrap(to: &Recipient, session_key: &Vec<u8>) -> Result<Vec<u8>, CulperError> {
    Ok(mask(to.key_id, session_key))
}

fn cipher(session_key: &Vec<u8>, text: &Vec<u8>) -> Result<Vec<u8>, CulperError> {
    Ok(text.iter().enumerate().map(|(i, b)| b ^ session_key[i % session_key.len()]).collect())
}

fn sign(text: &Vec<u8>) -> Result<Vec<u8>, CulperError> {
    Ok(vec![text.iter().fold(0u8, |sum, b| sum.wrapping_add(*b))])
}

fn verify(text: &Vec<u8>, signature: &Vec<u8>) -> bool {
    sign(text).ok().as_ref() == Some(signature)
}

fn open(message: &Message, secret: &Secret) -> Result<Vec<u8>, CulperError> {
    match secret {
        Secret::Asymmetric { record, key_id, .. } => Ok(mask(*key_id, &message.pkesks[*record].esk)),
        Secret::Symmetric { .. } => Err(CulperError::NotFound),
    }
}

#[test]
fn recipients_come_domain_by_domain() {
    let mut store = KeyStore::new();
    store.import("targets", "alice", &stored(11, "F1"), 0).unwrap();
    store.import("admins", "root", &stored(12, "F2"), 0).unwrap();
    store.import("targets", "bob", &stored(13, "F3"), 0).unwrap();
    let domains = vec!["admins".to_string(), "targets".to_string(), "owners".to_string()];
    let bindings = recipient_bindings(&store, &domains);
    let labels: Vec<&str> = bindings.iter().map(|b| b.label.as_str()).collect();
    assert_eq!(labels, vec!["root", "alice", "bob"]);
    let own = recipient(99, "me");
    let found = build_recipients(&store, &domains, true, &own, &read_key).unwrap();
    let ids: Vec<u64> = found.iter().map(|r| r.key_id).collect();
    assert_eq!(ids, vec![12, 11, 13, 99]);
    assert_eq!(found[3], own);
    let without = build_recipients(&store, &domains, false, &own, &read_key).unwrap();
    assert_eq!(without.len(), 3);
    assert_eq!(build_recipients(&store, &vec![], true, &own, &read_key), Ok(vec![own.duplicate()]));
}

#[test]
fn one_unreadable_key_fails_the_whole_set() {
    let mut store = KeyStore::new();
    store.import("targets", "alice", &stored(11, "F1"), 0).unwrap();
    let broken = KeyMaterial {
        fingerprint: "F2".to_string(),
        bytes: b"garbage".to_vec(),
        key_ids: vec![12],
    };
    store.import("targets", "bob", &broken, 0).unwrap();
    let res = build_recipients(
        &store,
        &vec!["targets".to_string()],
        true,
        &recipient(99, "me"),
        &read_key,
    );
    assert!(matches!(res, Err(CulperError::IntegrityError(_))));
}

#[test]
fn a_message_holds_one_record_for_each_recipient() {
    let recipients = vec![recipient(11, "alice"), recipient(12, "bob"), recipient(11, "alice")];
    let session_key = vec![5, 6, 7, 8];
    let message = encrypt(
        &b"top-secret".to_vec(),
        &recipients,
        Some(SecretKey::Unencrypted),
        &session_key,
        &wrap,
        &cipher,
        &sign,
    )
    .unwrap();
    assert_eq!(
        message.pkesks,
        vec![
            Pkesk { recipient: 11, esk: vec![5 ^ 11, 6, 7, 8] },
            Pkesk { recipient: 12, esk: vec![5 ^ 12, 6, 7, 8] },
            Pkesk { recipient: 11, esk: vec![5 ^ 11, 6, 7, 8] },
        ]
    );
    assert!(message.skesks.is_empty());
    assert_eq!(message.body, cipher(&session_key, &b"top-secret".to_vec()).unwrap());
    assert_eq!(message.signature, sign(&b"top-secret".to_vec()).unwrap());
    assert_eq!(recipients_of(&message), vec![11, 12, 11]);
}

#[test]
fn a_locked_or_missing_signer_key_ends_the_sealing() {
    let recipients = vec![recipient(11, "alice")];
    for signer in [Some(SecretKey::Encrypted), None] {
        let res = encrypt(
            &b"x".to_vec(),
            &recipients,
            signer,
            &vec![1],
            &wrap,
            &cipher,
            &sign,
        );
        assert!(matches!(res, Err(CulperError::UserError(_))));
    }
}

#[test]
fn a_failing_step_ends_the_sealing() {
    let refuse = |to: &Recipient, key: &Vec<u8>| -> Result<Vec<u8>, CulperError> {
        if to.key_id == 12 {
            Err(CulperError::IntegrityError("no".to_string()))
        } else {
            wrap(to, key)
        }
    };
    let res = encrypt(
        &b"x".to_vec(),
        &vec![recipient(11, "alice"), recipient(12, "bob")],
        Some(SecretKey::Unencrypted),
        &vec![1],
        &refuse,
        &cipher,
        &sign,
    );
    assert_eq!(res, Err(CulperError::IntegrityError("no".to_string())));
}

#[test]
fn sealed_to_a_domain_and_self_opens_for_a_recipient_only() {
    let mut store = KeyStore::new();
    store.import("targets", "alice", &stored(0xA11CE, "F1"), 0).unwrap();
    assert_eq!(store.lookup("targets", "alice").unwrap().fingerprint, "F1");
    let own = recipient(0x5E1F, "me");
    let recipients =
        build_recipients(&store, &vec!["targets".to_string()], true, &own, &read_key).unwrap();
    let message = encrypt(
        &b"top-secret".to_vec(),
        &recipients,
        Some(SecretKey::Unencrypted),
        &vec![42, 43, 44, 45, 46],
        &wrap,
        &cipher,
        &sign,
    )
    .unwrap();
    assert_eq!(message.pkesks.len(), 2);
    assert_eq!(recipients_of(&message), vec![0xA11CE, 0x5E1F]);

    let mut alice = Helper::new(vec![certificate("alice", 0xA11CE, Some(SecretKey::Unencrypted))]);
    let secret = match resolve(&message, &mut alice).unwrap() {
        Step::UseKey { record, key_id, identity } => Secret::Asymmetric { record, key_id, identity },
        other => panic!("a prompt was asked for: {:?}", other),
    };
    assert_eq!(
        secret,
        Secret::Asymmetric { record: 0, key_id: 0xA11CE, identity: "FP-alice".to_string() }
    );
    assert_eq!(
        decrypt(&message, 1, &secret, &open, &cipher, &verify),
        Ok(b"top-secret".to_vec())
    );

    let mut stranger = Helper::new(vec![certificate("eve", 0xE7E, Some(SecretKey::Unencrypted))]);
    assert_eq!(
        resolve(&message, &mut stranger),
        Err(CulperError::ResolutionExhausted(vec![0xA11CE, 0x5E1F]))
    );
}

#[test]
fn a_message_with_a_password_record_asks_for_the_password_last() {
    let message = Message {
        pkesks: vec![Pkesk { recipient: 1, esk: vec![] }],
        skesks: vec![Skesk { esk: vec![1] }],
        body: vec![],
        signature: vec![],
    };
    let mut helper = Helper::new(vec![certificate("eve", 2, Some(SecretKey::Unencrypted))]);
    assert_eq!(resolve(&message, &mut helper), Ok(Step::AskMessagePassword));
}

#[test]
fn a_signature_that_does_not_verify_is_an_integrity_error() {
    let mut message = encrypt(
        &b"top-secret".to_vec(),
        &vec![recipient(7, "alice")],
        Some(SecretKey::Unencrypted),
        &vec![9, 9],
        &wrap,
        &cipher,
        &sign,
    )
    .unwrap();
    message.signature = vec![0];
    let secret = Secret::Asymmetric { record: 0, key_id: 7, identity: "FP-alice".to_string() };
    assert!(matches!(
        decrypt(&message, 1, &secret, &open, &cipher, &verify),
        Err(CulperError::IntegrityError(_))
    ));
    assert_eq!(
        decrypt(&message, 0, &secret, &open, &cipher, &verify),
        Ok(b"top-secret".to_vec())
    );
    let password = Secret::Symmetric { password: "pw".to_string() };
    assert_eq!(
        decrypt(&message, 1, &password, &open, &cipher, &verify),
        Err(CulperError::NotFound)
    );
}

#[test]
fn the_prompts_name_what_is_asked_for() {
    let ask = Step::AskKeyPassword {
        record: 0,
        key_id: 9,
        identity: "FP".to_string(),
        hint: "alice <alice@example.org> (0000000000000009)".to_string(),
    };
    assert_eq!(
        ask.prompt(),
        Some(
            "Enter password to decrypt key alice <alice@example.org> (0000000000000009): "
                .to_string()
        )
    );
    assert_eq!(
        Step::AskMessagePassword.prompt(),
        Some("Enter password to decrypt message: ".to_string())
    );
    assert_eq!(use_key(0, 9, "alice").prompt(), None);
}

fn sealed_to(recipients: &[Recipient]) -> Message {
    encrypt(
        &b"top-secret".to_vec(),
        &recipients.to_vec(),
        Some(SecretKey::Unencrypted),
        &vec![42, 43, 44],
        &wrap,
        &cipher,
        &sign,
    )
    .unwrap()
}

#[test]
fn a_recipient_opens_the_message_without_a_prompt() {
    let message = sealed_to(&[recipient(0xA11CE, "alice"), recipient(0x5E1F, "me")]);
    assert_eq!(message.pkesks.len(), 2);
    let mut alice = Helper::new(vec![certificate("alice", 0xA11CE, Some(SecretKey::Unencrypted))]);
    assert_eq!(
        unseal(&message, 1, &mut alice, &open, &cipher, &verify),
        Ok(Opening::Opened(b"top-secret".to_vec()))
    );
    let mut me = Helper::new(vec![
        certificate("locked", 0xA11CE, Some(SecretKey::Encrypted)),
        certificate("me", 0x5E1F, Some(SecretKey::Unencrypted)),
    ]);
    assert_eq!(
        unseal(&message, 1, &mut me, &open, &cipher, &verify),
        Ok(Opening::Opened(b"top-secret".to_vec()))
    );
}

#[test]
fn an_unrelated_key_opens_nothing() {
    let message = sealed_to(&[recipient(0xA11CE, "alice"), recipient(0x5E1F, "me")]);
    let mut stranger = Helper::new(vec![certificate("eve", 0xE7E, Some(SecretKey::Unencrypted))]);
    assert_eq!(
        unseal(&message, 1, &mut stranger, &open, &cipher, &verify),
        Err(CulperError::ResolutionExhausted(vec![0xA11CE, 0x5E1F]))
    );
    let mut nobody = Helper::new(vec![]);
    assert_eq!(
        unseal(&message, 1, &mut nobody, &open, &cipher, &verify),
        Err(CulperError::ResolutionExhausted(vec![0xA11CE, 0x5E1F]))
    );
}

#[test]
fn a_locked_key_is_asked_for_before_anything_is_opened() {
    let message = sealed_to(&[recipient(7, "alice")]);
    let mut locked = Helper::new(vec![certificate("alice", 7, Some(SecretKey::Encrypted))]);
    let asked = unseal(&message, 1, &mut locked, &open, &cipher, &verify).unwrap();
    assert_eq!(
        asked,
        Opening::Ask(Step::AskKeyPassword {
            record: 0,
            key_id: 7,
            identity: "FP-alice".to_string(),
            hint: "alice <alice@example.org> (0000000000000007)".to_string(),
        })
    );
    let mut tampered = sealed_to(&[recipient(7, "alice")]);
    tampered.signature = vec![0];
    let mut alice = Helper::new(vec![certificate("alice", 7, Some(SecretKey::Unencrypted))]);
    assert!(matches!(
        unseal(&tampered, 1, &mut alice, &open, &cipher, &verify),
        Err(CulperError::IntegrityError(_))
    ));
}
