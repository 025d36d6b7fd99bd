//! Opening a message: which of the caller's secret keys, if any, is to be
//! used.
//!
//! A message carries one record for each recipient it was encrypted to,
//! tagged with the recipient's key identifier, and may carry records that a
//! password opens. The caller offers secret keys. The resolution goes
//! through three passes, each from the start of the records and only once
//! the one before found nothing more: keys that need no password, keys
//! whose password has to be asked for, and last the message password.
//! Within a pass the first record that matches wins.

use vstd::prelude::*;
use std::collections::HashMap;
use crate::commands::encrypt::{record_ids, wrapped_for, Message, Recipient};
use crate::errors::CulperError;

verus! {

broadcast use vstd::std_specs::hash::group_hash_axioms;

/// How the secret part of a key is held.
#[derive(Debug, Clone, Copy, PartialEq, Eq, Structural)]
pub enum SecretKey {
    /// Ready to use.
    Unencrypted,
    /// Encrypted at rest: a password unlocks it.
    Encrypted,
}

/// A key as the resolution sees it: its identifier, and how its secret
/// part is held, if the caller has it at all.
#[derive(Debug, Clone, Copy, PartialEq, Eq, Structural)]
pub struct Key {
    pub key_id: u64,
    pub secret: Option<SecretKey>,
}

/// What a key may be used for, as its signature says.
#[derive(Debug, Clone, Copy, PartialEq, Eq, Structural)]
pub struct KeyFlags {
    pub encrypt_at_rest: bool,
    pub encrypt_for_transport: bool,
}

/// A key with the flags of the signature that binds it, if it has one.
#[derive(Debug, Clone, Copy, PartialEq, Eq, Structural)]
pub struct KeyBinding {
    pub key: Key,
    pub flags: Option<KeyFlags>,
}

/// What the resolution reads of a certificate that the caller offers: its
/// fingerprint, its user identities, its primary key and its subkeys.
#[derive(Debug, Clone, PartialEq, Eq)]
pub struct Certificate {
    pub fingerprint: String,
    pub userids: Vec<String>,
    pub primary: KeyBinding,
    pub subkeys: Vec<KeyBinding>,
}

/// A certificate as plain mathematical values.
pub struct CertificateModel {
    pub fingerprint: Seq<char>,
    pub userids: Seq<Seq<char>>,
    pub primary: KeyBinding,
    pub subkeys: Seq<KeyBinding>,
}

impl View for Certificate {
    type V = CertificateModel;

    open spec fn view(&self) -> CertificateModel {
        CertificateModel {
            fingerprint: self.fingerprint@,
            userids: crate::text::texts(self.userids@),
            primary: self.primary,
            subkeys: self.subkeys@,
        }
    }
}

/// A secret key that the caller offers, with the fingerprint of the
/// certificate it belongs to and the text that names it in a prompt.
#[derive(Debug, Clone, PartialEq, Eq)]
pub struct SecretEntry {
    pub key: Key,
    pub identity: String,
    pub hint: String,
}

/// A secret entry as plain mathematical values.
pub struct EntryModel {
    pub key: Key,
    pub identity: Seq<char>,
    pub hint: Seq<char>,
}

impl View for SecretEntry {
    type V = EntryModel;

    open spec fn view(&self) -> EntryModel {
        EntryModel { key: self.key, identity: self.identity@, hint: self.hint@ }
    }
}

/// The secret keys that the caller offers, by key identifier.
pub type Material = Map<u64, EntryModel>;

/// The pass that the resolution is in, and the record it goes on from.
#[derive(Debug, Clone, Copy, PartialEq, Eq, Structural)]
pub enum Pass {
    UnencryptedKey(usize),
    EncryptedKey(usize),
    Passwords,
}

impl Default for Pass {
    fn default() -> (pass: Pass)
        ensures
            pass == Pass::UnencryptedKey(0),
    {
        Pass::UnencryptedKey(0)
    }
}

/// What the caller is to do next.
#[derive(Debug, Clone, PartialEq, Eq)]
pub enum Step {
    /// Open the record with this key; no password is needed.
    UseKey { record: usize, key_id: u64, identity: String },
    /// Ask for the password of this key, naming it by the hint.
    AskKeyPassword { record: usize, key_id: u64, identity: String, hint: String },
    /// Ask for the password of the message.
    AskMessagePassword,
}

/// What the user is asked when a step needs a password: for a key, the
/// question names the key by its hint. A key that needs no password asks
/// nothing.
pub open spec fn prompt_text(step: Step) -> Option<Seq<char>> {
    match step {
        Step::UseKey { .. } => None,
        Step::AskKeyPassword { hint, .. } => Some("Enter password to decrypt key "@ + hint@ + ": "@),
        Step::AskMessagePassword => Some("Enter password to decrypt message: "@),
    }
}

impl Step {
    /// The question to put to the user, if the step asks one.
    pub fn prompt(&self) -> (text: Option<String>)
        ensures
            match prompt_text(*self) {
                Some(question) => text matches Some(t) && t@ == question,
                None => text is None,
            },
    {
        match self {
            Step::UseKey { .. } => None,
            Step::AskKeyPassword { hint, .. } => {
                let mut text = String::from_str("Enter password to decrypt key ");
                text.append(hint.as_str());
                text.append(": ");
                proof {
                    assert(text@ =~= "Enter password to decrypt key "@ + hint@ + ": "@);
                }
                Some(text)
            },
            Step::AskMessagePassword => Some(String::from_str("Enter password to decrypt message: ")),
        }
    }
}

/// Where a resolution ends, with the record it chose.
pub enum Outcome {
    UseKey(int),
    AskKeyPassword(int),
    AskMessagePassword,
    Exhausted,
}

/// The digit for a value below sixteen.
pub open spec fn hex_digit(value: nat) -> char {
    if value < 10 {
        (('0' as u8) + value) as u8 as char
    } else {
        (('A' as u8) + value - 10) as u8 as char
    }
}

/// The lowest `width` hexadecimal digits of `n`, most significant first.
pub open spec fn hex_digits(n: nat, width: nat) -> Seq<char>
    decreases width,
{
    if width == 0 {
        Seq::empty()
    } else {
        hex_digits(n / 16, (width - 1) as nat).push(hex_digit(n % 16))
    }
}

/// A key identifier as sixteen hexadecimal digits.
pub open spec fn key_id_text(key_id: u64) -> Seq<char> {
    hex_digits(key_id as nat, 16)
}

/// The text that names the keys of a certificate in a prompt: the first
/// user identity, if there is one, and the primary key's identifier.
pub open spec fn hint_of(cert: CertificateModel) -> Seq<char> {
    if cert.userids.len() > 0 {
        cert.userids[0] + " ("@ + key_id_text(cert.primary.key.key_id) + ")"@
    } else {
        key_id_text(cert.primary.key.key_id)
    }
}

/// Whether a signature allows encrypting to the key it binds.
pub open spec fn can_encrypt(flags: Option<KeyFlags>) -> bool {
    flags matches Some(f) && (f.encrypt_at_rest || f.encrypt_for_transport)
}

/// The material with one more key, if the key can be encrypted to.
pub open spec fn with_key(material: Material, cert: CertificateModel, binding: KeyBinding) -> Material {
    if can_encrypt(binding.flags) {
        material.insert(
            binding.key.key_id,
            EntryModel { key: binding.key, identity: cert.fingerprint, hint: hint_of(cert) },
        )
    } else {
        material
    }
}

/// The material with the given subkeys of a certificate, in their order.
pub open spec fn with_subkeys(material: Material, cert: CertificateModel, subkeys: Seq<KeyBinding>) -> Material
    decreases subkeys.len(),
{
    if subkeys.len() == 0 {
        material
    } else {
        with_key(with_subkeys(material, cert, subkeys.drop_last()), cert, subkeys.last())
    }
}

/// The secret keys of the given certificates. Where two keys share an
/// identifier, the later one stands.
pub open spec fn material_of(certs: Seq<CertificateModel>) -> Material
    decreases certs.len(),
{
    if certs.len() == 0 {
        Map::empty()
    } else {
        let cert = certs.last();
        with_subkeys(
            with_key(material_of(certs.drop_last()), cert, cert.primary),
            cert,
            cert.subkeys,
        )
    }
}

/// Whether the caller has a secret key for `key_id` that is held in the
/// given way.
pub open spec fn usable(material: Material, key_id: u64, encrypted: bool) -> bool {
    material.contains_key(key_id) && material[key_id].key.secret == Some(
        if encrypted {
            SecretKey::Encrypted
        } else {
            SecretKey::Unencrypted
        },
    )
}

/// The first record at or after `from` for which the caller has a key
/// held in the given way.
pub open spec fn next_match(material: Material, records: Seq<u64>, from: int, encrypted: bool) -> Option<int>
    decreases records.len() - from,
{
    if from < 0 || from >= records.len() {
        None
    } else if usable(material, records[from], encrypted) {
        Some(from)
    } else {
        next_match(material, records, from + 1, encrypted)
    }
}

/// The last pass: a message password, if a password opens the message.
pub open spec fn resolved_by_password(skesks: nat) -> (Pass, Outcome) {
    if skesks == 0 {
        (Pass::Passwords, Outcome::Exhausted)
    } else {
        (Pass::Passwords, Outcome::AskMessagePassword)
    }
}

/// The second pass and what follows it.
pub open spec fn resolved_by_encrypted(material: Material, from: int, records: Seq<u64>, skesks: nat) -> (
    Pass,
    Outcome,
) {
    match next_match(material, records, from, true) {
        Some(j) => (Pass::EncryptedKey((j + 1) as usize), Outcome::AskKeyPassword(j)),
        None => resolved_by_password(skesks),
    }
}

/// The pass that a resolution ends in, and where it ends, from the pass
/// it starts in.
pub open spec fn resolution(material: Material, pass: Pass, records: Seq<u64>, skesks: nat) -> (
    Pass,
    Outcome,
) {
    match pass {
        Pass::UnencryptedKey(i) => match next_match(material, records, i as int, false) {
            Some(j) => (Pass::UnencryptedKey((j + 1) as usize), Outcome::UseKey(j)),
            None => resolved_by_encrypted(material, 0, records, skesks),
        },
        Pass::EncryptedKey(i) => resolved_by_encrypted(material, i as int, records, skesks),
        Pass::Passwords => resolved_by_password(skesks),
    }
}

/// The match of a pass is a record for which the caller has a key of the
/// pass's kind, and no record between the start and it is one.
pub proof fn lemma_next_match_is_first(material: Material, records: Seq<u64>, from: int, encrypted: bool)
    requires
        0 <= from,
    ensures
        match next_match(material, records, from, encrypted) {
            Some(j) => {
                &&& from <= j < records.len()
                &&& usable(material, records[j], encrypted)
                &&& forall|i: int| from <= i < j ==> !usable(material, #[trigger] records[i], encrypted)
            },
            None => forall|i: int|
                from <= i < records.len() ==> !usable(material, #[trigger] records[i], encrypted),
        },
    decreases records.len() - from,
{
    if from < records.len() && !usable(material, records[from], encrypted) {
        lemma_next_match_is_first(material, records, from + 1, encrypted);
    }
}

/// Where the caller offers a key that needs no password for one of the
/// records, a resolution from the start uses such a key, the one for the
/// first such record, whatever password-protected keys match too: no
/// password is asked for.
pub proof fn lemma_unencrypted_key_wins(material: Material, records: Seq<u64>, skesks: nat, i: int)
    requires
        0 <= i < records.len(),
        usable(material, records[i], false),
    ensures
        resolution(material, Pass::UnencryptedKey(0), records, skesks).1 matches Outcome::UseKey(j)
            && 0 <= j <= i && usable(material, records[j], false),
{
    lemma_next_match_is_first(material, records, 0, false);
}

/// Whether the pass `later` is `earlier` or comes after it: a pass with a
/// later record, or a later pass.
pub open spec fn advanced(earlier: Pass, later: Pass) -> bool {
    match (earlier, later) {
        (Pass::UnencryptedKey(i), Pass::UnencryptedKey(j)) => i <= j,
        (Pass::UnencryptedKey(_), _) => true,
        (Pass::EncryptedKey(_), Pass::UnencryptedKey(_)) => false,
        (Pass::EncryptedKey(i), Pass::EncryptedKey(j)) => i <= j,
        (Pass::EncryptedKey(_), Pass::Passwords) => true,
        (Pass::Passwords, later) => later is Passwords,
    }
}

/// The passes are gone through in their order: a resolution never ends
/// in an earlier pass, or at an earlier record, than it started in, and a
/// resolution that names a record moves past it.
pub proof fn lemma_passes_advance(material: Material, pass: Pass, records: Seq<u64>, skesks: nat)
    requires
        records.len() <= usize::MAX,
    ensures
        advanced(pass, resolution(material, pass, records, skesks).0),
        resolution(material, pass, records, skesks).1 is UseKey || resolution(
            material,
            pass,
            records,
            skesks,
        ).1 is AskKeyPassword ==> resolution(material, pass, records, skesks).0 != pass,
{
    match pass {
        Pass::UnencryptedKey(i) => {
            lemma_next_match_is_first(material, records, i as int, false);
            lemma_next_match_is_first(material, records, 0, true);
        },
        Pass::EncryptedKey(i) => {
            lemma_next_match_is_first(material, records, i as int, true);
        },
        Pass::Passwords => {},
    }
}

/// Without a matching secret key and without a password record, nothing
/// opens the message.
pub proof fn lemma_no_key_is_exhausted(material: Material, records: Seq<u64>)
    requires
        forall|i: int| 0 <= i < records.len() ==> !material.contains_key(#[trigger] records[i]),
    ensures
        resolution(material, Pass::UnencryptedKey(0), records, 0).1 is Exhausted,
{
    lemma_next_match_is_first(material, records, 0, false);
    lemma_next_match_is_first(material, records, 0, true);
}

/// Appends the lowest `width` hexadecimal digits of `n` to `out`.
fn push_hex(out: &mut String, n: u64, width: u8)
    ensures
        final(out)@ == old(out)@ + hex_digits(n as nat, width as nat),
    decreases width,
{
    if width > 0 {
        push_hex(out, n / 16, width - 1);
        let value: u8 = (n % 16) as u8;
        let digit: char = if value < 10 {
            (48u8 + value) as char
        } else {
            (65u8 + (value - 10)) as char
        };
        out.push(digit);
        proof {
            assert(digit == hex_digit((n % 16) as nat));
            assert(old(out)@ + hex_digits((n / 16) as nat, (width - 1) as nat).push(digit) =~= (old(
                out,
            )@ + hex_digits((n / 16) as nat, (width - 1) as nat)).push(digit));
        }
    } else {
        proof {
            assert(old(out)@ + Seq::<char>::empty() =~= old(out)@);
        }
    }
}

/// The text that names the keys of a certificate in a prompt.
pub fn hint_for(cert: &Certificate) -> (hint: String)
    ensures
        hint@ == hint_of(cert@),
{
    let mut hint = String::new();
    if cert.userids.len() > 0 {
        hint.append(cert.userids[0].as_str());
        hint.append(" (");
        push_hex(&mut hint, cert.primary.key.key_id, 16);
        hint.append(")");
        proof {
            assert(cert@.userids[0] == cert.userids[0]@);
            assert(hint@ =~= hint_of(cert@));
        }
    } else {
        push_hex(&mut hint, cert.primary.key.key_id, 16);
        proof {
            assert(hint@ =~= hint_of(cert@));
        }
    }
    hint
}

/// Whether a signature allows encrypting to the key it binds.
pub fn allows_encryption(flags: &Option<KeyFlags>) -> (allowed: bool)
    ensures
        allowed == can_encrypt(*flags),
{
    match flags {
        Some(f) => f.encrypt_at_rest || f.encrypt_for_transport,
        None => false,
    }
}

/// The secret keys that the caller offers for one message, and how far
/// the resolution has come.
pub struct Helper {
    secret_keys: HashMap<u64, SecretEntry>,
    pass: Pass,
}

impl Helper {
    /// The secret keys, by key identifier.
    pub closed spec fn material(&self) -> Material {
        Map::new(|k: u64| self.secret_keys@.contains_key(k), |k: u64| self.secret_keys@[k]@)
    }

    /// The pass that the next resolution starts in.
    pub closed spec fn pass(&self) -> Pass {
        self.pass
    }

    /// Adds a key of `cert` to the material, if it can be encrypted to.
    fn offer(&mut self, cert: &Certificate, binding: KeyBinding, hint: &String)
        requires
            hint@ == hint_of(cert@),
        ensures
            final(self).material() == with_key(old(self).material(), cert@, binding),
            final(self).pass() == old(self).pass(),
    {
        if allows_encryption(&binding.flags) {
            let entry = SecretEntry {
                key: binding.key,
                identity: cert.fingerprint.clone(),
                hint: hint.clone(),
            };
            self.secret_keys.insert(binding.key.key_id, entry);
            proof {
                assert(self.material() =~= with_key(old(self).material(), cert@, binding));
            }
        }
    }

    /// Gathers the secret keys of the certificates that the caller offers.
    /// The resolution starts at the first pass.
    pub fn new(secrets: Vec<Certificate>) -> (helper: Helper)
        ensures
            helper.material() == material_of(crate::commands::decrypt::certificates(secrets@)),
            helper.pass() == Pass::UnencryptedKey(0),
    {
        let mut helper = Helper { secret_keys: HashMap::new(), pass: Pass::default() };
        let ghost certs = certificates(secrets@);
        proof {
            assert(helper.material() =~= Map::empty());
            assert(certs.take(0) =~= Seq::empty());
        }
        let mut i: usize = 0;
        while i < secrets.len()
            invariant
                i <= secrets.len(),
                certs == certificates(secrets@),
                helper.material() == material_of(certs.take(i as int)),
                helper.pass() == Pass::UnencryptedKey(0),
            decreases secrets.len() - i,
        {
            let cert = &secrets[i];
            let hint = hint_for(cert);
            proof {
                assert(certs.take(i + 1).drop_last() == certs.take(i as int));
                assert(certs.take(i + 1).last() == cert@);
                assert(cert@.subkeys.take(0) =~= Seq::empty());
            }
            helper.offer(cert, cert.primary, &hint);
            let mut j: usize = 0;
            while j < cert.subkeys.len()
                invariant
                    j <= cert.subkeys.len(),
                    hint@ == hint_of(cert@),
                    helper.pass() == Pass::UnencryptedKey(0),
                    helper.material() == with_subkeys(
                        with_key(material_of(certs.take(i as int)), cert@, cert@.primary),
                        cert@,
                        cert@.subkeys.take(j as int),
                    ),
                decreases cert.subkeys.len() - j,
            {
                proof {
                    assert(cert@.subkeys.take(j + 1).drop_last() == cert@.subkeys.take(j as int));
                    assert(cert@.subkeys.take(j + 1).last() == cert.subkeys[j as int]);
                }
                helper.offer(cert, cert.subkeys[j], &hint);
                j += 1;
            }
            proof {
                assert(cert@.subkeys.take(cert@.subkeys.len() as int) == cert@.subkeys);
            }
            i += 1;
        }
        proof {
            assert(certs.take(certs.len() as int) == certs);
        }
        helper
    }

    /// The first record at or after `from` for which the caller has a key
    /// held in the given way, with that key.
    fn scan(&self, pkesks: &[u64], from: usize, encrypted: bool) -> (found: Option<
        (usize, &SecretEntry),
    >)
        ensures
            match next_match(self.material(), pkesks@, from as int, encrypted) {
                Some(j) => found matches Some((at, entry)) && at == j && from <= j < pkesks@.len()
                    && self.material().contains_key(pkesks@[j]) && entry@
                    == self.material()[pkesks@[j]],
                None => found is None,
            },
    {
        let mut i: usize = from;
        if i > pkesks.len() {
            return None;
        }
        while i < pkesks.len()
            invariant
                from <= i <= pkesks.len(),
                next_match(self.material(), pkesks@, from as int, encrypted) == next_match(
                    self.material(),
                    pkesks@,
                    i as int,
                    encrypted,
                ),
            decreases pkesks.len() - i,
        {
            let wanted = if encrypted {
                SecretKey::Encrypted
            } else {
                SecretKey::Unencrypted
            };
            match self.secret_keys.get(&pkesks[i]) {
                Some(entry) => {
                    if entry.key.secret == Some(wanted) {
                        return Some((i, entry));
                    }
                },
                None => {},
            }
            i += 1;
        }
        None
    }

    /// Decides what the caller is to do next to open a message with the
    /// given recipient records, in their order, and `skesks` password
    /// records.
    ///
    /// The resolution goes on from where the last one ended: a second
    /// call tries what follows the key or the record that the first call
    /// named. Where nothing is left to try, the failure names the
    /// recipients of the message.
    pub fn get_secret(&mut self, pkesks: &[u64], skesks: usize) -> (res: Result<Step, CulperError>)
        ensures
            final(self).material() == old(self).material(),
            final(self).pass() == resolution(old(self).material(), old(self).pass(), pkesks@, skesks as nat).0,
            match resolution(old(self).material(), old(self).pass(), pkesks@, skesks as nat).1 {
                Outcome::UseKey(j) => {
                    &&& 0 <= j < pkesks@.len()
                    &&& old(self).material().contains_key(pkesks@[j])
                    &&& res matches Ok(Step::UseKey { record, key_id, identity })
                    &&& record == j
                    &&& key_id == pkesks@[j]
                    &&& identity@ == old(self).material()[key_id].identity
                },
                Outcome::AskKeyPassword(j) => {
                    &&& 0 <= j < pkesks@.len()
                    &&& old(self).material().contains_key(pkesks@[j])
                    &&& res matches Ok(Step::AskKeyPassword { record, key_id, identity, hint })
                    &&& record == j
                    &&& key_id == pkesks@[j]
                    &&& identity@ == old(self).material()[key_id].identity
                    &&& hint@ == old(self).material()[key_id].hint
                },
                Outcome::AskMessagePassword => res matches Ok(Step::AskMessagePassword),
                Outcome::Exhausted => res matches Err(CulperError::ResolutionExhausted(tried))
                    && tried@ == pkesks@,
            },
    {
        let count = pkesks.len();
        if let Pass::UnencryptedKey(i) = self.pass {
            match self.scan(pkesks, i, false) {
                Some((j, entry)) => {
                    assert(j < count);
                    let step = Step::UseKey {
                        record: j,
                        key_id: pkesks[j],
                        identity: entry.identity.clone(),
                    };
                    self.pass = Pass::UnencryptedKey(j + 1);
                    return Ok(step);
                },
                None => {
                    self.pass = Pass::EncryptedKey(0);
                },
            }
        }
        if let Pass::EncryptedKey(i) = self.pass {
            match self.scan(pkesks, i, true) {
                Some((j, entry)) => {
                    assert(j < count);
                    let step = Step::AskKeyPassword {
                        record: j,
                        key_id: pkesks[j],
                        identity: entry.identity.clone(),
                        hint: entry.hint.clone(),
                    };
                    self.pass = Pass::EncryptedKey(j + 1);
                    return Ok(step);
                },
                None => {
                    self.pass = Pass::Passwords;
                },
            }
        }
        if skesks == 0 {
            Err(CulperError::ResolutionExhausted(vstd::slice::slice_to_vec(pkesks)))
        } else {
            Ok(Step::AskMessagePassword)
        }
    }
}

/// The models of a sequence of certificates.
pub open spec fn certificates(certs: Seq<Certificate>) -> Seq<CertificateModel> {
    Seq::new(certs.len(), |i: int| certs[i]@)
}

/// What follows a prompt for a key's password: the key is used once the
/// password unlocked it, and the same key is asked for again while it did
/// not. Any other step stands as it is.
pub fn after_key_password(asked: Step, accepted: bool) -> (next: Step)
    ensures
        match asked {
            Step::AskKeyPassword { record, key_id, identity, hint } => if accepted {
                next matches Step::UseKey { record: r, key_id: k, identity: i } && r == record && k
                    == key_id && i@ == identity@
            } else {
                next == asked
            },
            _ => next == asked,
        },
{
    match asked {
        Step::AskKeyPassword { record, key_id, identity, hint } => {
            if accepted {
                Step::UseKey { record, key_id, identity }
            } else {
                Step::AskKeyPassword { record, key_id, identity, hint }
            }
        },
        other => other,
    }
}

/// What opens the session key of a message, once the resolution is done.
#[derive(Debug, Clone, PartialEq, Eq)]
pub enum Secret {
    /// The secret key for the record at `record`.
    Asymmetric { record: usize, key_id: u64, identity: String },
    /// The password of the message.
    Symmetric { password: String },
}

/// The key identifiers of the recipients of a message, in the order of
/// its records.
pub fn recipients_of(input: &Message) -> (ids: Vec<u64>)
    ensures
        ids@ == record_ids(input.pkesks@),
{
    let mut ids: Vec<u64> = Vec::new();
    let mut i: usize = 0;
    while i < input.pkesks.len()
        invariant
            i <= input.pkesks.len(),
            ids@ == record_ids(input.pkesks@).take(i as int),
        decreases input.pkesks.len() - i,
    {
        ids.push(input.pkesks[i].recipient);
        proof {
            assert(ids@ =~= record_ids(input.pkesks@).take(i + 1));
        }
        i += 1;
    }
    proof {
        assert(record_ids(input.pkesks@).take(input.pkesks@.len() as int) =~= record_ids(
            input.pkesks@,
        ));
    }
    ids
}

/// Decides what the caller is to do next to open `input`; see
/// [`Helper::get_secret`].
pub fn resolve(input: &Message, helper: &mut Helper) -> (res: Result<Step, CulperError>)
    ensures
        final(helper).material() == old(helper).material(),
        final(helper).pass() == resolution(
            old(helper).material(),
            old(helper).pass(),
            record_ids(input.pkesks@),
            input.skesks@.len(),
        ).0,
        match resolution(
            old(helper).material(),
            old(helper).pass(),
            record_ids(input.pkesks@),
            input.skesks@.len(),
        ).1 {
            Outcome::UseKey(j) => {
                &&& 0 <= j < input.pkesks@.len()
                &&& old(helper).material().contains_key(input.pkesks@[j].recipient)
                &&& res matches Ok(Step::UseKey { record, key_id, identity })
                &&& record == j
                &&& key_id == input.pkesks@[j].recipient
                &&& identity@ == old(helper).material()[key_id].identity
            },
            Outcome::AskKeyPassword(j) => {
                &&& 0 <= j < input.pkesks@.len()
                &&& old(helper).material().contains_key(input.pkesks@[j].recipient)
                &&& res matches Ok(Step::AskKeyPassword { record, key_id, identity, hint })
                &&& record == j
                &&& key_id == input.pkesks@[j].recipient
                &&& identity@ == old(helper).material()[key_id].identity
                &&& hint@ == old(helper).material()[key_id].hint
            },
            Outcome::AskMessagePassword => res matches Ok(Step::AskMessagePassword),
            Outcome::Exhausted => res matches Err(CulperError::ResolutionExhausted(tried))
                && tried@ == record_ids(input.pkesks@),
        },
{
    let ids = recipients_of(input);
    helper.get_secret(ids.as_slice(), input.skesks.len())
}

/// Whether `outcome` is what recovering the session key with `open` and
/// decrypting the body under it with `cipher` gave, or could have given.
pub open spec fn recovered<O, C>(
    open: O,
    cipher: C,
    input: Message,
    secret: Secret,
    outcome: Result<Vec<u8>, CulperError>,
) -> bool where
    O: Fn(&Message, &Secret) -> Result<Vec<u8>, CulperError>,
    C: Fn(&Vec<u8>, &Vec<u8>) -> Result<Vec<u8>, CulperError>,
 {
    exists|session: Vec<u8>|
        #[trigger] call_ensures(open, (&input, &secret), Ok::<Vec<u8>, CulperError>(session))
            && call_ensures(cipher, (&session, &input.body), outcome)
}

/// Whether `res` is what opening the message with the secret gave, or
/// could have given: the plaintext that `open` and `cipher` recovered,
/// with a signature that `verify` accepted where one is asked for; or
/// the failure of `open` or of `cipher`; or an integrity error for a
/// signature that `verify` refused.
pub open spec fn opened_with<O, C, V>(
    open: O,
    cipher: C,
    verify: V,
    input: Message,
    signatures: usize,
    secret: Secret,
    res: Result<Vec<u8>, CulperError>,
) -> bool where
    O: Fn(&Message, &Secret) -> Result<Vec<u8>, CulperError>,
    C: Fn(&Vec<u8>, &Vec<u8>) -> Result<Vec<u8>, CulperError>,
    V: Fn(&Vec<u8>, &Vec<u8>) -> bool,
 {
    match res {
        Ok(plain) => {
            &&& recovered(open, cipher, input, secret, Ok::<Vec<u8>, CulperError>(plain))
            &&& signatures > 0 ==> call_ensures(verify, (&plain, &input.signature), true)
        },
        Err(e) => {
            ||| call_ensures(open, (&input, &secret), Err::<Vec<u8>, CulperError>(e))
            ||| recovered(open, cipher, input, secret, Err::<Vec<u8>, CulperError>(e))
            ||| signatures > 0 && e is IntegrityError && e.words() == Some(
                "The signature does not verify."@,
            ) && exists|plain: Vec<u8>|
                #[trigger] recovered(open, cipher, input, secret, Ok::<Vec<u8>, CulperError>(plain))
                    && call_ensures(verify, (&plain, &input.signature), false)
        },
    }
}

/// Opens a message with the secret that the resolution gave.
///
/// There is one path and no second try: `open` recovers the session key,
/// `cipher` decrypts the body under it, and, where `signatures` asks for
/// any, `verify` checks the signature over the plaintext. What `open` or
/// `cipher` reports is handed on; a signature that does not verify is an
/// integrity error.
pub fn decrypt<O, C, V>(
    input: &Message,
    signatures: usize,
    secret: &Secret,
    open: &O,
    cipher: &C,
    verify: &V,
) -> (res: Result<Vec<u8>, CulperError>) where
    O: Fn(&Message, &Secret) -> Result<Vec<u8>, CulperError>,
    C: Fn(&Vec<u8>, &Vec<u8>) -> Result<Vec<u8>, CulperError>,
    V: Fn(&Vec<u8>, &Vec<u8>) -> bool,

    requires
        forall|m: Message, s: Secret| call_requires(*open, (&m, &s)),
        forall|k: Vec<u8>, b: Vec<u8>| call_requires(*cipher, (&k, &b)),
        forall|p: Vec<u8>, s: Vec<u8>| call_requires(*verify, (&p, &s)),
    ensures
        opened_with(*open, *cipher, *verify, *input, signatures, *secret, res),
{
    let session = match open(input, secret) {
        Ok(session) => session,
        Err(e) => {
            return Err(e);
        },
    };
    let outcome = cipher(&session, &input.body);
    proof {
        assert(recovered(*open, *cipher, *input, *secret, outcome));
    }
    let plain = match outcome {
        Ok(plain) => plain,
        Err(e) => {
            return Err(e);
        },
    };
    if signatures > 0 {
        if !verify(&plain, &input.signature) {
            return Err(
                CulperError::IntegrityError(String::from_str("The signature does not verify.")),
            );
        }
    }
    Ok(plain)
}

/// What opening a message came to without a word from the user.
#[derive(Debug, Clone, PartialEq, Eq)]
pub enum Opening {
    /// The plaintext.
    Opened(Vec<u8>),
    /// A password has to be asked for before anything can be opened.
    Ask(Step),
}

/// Resolves which secret opens the message and, where that is a key that
/// needs no password, opens the message with it.
///
/// Where the resolution asks for a password, the step is handed back for
/// the caller to ask and to go on from. Where no key matches and no
/// password opens the message, the resolution is exhausted: nothing is
/// opened, nobody is asked, and the failure names the recipients.
pub fn unseal<O, C, V>(
    input: &Message,
    signatures: usize,
    helper: &mut Helper,
    open: &O,
    cipher: &C,
    verify: &V,
) -> (res: Result<Opening, CulperError>) where
    O: Fn(&Message, &Secret) -> Result<Vec<u8>, CulperError>,
    C: Fn(&Vec<u8>, &Vec<u8>) -> Result<Vec<u8>, CulperError>,
    V: Fn(&Vec<u8>, &Vec<u8>) -> bool,

    requires
        forall|m: Message, s: Secret| call_requires(*open, (&m, &s)),
        forall|k: Vec<u8>, b: Vec<u8>| call_requires(*cipher, (&k, &b)),
        forall|p: Vec<u8>, s: Vec<u8>| call_requires(*verify, (&p, &s)),
    ensures
        final(helper).material() == old(helper).material(),
        final(helper).pass() == resolution(
            old(helper).material(),
            old(helper).pass(),
            record_ids(input.pkesks@),
            input.skesks@.len(),
        ).0,
        match resolution(
            old(helper).material(),
            old(helper).pass(),
            record_ids(input.pkesks@),
            input.skesks@.len(),
        ).1 {
            Outcome::UseKey(j) => match res {
                Ok(Opening::Opened(plain)) => opened_with_key(
                    *open,
                    *cipher,
                    *verify,
                    *input,
                    signatures,
                    j,
                    old(helper).material(),
                    Ok::<Vec<u8>, CulperError>(plain),
                ),
                Ok(Opening::Ask(_)) => false,
                Err(e) => opened_with_key(
                    *open,
                    *cipher,
                    *verify,
                    *input,
                    signatures,
                    j,
                    old(helper).material(),
                    Err::<Vec<u8>, CulperError>(e),
                ),
            },
            Outcome::AskKeyPassword(j) => {
                &&& 0 <= j < input.pkesks@.len()
                &&& old(helper).material().contains_key(input.pkesks@[j].recipient)
                &&& res matches Ok(Opening::Ask(Step::AskKeyPassword { record, key_id, identity, hint }))
                &&& record == j
                &&& key_id == input.pkesks@[j].recipient
                &&& identity@ == old(helper).material()[key_id].identity
                &&& hint@ == old(helper).material()[key_id].hint
            },
            Outcome::AskMessagePassword => res matches Ok(Opening::Ask(Step::AskMessagePassword)),
            Outcome::Exhausted => res matches Err(CulperError::ResolutionExhausted(tried))
                && tried@ == record_ids(input.pkesks@),
        },
{
    match resolve(input, helper) {
        Ok(Step::UseKey { record, key_id, identity }) => {
            let secret = Secret::Asymmetric { record, key_id, identity };
            let outcome = decrypt(input, signatures, &secret, open, cipher, verify);
            proof {
                assert(names_key(secret, *input, record as int, old(helper).material()));
                assert(opened_with_key(
                    *open,
                    *cipher,
                    *verify,
                    *input,
                    signatures,
                    record as int,
                    old(helper).material(),
                    outcome,
                ));
            }
            match outcome {
                Ok(plain) => Ok(Opening::Opened(plain)),
                Err(e) => Err(e),
            }
        },
        Ok(step) => Ok(Opening::Ask(step)),
        Err(e) => Err(e),
    }
}

/// Whether the secret is the caller's key for the record at `j`.
pub open spec fn names_key(secret: Secret, input: Message, j: int, material: Material) -> bool {
    secret matches Secret::Asymmetric { record, key_id, identity } && record == j && 0 <= j
        < input.pkesks@.len() && key_id == input.pkesks@[j].recipient && material.contains_key(
        key_id,
    ) && identity@ == material[key_id].identity
}

/// Whether `res` is what opening the message with the caller's key for
/// the record at `j` gave, or could have given.
pub open spec fn opened_with_key<O, C, V>(
    open: O,
    cipher: C,
    verify: V,
    input: Message,
    signatures: usize,
    j: int,
    material: Material,
    res: Result<Vec<u8>, CulperError>,
) -> bool where
    O: Fn(&Message, &Secret) -> Result<Vec<u8>, CulperError>,
    C: Fn(&Vec<u8>, &Vec<u8>) -> Result<Vec<u8>, CulperError>,
    V: Fn(&Vec<u8>, &Vec<u8>) -> bool,
 {
    exists|secret: Secret|
        #[trigger] names_key(secret, input, j, material) && opened_with(
            open,
            cipher,
            verify,
            input,
            signatures,
            secret,
            res,
        )
}

/// Whether `open` recovers from a record what `wrap` put into it: the
/// session key, for the secret key of the recipient that the record was
/// made for.
pub open spec fn unwraps<W, O>(wrap: W, open: O) -> bool where
    W: Fn(&Recipient, &Vec<u8>) -> Result<Vec<u8>, CulperError>,
    O: Fn(&Message, &Secret) -> Result<Vec<u8>, CulperError>,
 {
    forall|
        to: Recipient,
        key: Vec<u8>,
        esk: Vec<u8>,
        message: Message,
        secret: Secret,
        out: Result<Vec<u8>, CulperError>,
    |
        #![trigger
            call_ensures(wrap, (&to, &key), Ok::<Vec<u8>, CulperError>(esk)),
            call_ensures(open, (&message, &secret), out),
        ]
        call_ensures(wrap, (&to, &key), Ok::<Vec<u8>, CulperError>(esk)) && call_ensures(
            open,
            (&message, &secret),
            out,
        ) && names_record(secret, message, to.key_id, esk@) ==> (out matches Ok(found) && found@
            == key@)
}

/// Whether the secret is the key `key_id` for a record of the message
/// that was made for that key and holds `esk`.
pub open spec fn names_record(secret: Secret, message: Message, key_id: u64, esk: Seq<u8>) -> bool {
    secret matches Secret::Asymmetric { record, key_id: named, .. } && named == key_id && record
        < message.pkesks@.len() && message.pkesks@[record as int].recipient == key_id
        && message.pkesks@[record as int].esk@ == esk
}

/// Whether `decipher` gives back, under the same key, what `cipher` was
/// given.
pub open spec fn undoes<C, D>(cipher: C, decipher: D) -> bool where
    C: Fn(&Vec<u8>, &Vec<u8>) -> Result<Vec<u8>, CulperError>,
    D: Fn(&Vec<u8>, &Vec<u8>) -> Result<Vec<u8>, CulperError>,
 {
    forall|
        key: Vec<u8>,
        plain: Vec<u8>,
        body: Vec<u8>,
        same_key: Vec<u8>,
        same_body: Vec<u8>,
        out: Result<Vec<u8>, CulperError>,
    |
        #![trigger
            call_ensures(cipher, (&key, &plain), Ok::<Vec<u8>, CulperError>(body)),
            call_ensures(decipher, (&same_key, &same_body), out),
        ]
        call_ensures(cipher, (&key, &plain), Ok::<Vec<u8>, CulperError>(body)) && call_ensures(
            decipher,
            (&same_key, &same_body),
            out,
        ) && same_key@ == key@ && same_body@ == body@ ==> (out matches Ok(found) && found@
            == plain@)
}

/// Whether the secret is the key that a resolution from the start names
/// for the message, without asking for a password.
pub open spec fn chosen(secret: Secret, material: Material, message: Message) -> bool {
    secret matches Secret::Asymmetric { record, key_id, .. } && resolution(
        material,
        Pass::UnencryptedKey(0),
        record_ids(message.pkesks@),
        message.skesks@.len(),
    ).1 == Outcome::UseKey(record as int) && record < message.pkesks@.len() && key_id
        == message.pkesks@[record as int].recipient
}

/// A message that was sealed to recipients opens for each of them. It
/// holds one record for each recipient. Where the caller offers the
/// secret key of a recipient, and that key needs no password, the
/// resolution names a record without asking for anything; and opening the
/// message with the key it names gives the plaintext exactly, provided
/// that the functions that open fit those that sealed.
pub proof fn lemma_recipient_recovers_the_plaintext<W, C, O, D>(
    wrap: W,
    cipher: C,
    open: O,
    decipher: D,
    recipients: Seq<Recipient>,
    session_key: Vec<u8>,
    plaintext: Vec<u8>,
    message: Message,
    material: Material,
    i: int,
    secret: Secret,
    outcome: Result<Vec<u8>, CulperError>,
) where
    W: Fn(&Recipient, &Vec<u8>) -> Result<Vec<u8>, CulperError>,
    C: Fn(&Vec<u8>, &Vec<u8>) -> Result<Vec<u8>, CulperError>,
    O: Fn(&Message, &Secret) -> Result<Vec<u8>, CulperError>,
    D: Fn(&Vec<u8>, &Vec<u8>) -> Result<Vec<u8>, CulperError>,

    requires
        wrapped_for(wrap, session_key, recipients, message.pkesks@),
        call_ensures(cipher, (&session_key, &plaintext), Ok::<Vec<u8>, CulperError>(message.body)),
        0 <= i < recipients.len(),
        usable(material, recipients[i].key_id, false),
        unwraps(wrap, open),
        undoes(cipher, decipher),
    ensures
        message.pkesks@.len() == recipients.len(),
        resolution(
            material,
            Pass::UnencryptedKey(0),
            record_ids(message.pkesks@),
            message.skesks@.len(),
        ).1 is UseKey,
        chosen(secret, material, message) && recovered(open, decipher, message, secret, outcome)
            ==> (outcome matches Ok(found) && found@ == plaintext@),
{
    assert(record_ids(message.pkesks@)[i] == recipients[i].key_id);
    lemma_unencrypted_key_wins(
        material,
        record_ids(message.pkesks@),
        message.skesks@.len(),
        i,
    );
    if chosen(secret, material, message) && recovered(open, decipher, message, secret, outcome) {
        let j = secret->Asymmetric_record as int;
        let session = choose|session: Vec<u8>|
            #[trigger] call_ensures(open, (&message, &secret), Ok::<Vec<u8>, CulperError>(session))
                && call_ensures(decipher, (&session, &message.body), outcome);
        let record = message.pkesks@[j];
        assert(call_ensures(
            wrap,
            (&recipients[j], &session_key),
            Ok::<Vec<u8>, CulperError>(record.esk),
        ));
        assert(names_record(secret, message, recipients[j].key_id, record.esk@));
        assert(session@ == session_key@);
    }
}

/// What [`unseal`] opens for a recipient is the plaintext: where the
/// caller offers the secret key of a recipient, and that key needs no
/// password, a plaintext that comes back from a resolution from the start
/// is the one that was sealed, nothing added and nothing cut, provided
/// that the functions that open fit those that sealed.
pub proof fn lemma_unsealed_is_the_plaintext<W, C, O, D, V>(
    wrap: W,
    cipher: C,
    open: O,
    decipher: D,
    verify: V,
    recipients: Seq<Recipient>,
    session_key: Vec<u8>,
    plaintext: Vec<u8>,
    message: Message,
    signatures: usize,
    material: Material,
    i: int,
    found: Vec<u8>,
) where
    W: Fn(&Recipient, &Vec<u8>) -> Result<Vec<u8>, CulperError>,
    C: Fn(&Vec<u8>, &Vec<u8>) -> Result<Vec<u8>, CulperError>,
    O: Fn(&Message, &Secret) -> Result<Vec<u8>, CulperError>,
    D: Fn(&Vec<u8>, &Vec<u8>) -> Result<Vec<u8>, CulperError>,
    V: Fn(&Vec<u8>, &Vec<u8>) -> bool,

    requires
        wrapped_for(wrap, session_key, recipients, message.pkesks@),
        call_ensures(cipher, (&session_key, &plaintext), Ok::<Vec<u8>, CulperError>(message.body)),
        0 <= i < recipients.len(),
        usable(material, recipients[i].key_id, false),
        unwraps(wrap, open),
        undoes(cipher, decipher),
    ensures
        resolution(
            material,
            Pass::UnencryptedKey(0),
            record_ids(message.pkesks@),
            message.skesks@.len(),
        ).1 matches Outcome::UseKey(j) && (opened_with_key(
            open,
            decipher,
            verify,
            message,
            signatures,
            j,
            material,
            Ok::<Vec<u8>, CulperError>(found),
        ) ==> found@ == plaintext@),
{
    assert(record_ids(message.pkesks@)[i] == recipients[i].key_id);
    lemma_unencrypted_key_wins(
        material,
        record_ids(message.pkesks@),
        message.skesks@.len(),
        i,
    );
    let j = resolution(
        material,
        Pass::UnencryptedKey(0),
        record_ids(message.pkesks@),
        message.skesks@.len(),
    ).1->UseKey_0;
    let outcome = Ok::<Vec<u8>, CulperError>(found);
    if opened_with_key(open, decipher, verify, message, signatures, j, material, outcome) {
        let secret = choose|secret: Secret|
            #[trigger] names_key(secret, message, j, material) && opened_with(
                open,
                decipher,
                verify,
                message,
                signatures,
                secret,
                outcome,
            );
        assert(chosen(secret, material, message));
        lemma_recipient_recovers_the_plaintext(
            wrap,
            cipher,
            open,
            decipher,
            recipients,
            session_key,
            plaintext,
            message,
            material,
            i,
            secret,
            outcome,
        );
    }
}

} // verus!
