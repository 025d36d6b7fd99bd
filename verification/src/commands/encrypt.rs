//! Sealing a secret to recipients: who they are, and the message that is
//! made for them.
//!
//! The cryptography itself is done by functions that the caller hands in.
//! What is decided here is which keys a message is encrypted to, that it
//! holds one record for each of them, and that nothing is put out when a
//! step fails.

use vstd::prelude::*;
use crate::commands::decrypt::SecretKey;
use crate::errors::CulperError;
use crate::store::{in_domain, models, Binding, BindingModel, KeyStore, StoreModel};
use crate::text::texts;

verus! {

/// A public key that a message can be encrypted to.
#[derive(Debug, Clone, PartialEq, Eq)]
pub struct Recipient {
    pub key_id: u64,
    pub fingerprint: String,
    pub material: Vec<u8>,
}

/// A recipient as plain mathematical values.
pub struct RecipientModel {
    pub key_id: u64,
    pub fingerprint: Seq<char>,
    pub material: Seq<u8>,
}

impl View for Recipient {
    type V = RecipientModel;

    open spec fn view(&self) -> RecipientModel {
        RecipientModel {
            key_id: self.key_id,
            fingerprint: self.fingerprint@,
            material: self.material@,
        }
    }
}

impl Recipient {
    /// A copy of the recipient.
    pub fn duplicate(&self) -> (copy: Recipient)
        ensures
            copy@ == self@,
    {
        Recipient {
            key_id: self.key_id,
            fingerprint: self.fingerprint.clone(),
            material: vstd::slice::slice_to_vec(self.material.as_slice()),
        }
    }
}

/// The record of a message for one recipient: the session key, encrypted
/// to the key with the identifier `recipient`.
#[derive(Debug, Clone, PartialEq, Eq)]
pub struct Pkesk {
    pub recipient: u64,
    pub esk: Vec<u8>,
}

/// A record of a message that a password opens.
#[derive(Debug, Clone, PartialEq, Eq)]
pub struct Skesk {
    pub esk: Vec<u8>,
}

/// A sealed message: the records that lead to its session key, the
/// encrypted body, and the signature over the plaintext.
#[derive(Debug, Clone, PartialEq, Eq)]
pub struct Message {
    pub pkesks: Vec<Pkesk>,
    pub skesks: Vec<Skesk>,
    pub body: Vec<u8>,
    pub signature: Vec<u8>,
}

/// The bindings of the given domains: domain by domain in the order
/// given, and inside a domain in the order of import.
pub open spec fn bindings_of(store: StoreModel, domains: Seq<Seq<char>>) -> Seq<BindingModel>
    decreases domains.len(),
{
    if domains.len() == 0 {
        Seq::empty()
    } else {
        bindings_of(store, domains.drop_last()) + in_domain(store.bindings, domains.last())
    }
}

/// The models of a sequence of recipients.
pub open spec fn recipients_of(found: Seq<Recipient>) -> Seq<RecipientModel> {
    Seq::new(found.len(), |i: int| found[i]@)
}

/// The key identifiers that the records of a message are tagged with.
pub open spec fn record_ids(pkesks: Seq<Pkesk>) -> Seq<u64> {
    Seq::new(pkesks.len(), |i: int| pkesks[i].recipient)
}

/// The bindings that a message for `domains` is encrypted to.
pub fn recipient_bindings(store: &KeyStore, domains: &Vec<String>) -> (found: Vec<Binding>)
    ensures
        models(found@) == bindings_of(store@, texts(domains@)),
{
    let mut found: Vec<Binding> = Vec::new();
    let ghost names = texts(domains@);
    let mut d: usize = 0;
    proof {
        assert(names.take(0) =~= Seq::empty());
        assert(models(found@) =~= Seq::empty());
    }
    while d < domains.len()
        invariant
            d <= domains.len(),
            names == texts(domains@),
            models(found@) == bindings_of(store@, names.take(d as int)),
        decreases domains.len() - d,
    {
        let mut listed = store.list(domains[d].as_str());
        proof {
            assert(names.take(d + 1).drop_last() == names.take(d as int));
            assert(names.take(d + 1).last() == domains[d as int]@);
        }
        let ghost before = models(found@);
        let ghost more = models(listed@);
        found.append(&mut listed);
        proof {
            assert(models(found@) =~= before + more);
        }
        d += 1;
    }
    proof {
        assert(names.take(names.len() as int) == names);
    }
    found
}

/// Whether `found` are the keys that `parse` read, or could have read,
/// from `bindings`, one for one.
pub open spec fn parsed_from<P: Fn(&Binding) -> Option<Recipient>>(
    parse: P,
    bindings: Seq<Binding>,
    found: Seq<Recipient>,
) -> bool {
    &&& bindings.len() == found.len()
    &&& forall|i: int|
        0 <= i < bindings.len() ==> call_ensures(parse, (&#[trigger] bindings[i],), Some(found[i]))
}

/// Gathers the keys that a message for `domains` is encrypted to: the key
/// of every binding of the domains, and last the caller's own key where
/// `include_self` is set.
///
/// A binding whose stored material `parse` cannot read fails the whole
/// call: the store is damaged, and no partial set is handed out.
pub fn build_recipients<P>(
    store: &KeyStore,
    domains: &Vec<String>,
    include_self: bool,
    own: &Recipient,
    parse: &P,
) -> (res: Result<Vec<Recipient>, CulperError>) where P: Fn(&Binding) -> Option<Recipient>
    requires
        forall|b: Binding| call_requires(*parse, (&b,)),
    ensures
        match res {
            Ok(found) => {
                let stored = bindings_of(store@, texts(domains@));
                &&& found@.len() == stored.len() + if include_self {
                    1int
                } else {
                    0int
                }
                &&& include_self ==> found@.last()@ == own@
                &&& exists|bindings: Seq<Binding>|
                    models(bindings) == stored && #[trigger] parsed_from(
                        *parse,
                        bindings,
                        found@.take(stored.len() as int),
                    )
            },
            Err(e) => e is IntegrityError && e.words() == Some("A stored key cannot be read."@)
                && exists|b: Binding|
                bindings_of(store@, texts(domains@)).contains(b@) && call_ensures(
                    *parse,
                    (&b,),
                    None::<Recipient>,
                ),
        },
{
    let bindings = recipient_bindings(store, domains);
    let mut found: Vec<Recipient> = Vec::new();
    let mut i: usize = 0;
    while i < bindings.len()
        invariant
            i <= bindings.len(),
            models(bindings@) == bindings_of(store@, texts(domains@)),
            forall|b: Binding| call_requires(*parse, (&b,)),
            parsed_from(*parse, bindings@.take(i as int), found@),
        decreases bindings.len() - i,
    {
        match parse(&bindings[i]) {
            Some(key) => {
                found.push(key);
            },
            None => {
                proof {
                    assert(models(bindings@)[i as int] == bindings[i as int]@);
                    assert(bindings_of(store@, texts(domains@)).contains(bindings[i as int]@));
                }
                return Err(
                    CulperError::IntegrityError(
                        String::from_str("A stored key cannot be read."),
                    ),
                );
            },
        }
        i += 1;
    }
    proof {
        assert(bindings@.take(bindings.len() as int) == bindings@);
    }
    let ghost parsed = found@;
    proof {
        assert(parsed_from(*parse, bindings@, parsed));
    }
    if include_self {
        found.push(own.duplicate());
    }
    proof {
        assert(parsed.len() == bindings@.len());
        assert(found@.take(bindings@.len() as int) =~= parsed);
        assert(models(bindings@).len() == bindings@.len());
        assert(parsed_from(
            *parse,
            bindings@,
            found@.take(bindings_of(store@, texts(domains@)).len() as int),
        ));
    }
    Ok(found)
}

/// Whether the signer's key can sign as it is. A key that is encrypted at
/// rest has to be unlocked first; without the secret part there is
/// nothing to sign with.
pub fn signer_ready(secret: Option<SecretKey>) -> (res: Result<bool, CulperError>)
    ensures
        match secret {
            Some(SecretKey::Unencrypted) => res == Ok::<bool, CulperError>(true),
            Some(SecretKey::Encrypted) => res == Ok::<bool, CulperError>(false),
            None => res matches Err(CulperError::UserError(m)) && m@
                == "Could not access secret key"@,
        },
{
    match secret {
        Some(SecretKey::Unencrypted) => Ok(true),
        Some(SecretKey::Encrypted) => Ok(false),
        None => Err(CulperError::UserError(String::from_str("Could not access secret key"))),
    }
}

/// Whether `pkesks` are the records that `wrap` made, or could have made,
/// of the session key for `recipients`, one for one.
pub open spec fn wrapped_for<W: Fn(&Recipient, &Vec<u8>) -> Result<Vec<u8>, CulperError>>(
    wrap: W,
    session_key: Vec<u8>,
    recipients: Seq<Recipient>,
    pkesks: Seq<Pkesk>,
) -> bool {
    &&& pkesks.len() == recipients.len()
    &&& forall|i: int|
        0 <= i < recipients.len() ==> (#[trigger] pkesks[i]).recipient == recipients[i].key_id
            && call_ensures(
            wrap,
            (&recipients[i], &session_key),
            Ok::<Vec<u8>, CulperError>(pkesks[i].esk),
        )
}

/// Seals `plaintext` to `recipients` and signs it.
///
/// The message holds one record for each recipient, in their order, each
/// made by `wrap` from the session key; no record for a password; the
/// body that `cipher` made of the plaintext under the session key; and
/// the signature that `sign` made over the plaintext. The signer's key
/// must be unlocked. Where a step fails the call fails as a whole.
pub fn encrypt<W, C, S>(
    plaintext: &Vec<u8>,
    recipients: &Vec<Recipient>,
    signer: Option<SecretKey>,
    session_key: &Vec<u8>,
    wrap: &W,
    cipher: &C,
    sign: &S,
) -> (res: Result<Message, CulperError>) where
    W: Fn(&Recipient, &Vec<u8>) -> Result<Vec<u8>, CulperError>,
    C: Fn(&Vec<u8>, &Vec<u8>) -> Result<Vec<u8>, CulperError>,
    S: Fn(&Vec<u8>) -> Result<Vec<u8>, CulperError>,

    requires
        forall|r: Recipient, k: Vec<u8>| call_requires(*wrap, (&r, &k)),
        forall|k: Vec<u8>, p: Vec<u8>| call_requires(*cipher, (&k, &p)),
        forall|p: Vec<u8>| call_requires(*sign, (&p,)),
    ensures
        signer == Some(SecretKey::Encrypted) ==> (res matches Err(CulperError::UserError(m)) && m@
            == "The private key is locked."@),
        signer is None ==> (res matches Err(CulperError::UserError(m)) && m@
            == "Could not access secret key"@),
        res matches Ok(message) ==> {
            &&& signer == Some(SecretKey::Unencrypted)
            &&& wrapped_for(*wrap, *session_key, recipients@, message.pkesks@)
            &&& record_ids(message.pkesks@) == Seq::new(
                recipients@.len(),
                |i: int| recipients@[i].key_id,
            )
            &&& message.skesks@.len() == 0
            &&& call_ensures(*cipher, (session_key, plaintext), Ok::<Vec<u8>, CulperError>(message.body))
            &&& call_ensures(*sign, (plaintext,), Ok::<Vec<u8>, CulperError>(message.signature))
        },
        res matches Err(e) ==> {
            ||| signer != Some(SecretKey::Unencrypted) && e is UserError
            ||| exists|i: int|
                0 <= i < recipients@.len() && call_ensures(
                    *wrap,
                    (&#[trigger] recipients@[i], session_key),
                    Err::<Vec<u8>, CulperError>(e),
                )
            ||| call_ensures(*cipher, (session_key, plaintext), Err::<Vec<u8>, CulperError>(e))
            ||| call_ensures(*sign, (plaintext,), Err::<Vec<u8>, CulperError>(e))
        },
{
    match signer_ready(signer) {
        Ok(true) => {},
        Ok(false) => {
            return Err(
                CulperError::UserError(String::from_str("The private key is locked.")),
            );
        },
        Err(e) => {
            return Err(e);
        },
    }
    let mut pkesks: Vec<Pkesk> = Vec::new();
    let mut i: usize = 0;
    while i < recipients.len()
        invariant
            i <= recipients.len(),
            signer == Some(SecretKey::Unencrypted),
            forall|r: Recipient, k: Vec<u8>| call_requires(*wrap, (&r, &k)),
            wrapped_for(*wrap, *session_key, recipients@.take(i as int), pkesks@),
        decreases recipients.len() - i,
    {
        match wrap(&recipients[i], session_key) {
            Ok(esk) => {
                pkesks.push(Pkesk { recipient: recipients[i].key_id, esk });
            },
            Err(e) => {
                return Err(e);
            },
        }
        i += 1;
    }
    proof {
        assert(recipients@.take(recipients@.len() as int) == recipients@);
        assert(record_ids(pkesks@) =~= Seq::new(recipients@.len(), |i: int| recipients@[i].key_id));
    }
    let body = match cipher(session_key, plaintext) {
        Ok(body) => body,
        Err(e) => {
            return Err(e);
        },
    };
    let signature = match sign(plaintext) {
        Ok(signature) => signature,
        Err(e) => {
            return Err(e);
        },
    };
    Ok(Message { pkesks, skesks: Vec::new(), body, signature })
}

} // verus!
