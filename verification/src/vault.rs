//! The vault envelope: a sealed secret and the text it is embedded as.
//!
//! An envelope is written as fields joined by dots. It opens with the
//! literal tag `CULPER`, followed by the tag of its format. A salted format
//! then holds the salt, as base64 or as the sentinel `<NONE>`, and the
//! payload as base64; an unsalted format holds the payload alone.

use vstd::prelude::*;
use crate::culper_drop::CulperDrop;
use crate::encoding::{base64_bytes, base64_decode, base64_encode, base64_text, is_base64_text};
use crate::errors::{CulperError, ParseFailure, ParseFault};
use crate::text::{
    lemma_split_append, lemma_split_first, lemma_split_plain, same_text,
    split, split_fields, texts,
};

verus! {

/// The scheme that produced the payload of an envelope.
#[allow(non_camel_case_types)]
#[derive(Debug, Clone, Copy, PartialEq, Eq, Structural)]
pub enum EncryptionFormat {
    /// AES in CBC mode with padding, under a key derived from a password.
    CKM_AES_CBC_PAD,
    /// Public-key encryption to a set of recipients.
    GPG_PUB_KEY,
}

impl EncryptionFormat {
    /// The tag that names the format inside an envelope.
    pub open spec fn tag(self) -> Seq<char> {
        match self {
            EncryptionFormat::CKM_AES_CBC_PAD => "AES_CBC_PAD"@,
            EncryptionFormat::GPG_PUB_KEY => "GPG_PUB_KEY"@,
        }
    }

    /// Whether envelopes of the format carry a salt field.
    pub open spec fn salted(self) -> bool {
        self is CKM_AES_CBC_PAD
    }

    /// The format that a tag names, if any.
    pub open spec fn of_tag(tag: Seq<char>) -> Option<EncryptionFormat> {
        if tag == "AES_CBC_PAD"@ {
            Some(EncryptionFormat::CKM_AES_CBC_PAD)
        } else if tag == "GPG_PUB_KEY"@ {
            Some(EncryptionFormat::GPG_PUB_KEY)
        } else {
            None
        }
    }

    /// Every format is named by its own tag, and by no other.
    pub proof fn lemma_tag_names_format(self)
        ensures
            EncryptionFormat::of_tag(self.tag()) == Some(self),
            !self.tag().contains('.'),
    {
        reveal_strlit("AES_CBC_PAD");
        reveal_strlit("GPG_PUB_KEY");
        assert("AES_CBC_PAD"@[0] != "GPG_PUB_KEY"@[0]);
    }

    pub fn as_str(&self) -> (tag: String)
        ensures
            tag@ == self.tag(),
    {
        match self {
            EncryptionFormat::CKM_AES_CBC_PAD => String::from_str("AES_CBC_PAD"),
            EncryptionFormat::GPG_PUB_KEY => String::from_str("GPG_PUB_KEY"),
        }
    }

    /// The format that a tag names. The tags are taken as they are
    /// written: no other case, nothing before or behind. Any other text is
    /// refused as an unknown format, and the failure holds that text and
    /// names it in its description.
    pub fn from_str(value: &String) -> (res: Result<EncryptionFormat, CulperError>)
        ensures
            match EncryptionFormat::of_tag(value@) {
                Some(format) => res == Ok::<EncryptionFormat, CulperError>(format),
                None => res matches Err(e) && e.parse_fault() == Some(
                    ParseFault::UnknownFormat(value@),
                ) && e.described() == "Unknown encryption format given: "@ + value@,
            },
    {
        if same_text(value.as_str(), "AES_CBC_PAD") {
            Ok(EncryptionFormat::CKM_AES_CBC_PAD)
        } else if same_text(value.as_str(), "GPG_PUB_KEY") {
            Ok(EncryptionFormat::GPG_PUB_KEY)
        } else {
            Err(CulperError::ParseError(ParseFailure::UnknownFormat(value.clone())))
        }
    }

    /// Whether envelopes of the format carry a salt field.
    pub fn is_salted(&self) -> (salted: bool)
        ensures
            salted == self.salted(),
    {
        match self {
            EncryptionFormat::CKM_AES_CBC_PAD => true,
            EncryptionFormat::GPG_PUB_KEY => false,
        }
    }
}

/// What a sealed vault holds, as plain mathematical values.
pub struct Envelope {
    pub format: EncryptionFormat,
    pub salt: Option<Seq<u8>>,
    pub payload: Seq<u8>,
}

impl Envelope {
    /// Only a salted format may carry a salt.
    pub open spec fn wf(self) -> bool {
        self.salt is Some ==> self.format.salted()
    }
}

/// The text of a salt field.
pub open spec fn salt_text(salt: Option<Seq<u8>>) -> Seq<char> {
    match salt {
        Some(bytes) => base64_text(bytes),
        None => "<NONE>"@,
    }
}

/// The salt that a salt field stands for; `None` where the field is
/// neither the sentinel nor base64.
pub open spec fn salt_of_text(text: Seq<char>) -> Option<Option<Seq<u8>>> {
    if text == "<NONE>"@ {
        Some(None)
    } else {
        match base64_bytes(text) {
            Some(bytes) => Some(Some(bytes)),
            None => None,
        }
    }
}

/// The one text of an envelope.
pub open spec fn rendered(e: Envelope) -> Seq<char> {
    if e.format.salted() {
        "CULPER"@ + seq!['.'] + e.format.tag() + seq!['.'] + salt_text(e.salt) + seq!['.']
            + base64_text(e.payload)
    } else {
        "CULPER"@ + seq!['.'] + e.format.tag() + seq!['.'] + base64_text(e.payload)
    }
}

/// The envelope that a text stands for, or the reason why it is none.
pub open spec fn parsed(text: Seq<char>) -> Result<Envelope, ParseFault> {
    let fields = split(text, '.');
    if fields[0] != "CULPER"@ {
        Err(ParseFault::MissingTag)
    } else if fields.len() < 2 {
        Err(ParseFault::FieldCount)
    } else {
        match EncryptionFormat::of_tag(fields[1]) {
            None => Err(ParseFault::UnknownFormat(fields[1])),
            Some(format) => if format.salted() {
                if fields.len() != 4 {
                    Err(ParseFault::FieldCount)
                } else {
                    match salt_of_text(fields[2]) {
                        None => Err(ParseFault::InvalidSalt),
                        Some(salt) => match base64_bytes(fields[3]) {
                            None => Err(ParseFault::InvalidPayload),
                            Some(payload) => Ok(Envelope { format, salt, payload }),
                        },
                    }
                }
            } else {
                if fields.len() != 3 {
                    Err(ParseFault::FieldCount)
                } else {
                    match base64_bytes(fields[2]) {
                        None => Err(ParseFault::InvalidPayload),
                        Some(payload) => Ok(Envelope { format, salt: None, payload }),
                    }
                }
            },
        }
    }
}

/// Whether the base64 fields of a text, as the format of its tag places
/// them, hold characters of the base64 alphabet only. The sentinel may
/// stand for the salt.
pub open spec fn fields_in_alphabet(text: Seq<char>) -> bool {
    let fields = split(text, '.');
    match EncryptionFormat::of_tag(fields[1]) {
        Some(format) => if format.salted() {
            (fields[2] == "<NONE>"@ || is_base64_text(fields[2])) && is_base64_text(fields[3])
        } else {
            is_base64_text(fields[2])
        },
        None => true,
    }
}

/// Every envelope opens with the literal tag and a dot. A text that does
/// not, the empty text among them, is no envelope.
pub proof fn lemma_envelope_opens_with_tag(text: Seq<char>)
    requires
        parsed(text) is Ok,
    ensures
        ("CULPER"@ + seq!['.']).is_prefix_of(text),
{
    reveal_strlit("CULPER");
    lemma_split_first(text, '.');
    let head = "CULPER"@;
    assert(split(text, '.')[0] == head);
    assert(text.subrange(0, 7) =~= head + seq!['.']) by {
        assert(text.subrange(0, 6) == head);
        assert(text[6] == '.');
        assert forall|i: int| 0 <= i < 6 implies text[i] == head[i] by {
            assert(text.subrange(0, 6)[i] == text[i]);
        }
    }
}

/// A text in the base64 alphabet holds no dot and is not the sentinel.
proof fn lemma_base64_text_is_field(text: Seq<char>)
    requires
        is_base64_text(text),
    ensures
        !text.contains('.'),
        text != "<NONE>"@,
{
    reveal_strlit("<NONE>");
    if text.contains('.') {
        let i = choose|i: int| 0 <= i < text.len() && text[i] == '.';
        assert(is_base64_char_at(text, i));
    }
    if text == "<NONE>"@ {
        assert(is_base64_char_at(text, 0));
    }
}

spec fn is_base64_char_at(text: Seq<char>, i: int) -> bool {
    crate::encoding::is_base64_char(text[i])
}

/// The fields of a rendered envelope are the parts it was rendered from.
proof fn lemma_rendered_fields(e: Envelope)
    requires
        is_base64_text(base64_text(e.payload)),
        e.salt matches Some(bytes) ==> is_base64_text(base64_text(bytes)),
    ensures
        e.format.salted() ==> split(rendered(e), '.') == seq![
            "CULPER"@,
            e.format.tag(),
            salt_text(e.salt),
            base64_text(e.payload),
        ],
        !e.format.salted() ==> split(rendered(e), '.') == seq![
            "CULPER"@,
            e.format.tag(),
            base64_text(e.payload),
        ],
{
    reveal_strlit("CULPER");
    reveal_strlit("<NONE>");
    let head = "CULPER"@;
    let tag = e.format.tag();
    let payload = base64_text(e.payload);
    e.format.lemma_tag_names_format();
    lemma_base64_text_is_field(payload);
    assert(!head.contains('.')) by {
        if head.contains('.') {
            let i = choose|i: int| 0 <= i < head.len() && head[i] == '.';
        }
    }
    lemma_split_plain(head, '.');
    lemma_split_append(head, tag, '.');
    if e.format.salted() {
        let salt = salt_text(e.salt);
        assert(!salt.contains('.')) by {
            match e.salt {
                Some(bytes) => {
                    lemma_base64_text_is_field(base64_text(bytes));
                },
                None => {
                    if salt.contains('.') {
                        let i = choose|i: int| 0 <= i < salt.len() && salt[i] == '.';
                    }
                },
            }
        }
        lemma_split_append(head + seq!['.'] + tag, salt, '.');
        lemma_split_append(head + seq!['.'] + tag + seq!['.'] + salt, payload, '.');
        assert(seq![head].push(tag).push(salt).push(payload) == seq![head, tag, salt, payload]);
    } else {
        lemma_split_append(head + seq!['.'] + tag, payload, '.');
        assert(seq![head].push(tag).push(payload) == seq![head, tag, payload]);
    }
}

/// Parsing the text of a well-formed envelope gives the envelope back,
/// provided base64 decoding undoes base64 encoding on its fields.
proof fn lemma_rendered_parses(e: Envelope)
    requires
        e.wf(),
        is_base64_text(base64_text(e.payload)),
        base64_bytes(base64_text(e.payload)) == Some(e.payload),
        e.salt matches Some(bytes) ==> is_base64_text(base64_text(bytes)) && base64_bytes(
            base64_text(bytes),
        ) == Some(bytes),
    ensures
        parsed(rendered(e)) == Ok::<Envelope, ParseFault>(e),
{
    lemma_rendered_fields(e);
    e.format.lemma_tag_names_format();
    if e.format.salted() {
        match e.salt {
            Some(bytes) => {
                lemma_base64_text_is_field(base64_text(bytes));
            },
            None => {},
        }
    }
}

/// A secret in the clear, and the format it is to be sealed in.
pub struct UnsealedVault {
    pub plain_secret: String,
    pub format: EncryptionFormat,
}

/// What an unsealed vault holds.
pub struct Plain {
    pub secret: Seq<char>,
    pub format: EncryptionFormat,
}

impl View for UnsealedVault {
    type V = Plain;

    open spec fn view(&self) -> Plain {
        Plain { secret: self.plain_secret@, format: self.format }
    }
}

impl UnsealedVault {
    pub fn new(plain_secret: String, format: EncryptionFormat) -> (vault: UnsealedVault)
        ensures
            vault@ == (Plain { secret: plain_secret@, format }),
            vault.plain_secret == plain_secret,
    {
        UnsealedVault { plain_secret, format }
    }
}

/// A sealed secret: the payload, the salt it was sealed with where the
/// format has one, and the format.
pub struct SealedVault {
    pub secret: Vec<u8>,
    pub salt: Option<Vec<u8>>,
    pub format: EncryptionFormat,
}

impl View for SealedVault {
    type V = Envelope;

    open spec fn view(&self) -> Envelope {
        Envelope {
            format: self.format,
            salt: match self.salt {
                Some(bytes) => Some(bytes@),
                None => None,
            },
            payload: self.secret@,
        }
    }
}

impl SealedVault {
    /// An envelope without salt.
    pub fn new(secret: Vec<u8>, format: EncryptionFormat) -> (vault: SealedVault)
        ensures
            vault@ == (Envelope { format, salt: None, payload: secret@ }),
            vault.secret == secret,
            vault@.wf(),
    {
        SealedVault { secret, salt: None, format }
    }

    /// An envelope of a salted format, with its salt.
    pub fn with_salt(secret: Vec<u8>, salt: Vec<u8>, format: EncryptionFormat) -> (res: Option<
        SealedVault,
    >)
        ensures
            match res {
                Some(vault) => format.salted() && vault@ == (Envelope {
                    format,
                    salt: Some(salt@),
                    payload: secret@,
                }) && vault@.wf(),
                None => !format.salted(),
            },
    {
        if format.is_salted() {
            Some(SealedVault { secret, salt: Some(salt), format })
        } else {
            None
        }
    }
}

/// A vault that a sealing function can close.
pub trait SealableVault: Sized {
    /// The vault as the sealing function receives it.
    spec fn unsealed(self) -> UnsealedVault;

    /// Hands the vault to `f` and returns what `f` made of it.
    fn seal<F>(self, f: &F) -> (res: Result<SealedVault, CulperError>) where
        F: Fn(UnsealedVault) -> Result<SealedVault, CulperError>,

        requires
            call_requires(*f, (self.unsealed(),)),
        ensures
            call_ensures(*f, (self.unsealed(),), res),
    ;
}

impl SealableVault for UnsealedVault {
    open spec fn unsealed(self) -> UnsealedVault {
        self
    }

    fn seal<F>(self, f: &F) -> (res: Result<SealedVault, CulperError>) where
        F: Fn(UnsealedVault) -> Result<SealedVault, CulperError>,
     {
        f(self)
    }
}

/// A vault that an opening function can open, and that can be written
/// into a document.
pub trait OpenableVault: Sized {
    /// The vault as the opening function receives it.
    spec fn sealed(self) -> SealedVault;

    /// Hands the vault to `f` and returns what `f` made of it.
    fn unseal<F>(self, f: &F) -> (res: Result<UnsealedVault, CulperError>) where
        F: Fn(SealedVault) -> Result<UnsealedVault, CulperError>,

        requires
            call_requires(*f, (self.sealed(),)),
        ensures
            call_ensures(*f, (self.sealed(),), res),
    ;

    /// The text of the vault.
    fn to_string(&self) -> (text: String)
        ensures
            text@ == rendered(self.sealed()@),
            self.sealed()@.wf() ==> parsed(text@) == Ok::<Envelope, ParseFault>(self.sealed()@),
    ;
}

impl OpenableVault for SealedVault {
    open spec fn sealed(self) -> SealedVault {
        self
    }

    fn unseal<F>(self, f: &F) -> (res: Result<UnsealedVault, CulperError>) where
        F: Fn(SealedVault) -> Result<UnsealedVault, CulperError>,
     {
        f(self)
    }

    fn to_string(&self) -> (text: String) {
        let payload = base64_encode(self.secret.as_slice());
        let text = if self.format.is_salted() {
            let salt = match &self.salt {
                Some(bytes) => base64_encode(bytes.as_slice()),
                None => String::from_str("<NONE>"),
            };
            CulperDrop::new(salt, payload, self.format).as_str()
        } else {
            let mut text = String::from_str("CULPER");
            text.push('.');
            text.append(self.format.as_str().as_str());
            text.push('.');
            text.append(payload.as_str());
            text
        };
        proof {
            assert(text@ =~= rendered(self@));
            if self@.wf() {
                lemma_rendered_parses(self@);
            }
        }
        text
    }
}

/// A pair of functions that seals and opens vaults of one format.
pub trait VaultHandler {
    fn encrypt(&self, vault: UnsealedVault) -> Result<SealedVault, CulperError>;

    fn decrypt(&self, vault: SealedVault) -> Result<UnsealedVault, CulperError>;
}

/// Seals a secret with `f` and gives the text of the envelope.
pub fn seal_to_text<F>(plain_secret: String, format: EncryptionFormat, f: &F) -> (res: Result<
    String,
    CulperError,
>) where F: Fn(UnsealedVault) -> Result<SealedVault, CulperError>
    requires
        forall|vault: UnsealedVault| call_requires(*f, (vault,)),
    ensures
        match res {
            Ok(text) => exists|sealed: SealedVault|
                #[trigger] call_ensures(
                    *f,
                    (UnsealedVault { plain_secret, format },),
                    Ok::<SealedVault, CulperError>(sealed),
                ) && text@ == rendered(sealed@) && (sealed@.wf() ==> parsed(text@) == Ok::<
                    Envelope,
                    ParseFault,
                >(sealed@)),
            Err(e) => call_ensures(
                *f,
                (UnsealedVault { plain_secret, format },),
                Err::<SealedVault, CulperError>(e),
            ),
        },
{
    match UnsealedVault::new(plain_secret, format).seal(f) {
        Ok(sealed) => Ok(sealed.to_string()),
        Err(e) => Err(e),
    }
}

/// What a leaf of a document is to become when the document is opened:
/// the secret of the envelope that the leaf is, as `open` gives it, or
/// nothing where the leaf is no envelope. Only a failure of `open` is a
/// failure; a leaf that is no envelope is plain data.
pub fn unseal_leaf<F>(leaf: &String, open: &F) -> (res: Result<Option<String>, CulperError>) where
    F: Fn(SealedVault) -> Result<UnsealedVault, CulperError>,

    requires
        forall|vault: SealedVault| call_requires(*open, (vault,)),
    ensures
        leaf_opened(*open, leaf@, res),
        !fields_in_alphabet(leaf@) ==> res == Ok::<Option<String>, CulperError>(None),
{
    match parse(leaf) {
        Ok(vault) => match vault.unseal(open) {
            Ok(plain) => {
                proof {
                    assert(opened_by(*open, leaf@, Ok::<UnsealedVault, CulperError>(plain)));
                }
                Ok(Some(plain.plain_secret))
            },
            Err(e) => {
                proof {
                    assert(opened_by(*open, leaf@, Err::<UnsealedVault, CulperError>(e)));
                }
                Err(e)
            },
        },
        Err(_) => Ok(None),
    }
}

/// Whether `outcome` is what `open` made, or could have made, of the
/// envelope that `text` stands for.
pub open spec fn opened_by<F: Fn(SealedVault) -> Result<UnsealedVault, CulperError>>(
    open: F,
    text: Seq<char>,
    outcome: Result<UnsealedVault, CulperError>,
) -> bool {
    exists|vault: SealedVault|
        parsed(text) == Ok::<Envelope, ParseFault>(vault@) && #[trigger] call_ensures(
            open,
            (vault,),
            outcome,
        )
}

/// Whether `reply` is what opening the leaf `text` with `open` gives.
pub open spec fn leaf_opened<F: Fn(SealedVault) -> Result<UnsealedVault, CulperError>>(
    open: F,
    text: Seq<char>,
    reply: Result<Option<String>, CulperError>,
) -> bool {
    if parsed(text) is Err {
        reply == Ok::<Option<String>, CulperError>(None)
    } else {
        match reply {
            Ok(Some(secret)) => exists|plain: UnsealedVault|
                #[trigger] opened_by(open, text, Ok::<UnsealedVault, CulperError>(plain))
                    && plain.plain_secret == secret,
            Ok(None) => false,
            Err(e) => opened_by(open, text, Err::<UnsealedVault, CulperError>(e)),
        }
    }
}

/// Reads an envelope from its text.
///
/// Any text can be handed in: one that is no envelope gives a
/// `ParseError`, which a caller that scans a document takes to mean that
/// the text is plain data.
pub fn parse(value: &String) -> (res: Result<SealedVault, CulperError>)
    ensures
        match parsed(value@) {
            Ok(envelope) => res matches Ok(vault) && vault@ == envelope,
            Err(fault) => res matches Err(e) && e.parse_fault() == Some(fault),
        },
        res is Ok ==> fields_in_alphabet(value@),
{
    let fields = split_fields(value.as_str(), '.');
    proof {
        lemma_split_first(value@, '.');
        assert(forall|i: int| 0 <= i < fields.len() ==> texts(fields@)[i] == fields[i]@);
    }
    if !same_text(fields[0].as_str(), "CULPER") {
        return Err(CulperError::ParseError(ParseFailure::MissingTag));
    }
    if fields.len() < 2 {
        return Err(CulperError::ParseError(ParseFailure::FieldCount));
    }
    let format = match EncryptionFormat::from_str(&fields[1]) {
        Ok(format) => format,
        Err(e) => {
            return Err(e);
        },
    };
    if format.is_salted() {
        if fields.len() != 4 {
            return Err(CulperError::ParseError(ParseFailure::FieldCount));
        }
        let salt = if same_text(fields[2].as_str(), "<NONE>") {
            None
        } else {
            match base64_decode(fields[2].as_str()) {
                Ok(bytes) => Some(bytes),
                Err(_) => {
                    return Err(CulperError::ParseError(ParseFailure::InvalidSalt));
                },
            }
        };
        match base64_decode(fields[3].as_str()) {
            Ok(secret) => Ok(SealedVault { secret, salt, format }),
            Err(_) => Err(CulperError::ParseError(ParseFailure::InvalidPayload)),
        }
    } else {
        if fields.len() != 3 {
            return Err(CulperError::ParseError(ParseFailure::FieldCount));
        }
        match base64_decode(fields[2].as_str()) {
            Ok(secret) => Ok(SealedVault { secret, salt: None, format }),
            Err(_) => Err(CulperError::ParseError(ParseFailure::InvalidPayload)),
        }
    }
}

} // verus!
