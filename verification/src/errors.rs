//! The failures that the vault reports to its callers.

use vstd::prelude::*;

verus! {

/// Why a text is not a vault envelope.
#[derive(Debug, Clone, PartialEq, Eq)]
pub enum ParseFailure {
    /// The text does not open with the literal tag.
    MissingTag,
    /// The number of fields is not the one the format asks for.
    FieldCount,
    /// The format tag is none of the known ones; holds the tag.
    UnknownFormat(String),
    /// The salt field is neither the sentinel nor base64.
    InvalidSalt,
    /// The payload field is not base64.
    InvalidPayload,
}

/// A parse failure as plain mathematical values.
pub enum ParseFault {
    MissingTag,
    FieldCount,
    UnknownFormat(Seq<char>),
    InvalidSalt,
    InvalidPayload,
}

impl View for ParseFailure {
    type V = ParseFault;

    open spec fn view(&self) -> ParseFault {
        match self {
            ParseFailure::MissingTag => ParseFault::MissingTag,
            ParseFailure::FieldCount => ParseFault::FieldCount,
            ParseFailure::UnknownFormat(tag) => ParseFault::UnknownFormat(tag@),
            ParseFailure::InvalidSalt => ParseFault::InvalidSalt,
            ParseFailure::InvalidPayload => ParseFault::InvalidPayload,
        }
    }
}

impl ParseFault {
    /// The text of the failure for the operator. An unknown format is
    /// named.
    pub open spec fn described(self) -> Seq<char> {
        match self {
            ParseFault::MissingTag => "Could not parse string"@,
            ParseFault::FieldCount => "Could not parse string"@,
            ParseFault::UnknownFormat(tag) => "Unknown encryption format given: "@ + tag,
            ParseFault::InvalidSalt => "The salt is not valid base64"@,
            ParseFault::InvalidPayload => "The payload is not valid base64"@,
        }
    }
}

/// Why the password-based cipher gave up.
#[derive(Debug, Clone, Copy, PartialEq, Eq, Structural)]
pub enum CipherFailure {
    /// The key or the initialization vector has the wrong length.
    BadParameters,
    /// The ciphertext is empty or no whole number of blocks.
    BadLength,
    /// The padding found after decryption is not valid.
    BadPadding,
    /// The envelope carries no salt, or one of the wrong length.
    BadSalt,
    /// The recovered bytes are no text.
    BadText,
}

/// Every failure of the library.
#[derive(Debug, Clone, PartialEq, Eq)]
pub enum CulperError {
    /// The operator's input cannot be used; shown to the operator as it is.
    UserError(String),
    /// An operation failed while running.
    RuntimeError(String),
    /// A text does not follow the envelope grammar.
    ParseError(ParseFailure),
    /// The password-based cipher could not seal or open a value.
    CipherError(CipherFailure),
    /// Stored key material, or a signature, did not pass its check.
    IntegrityError(String),
    /// No secret that the caller offered opens the message; holds the key
    /// identifiers of the recipients that were tried.
    ResolutionExhausted(Vec<u64>),
    /// A key identifier already belongs to another binding.
    StoreConflict { key_id: u64, owner: u64 },
    /// No binding is stored under the label or key identifier.
    NotFound,
    /// The store has handed out every binding identifier it has.
    StoreFull,
}

impl CipherFailure {
    /// The text of the failure for the operator.
    pub open spec fn described(self) -> Seq<char> {
        match self {
            CipherFailure::BadParameters => "The key or the salt has the wrong length."@,
            CipherFailure::BadLength => "The payload is no whole number of blocks."@,
            CipherFailure::BadPadding => "Decrypting the given payload failed."@,
            CipherFailure::BadSalt => "The envelope holds no salt of the right length."@,
            CipherFailure::BadText => "The decrypted payload is no text."@,
        }
    }
}

impl CulperError {
    /// The words that a failure carries, if it carries any: its message,
    /// or the format tag that it does not know.
    pub open spec fn words(self) -> Option<Seq<char>> {
        match self {
            CulperError::UserError(m) => Some(m@),
            CulperError::RuntimeError(m) => Some(m@),
            CulperError::IntegrityError(m) => Some(m@),
            CulperError::ParseError(ParseFailure::UnknownFormat(tag)) => Some(tag@),
            _ => None,
        }
    }

    /// Why the text was no envelope, if the failure is a parse failure.
    pub open spec fn parse_fault(self) -> Option<ParseFault> {
        match self {
            CulperError::ParseError(failure) => Some(failure@),
            _ => None,
        }
    }

    /// The text of the failure for the operator.
    pub open spec fn described(self) -> Seq<char> {
        match self {
            CulperError::UserError(m) => "User error: "@ + m@,
            CulperError::RuntimeError(m) => "Internal error: "@ + m@,
            CulperError::IntegrityError(m) => "Integrity error: "@ + m@,
            CulperError::ParseError(failure) => failure@.described(),
            CulperError::CipherError(failure) => failure.described(),
            CulperError::ResolutionExhausted(_) => "No key to decrypt message"@,
            CulperError::StoreConflict { .. } => "The key identifier belongs to another binding"@,
            CulperError::NotFound => "No such binding"@,
            CulperError::StoreFull => "The key store is full"@,
        }
    }

    /// A short text for the operator.
    pub fn describe(&self) -> (text: String)
        ensures
            text@ == self.described(),
    {
        match self {
            CulperError::UserError(m) => String::from_str("User error: ").concat(m.as_str()),
            CulperError::RuntimeError(m) => String::from_str("Internal error: ").concat(m.as_str()),
            CulperError::IntegrityError(m) => String::from_str("Integrity error: ").concat(m.as_str()),
            CulperError::ParseError(failure) => match failure {
                ParseFailure::MissingTag => String::from_str("Could not parse string"),
                ParseFailure::FieldCount => String::from_str("Could not parse string"),
                ParseFailure::UnknownFormat(tag) => String::from_str(
                    "Unknown encryption format given: ",
                ).concat(tag.as_str()),
                ParseFailure::InvalidSalt => String::from_str("The salt is not valid base64"),
                ParseFailure::InvalidPayload => String::from_str("The payload is not valid base64"),
            },
            CulperError::CipherError(failure) => match failure {
                CipherFailure::BadParameters => String::from_str(
                    "The key or the salt has the wrong length.",
                ),
                CipherFailure::BadLength => String::from_str(
                    "The payload is no whole number of blocks.",
                ),
                CipherFailure::BadPadding => String::from_str("Decrypting the given payload failed."),
                CipherFailure::BadSalt => String::from_str(
                    "The envelope holds no salt of the right length.",
                ),
                CipherFailure::BadText => String::from_str("The decrypted payload is no text."),
            },
            CulperError::ResolutionExhausted(_) => String::from_str("No key to decrypt message"),
            CulperError::StoreConflict { .. } => String::from_str(
                "The key identifier belongs to another binding",
            ),
            CulperError::NotFound => String::from_str("No such binding"),
            CulperError::StoreFull => String::from_str("The key store is full"),
        }
    }
}

} // verus!
