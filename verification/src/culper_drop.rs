//! The four-field text of a salted envelope, with its salt and payload as
//! the texts they are written as.

use vstd::prelude::*;
use crate::errors::{CulperError, ParseFailure, ParseFault};
use crate::text::{
    joined, lemma_split_append, lemma_split_first, lemma_split_joins_back, lemma_split_plain,
    same_text, split, split_fields, texts,
};
use crate::vault::{parsed, EncryptionFormat};

verus! {

/// A salted envelope whose salt and payload are held as text.
#[derive(Debug, Clone, PartialEq, Eq)]
pub struct CulperDrop {
    salt: String,
    pass: String,
    format: EncryptionFormat,
}

/// The parts of a drop as plain mathematical values.
pub struct DropText {
    pub salt: Seq<char>,
    pub pass: Seq<char>,
    pub format: EncryptionFormat,
}

impl DropText {
    /// A drop is of a salted format, and neither its salt nor its payload
    /// holds a dot.
    pub open spec fn wf(self) -> bool {
        self.format.salted() && !self.salt.contains('.') && !self.pass.contains('.')
    }
}

/// The text of a drop: the literal tag, the format's tag, the salt and
/// the payload, joined by dots.
pub open spec fn drop_text(drop: DropText) -> Seq<char> {
    "CULPER"@ + seq!['.'] + drop.format.tag() + seq!['.'] + drop.salt + seq!['.'] + drop.pass
}

/// The drop that a text stands for, or the reason why it is none: the
/// text has to open with the literal tag, name a salted format, and hold
/// four fields.
pub open spec fn parsed_drop(text: Seq<char>) -> Result<DropText, ParseFault> {
    let fields = split(text, '.');
    if fields[0] != "CULPER"@ {
        Err(ParseFault::MissingTag)
    } else if fields.len() < 2 {
        Err(ParseFault::FieldCount)
    } else {
        match EncryptionFormat::of_tag(fields[1]) {
            None => Err(ParseFault::UnknownFormat(fields[1])),
            Some(format) => if !format.salted() || fields.len() != 4 {
                Err(ParseFault::FieldCount)
            } else {
                Ok(DropText { salt: fields[2], pass: fields[3], format })
            },
        }
    }
}

/// The fields of the text of a drop are the parts of the drop, so the
/// text stands for the drop.
pub proof fn lemma_drop_text_parses(drop: DropText)
    requires
        drop.wf(),
    ensures
        split(drop_text(drop), '.') == seq!["CULPER"@, drop.format.tag(), drop.salt, drop.pass],
        parsed_drop(drop_text(drop)) == Ok::<DropText, ParseFault>(drop),
{
    reveal_strlit("CULPER");
    let head = "CULPER"@;
    let tag = drop.format.tag();
    drop.format.lemma_tag_names_format();
    assert(!head.contains('.')) by {
        if head.contains('.') {
            let i = choose|i: int| 0 <= i < head.len() && head[i] == '.';
        }
    }
    lemma_split_plain(head, '.');
    lemma_split_append(head, tag, '.');
    lemma_split_append(head + seq!['.'] + tag, drop.salt, '.');
    lemma_split_append(head + seq!['.'] + tag + seq!['.'] + drop.salt, drop.pass, '.');
    assert(seq![head].push(tag).push(drop.salt).push(drop.pass) == seq![
        head,
        tag,
        drop.salt,
        drop.pass,
    ]);
}

/// A text that stands for a drop is the text of that drop, and the drop
/// is well-formed: reading a drop is the exact inverse of writing it.
pub proof fn lemma_parsed_drop_renders(text: Seq<char>)
    requires
        parsed_drop(text) is Ok,
    ensures
        parsed_drop(text)->Ok_0.wf(),
        drop_text(parsed_drop(text)->Ok_0) == text,
{
    let fields = split(text, '.');
    let drop = parsed_drop(text)->Ok_0;
    lemma_split_joins_back(text, '.');
    assert(fields[1] == drop.format.tag());
    let three = fields.drop_last();
    let two = three.drop_last();
    let one = two.drop_last();
    assert(joined(one, '.') == fields[0]);
    assert(joined(two, '.') == joined(one, '.') + seq!['.'] + two.last());
    assert(joined(three, '.') == joined(two, '.') + seq!['.'] + three.last());
    assert(joined(fields, '.') == joined(three, '.') + seq!['.'] + fields.last());
    assert(two.last() == fields[1]);
    assert(three.last() == fields[2]);
    assert(fields.last() == fields[3]);
}

/// The text of an envelope of a salted format stands for a drop: the
/// format of the envelope, with the salt and the payload as they are
/// written.
pub proof fn lemma_salted_envelope_is_drop(text: Seq<char>)
    requires
        parsed(text) is Ok,
        parsed(text)->Ok_0.format.salted(),
    ensures
        parsed_drop(text) == Ok::<DropText, ParseFault>(
            DropText {
                salt: split(text, '.')[2],
                pass: split(text, '.')[3],
                format: parsed(text)->Ok_0.format,
            },
        ),
{
}

impl View for CulperDrop {
    type V = DropText;

    closed spec fn view(&self) -> DropText {
        DropText { salt: self.salt@, pass: self.pass@, format: self.format }
    }
}

impl CulperDrop {
    pub fn new(salt: String, pass: String, format: EncryptionFormat) -> (drop: CulperDrop)
        ensures
            drop@ == (DropText { salt: salt@, pass: pass@, format }),
    {
        CulperDrop { salt, pass, format }
    }

    /// The salt, as it is written.
    pub fn salt(&self) -> (salt: &String)
        ensures
            salt@ == self@.salt,
    {
        &self.salt
    }

    /// The payload, as it is written.
    pub fn pass(&self) -> (pass: &String)
        ensures
            pass@ == self@.pass,
    {
        &self.pass
    }

    /// The format.
    pub fn format(&self) -> (format: EncryptionFormat)
        ensures
            format == self@.format,
    {
        self.format
    }

    /// The text of the drop. Where the drop is well-formed, [`parse`]
    /// reads the drop back from it.
    ///
    /// [`parse`]: CulperDrop::parse
    pub fn as_str(&self) -> (text: String)
        ensures
            text@ == drop_text(self@),
            self@.wf() ==> parsed_drop(text@) == Ok::<DropText, ParseFault>(self@),
    {
        let mut text = String::from_str("CULPER");
        text.push('.');
        text.append(self.format.as_str().as_str());
        text.push('.');
        text.append(self.salt.as_str());
        text.push('.');
        text.append(self.pass.as_str());
        proof {
            assert(text@ =~= drop_text(self@));
            if self@.wf() {
                lemma_drop_text_parses(self@);
            }
        }
        text
    }

    /// Reads a drop from its text: the literal tag, the tag of a salted
    /// format, the salt and the payload, with dots between them. Any
    /// other text is refused with the reason.
    pub fn parse(value: &String) -> (res: Result<CulperDrop, CulperError>)
        ensures
            match parsed_drop(value@) {
                Ok(drop) => res matches Ok(found) && found@ == drop && found@.wf() && drop_text(
                    found@,
                ) == value@,
                Err(fault) => res matches Err(e) && e.parse_fault() == Some(fault),
            },
    {
        let mut fields = split_fields(value.as_str(), '.');
        proof {
            lemma_split_first(value@, '.');
            assert(forall|i: int| 0 <= i < fields.len() ==> texts(fields@)[i] == fields[i]@);
            if parsed_drop(value@) is Ok {
                lemma_parsed_drop_renders(value@);
            }
        }
        if !same_text(fields[0].as_str(), "CULPER") {
            return Err(CulperError::ParseError(ParseFailure::MissingTag));
        }
        if fields.len() < 2 {
            return Err(CulperError::ParseError(ParseFailure::FieldCount));
        }
        let format = match EncryptionFormat::from_str(&fields[1]) {
            Ok(format) => format,
            Err(e) => {
                return Err(e);
            },
        };
        if !format.is_salted() || fields.len() != 4 {
            return Err(CulperError::ParseError(ParseFailure::FieldCount));
        }
        let pass = fields.remove(3);
        let salt = fields.remove(2);
        Ok(CulperDrop { salt, pass, format })
    }
}

} // verus!
