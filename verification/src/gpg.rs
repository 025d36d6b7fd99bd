//! Working with a `gpg` program: the arguments it is called with, and
//! what its output says.
//!
//! Nothing here runs a program. The caller runs it with the arguments
//! that these functions give, and hands back what it put out.

use vstd::prelude::*;
use vstd::utf8::{decode_utf8, valid_utf8};
use crate::config::{UserConfig, UserModel};
use crate::errors::CulperError;
use crate::matching::{regex_captured, regex_captures};
use crate::store::{lemma_filter_none, lemma_filter_step};
use crate::text::{has_prefix, split, split_fields, strip_cr, text_from_utf8, texts, without_cr};
use crate::vault::{SealedVault, UnsealedVault};

verus! {

/// What is needed to seal and open vaults with public keys: who signs,
/// who receives, and where the keys are kept.
#[derive(Debug, Clone, PartialEq, Eq)]
pub struct PubKeyVaultHandler {
    signer: String,
    recipients: Vec<String>,
    gpg_path: String,
}

/// A `gpg` program with its home directory.
#[derive(Debug, Clone, PartialEq, Eq)]
pub struct GpgManager {
    pub gpg_path: String,
}

/// What a program left behind when it ended.
#[derive(Debug, Clone, PartialEq, Eq)]
pub struct ProcessOutput {
    pub success: bool,
    pub status: String,
    pub stdout: Vec<u8>,
    pub stderr: Vec<u8>,
}

/// The pattern of a user identity that ends in a mail address in
/// brackets.
pub open spec fn mail_pattern() -> Seq<char> {
    r#"^(.*)[<\["(]((?:[\w\d]+[.%-]?)+@(?:[[:alnum:]-]+)+(?:\.[a-z]{2,}){0,2}?)[)"\]>]$"#@
}

/// The pattern of a long key identifier.
pub open spec fn key_id_pattern() -> Seq<char> {
    "[0-9A-Z]{16}"@
}

/// The mail address of a user identity.
pub open spec fn mail_of(uid: Seq<char>) -> Option<Seq<char>> {
    match regex_captured(mail_pattern(), uid) {
        Some(groups) => if groups.len() == 3 {
            groups[2]
        } else {
            None
        },
        None => None,
    }
}

/// The first long key identifier in what `gpg` printed.
pub open spec fn imported_key(raw_output: Seq<char>) -> Option<Seq<char>> {
    match regex_captured(key_id_pattern(), raw_output) {
        Some(groups) => if groups.len() == 1 {
            groups[0]
        } else {
            None
        },
        None => None,
    }
}

/// Whether a line of a key listing describes a secret key or a user
/// identity.
pub open spec fn is_key_line(line: Seq<char>) -> bool {
    "sec"@.is_prefix_of(line) || "uid"@.is_prefix_of(line)
}

/// The lines of a text, without their line ends.
pub open spec fn lines_of(list: Seq<char>) -> Seq<Seq<char>> {
    Seq::new(split(list, '\n').len(), |i: int| without_cr(split(list, '\n')[i]))
}

/// The lines of a key listing that describe a secret key or a user
/// identity.
pub open spec fn key_lines(list: Seq<char>) -> Seq<Seq<char>> {
    lines_of(list).filter(|line: Seq<char>| is_key_line(line))
}

/// The user that a key listing describes: the key identifier in the
/// fifth field of the first key line, and the mail address in the tenth
/// field of the second. Where the listing has no two key lines, or one of
/// the two values is not there, the words of the failure.
pub open spec fn listed_user(list: Seq<char>) -> Result<UserModel, Seq<char>> {
    if key_lines(list).len() < 2 {
        Err(
            "Could not reliably determine sec and uid lines from gpg output. Output was: "@ + list,
        )
    } else {
        let sec = split(key_lines(list)[0], ':');
        let uid = split(key_lines(list)[1], ':');
        if sec.len() > 4 && uid.len() > 9 && mail_of(uid[9]) is Some {
            Ok(UserModel { id: sec[4], email: mail_of(uid[9])->0 })
        } else {
            Err("Could not reliably determine Key-ID or E-Mail from GPG output."@)
        }
    }
}

/// The identifier of the key that `gpg` reports to have imported, or the
/// words of the failure.
pub open spec fn imported_key_id(raw_output: Seq<char>) -> Result<Seq<char>, Seq<char>> {
    match imported_key(raw_output) {
        Some(key_id) => Ok(key_id),
        None => Err("Could not extract the key id from gpg output: "@ + raw_output),
    }
}

/// Whether `e` is a failure at run time with the given words.
pub open spec fn reports(e: CulperError, words: Seq<char>) -> bool {
    e matches CulperError::RuntimeError(m) && m@ == words
}

/// The mail address of a user identity.
pub fn extract_mail_from_uid(raw_str: Option<&str>) -> (mail: Option<String>)
    ensures
        match raw_str {
            Some(uid) => match mail_of(uid@) {
                Some(address) => mail matches Some(m) && m@ == address,
                None => mail is None,
            },
            None => mail is None,
        },
{
    match raw_str {
        Some(uid_str) => {
            match regex_captures(
                r#"^(.*)[<\["(]((?:[\w\d]+[.%-]?)+@(?:[[:alnum:]-]+)+(?:\.[a-z]{2,}){0,2}?)[)"\]>]$"#,
                uid_str,
            ) {
                Some(mut matches) => {
                    if matches.len() == 3usize {
                        return matches.pop().unwrap_or(None);
                    }
                    None
                },
                _ => None,
            }
        },
        None => None,
    }
}

/// The user that a listing of secret keys, printed with colons,
/// describes.
pub fn private_key_from_stdout(list: String) -> (res: Result<UserConfig, CulperError>)
    ensures
        match listed_user(list@) {
            Ok(user) => res matches Ok(found) && found@ == user,
            Err(words) => res matches Err(e) && reports(e, words),
        },
{
    let raw_lines = split_fields(list.as_str(), '\n');
    let ghost is_key = |line: Seq<char>| is_key_line(line);
    let mut config_lines: Vec<String> = Vec::new();
    let mut i: usize = 0;
    proof {
        lemma_filter_none(lines_of(list@), is_key);
        assert(texts(config_lines@) =~= Seq::empty());
    }
    while i < raw_lines.len()
        invariant
            i <= raw_lines.len(),
            texts(raw_lines@) == split(list@, '\n'),
            is_key == (|line: Seq<char>| is_key_line(line)),
            texts(config_lines@) == lines_of(list@).take(i as int).filter(is_key),
        decreases raw_lines.len() - i,
    {
        let line = strip_cr(raw_lines[i].as_str());
        proof {
            assert(texts(raw_lines@)[i as int] == raw_lines[i as int]@);
            assert(lines_of(list@)[i as int] == line@);
            lemma_filter_step(lines_of(list@), i as int, is_key);
        }
        if has_prefix(line.as_str(), "sec") || has_prefix(line.as_str(), "uid") {
            let ghost before = texts(config_lines@);
            config_lines.push(line);
            proof {
                assert(texts(config_lines@) =~= before.push(lines_of(list@)[i as int]));
            }
        }
        i += 1;
    }
    proof {
        assert(lines_of(list@).take(lines_of(list@).len() as int) == lines_of(list@));
    }
    if config_lines.len() < 2 {
        return Err(
            CulperError::RuntimeError(
                String::from_str(
                    "Could not reliably determine sec and uid lines from gpg output. Output was: ",
                ).concat(list.as_str()),
            ),
        );
    }
    proof {
        assert(texts(config_lines@)[0] == config_lines[0]@);
        assert(texts(config_lines@)[1] == config_lines[1]@);
    }
    let mut sec_config = split_fields(config_lines[0].as_str(), ':');
    let uid_config = split_fields(config_lines[1].as_str(), ':');
    if sec_config.len() > 4 && uid_config.len() > 9 {
        proof {
            assert(texts(sec_config@)[4] == sec_config[4]@);
            assert(texts(uid_config@)[9] == uid_config[9]@);
        }
        match extract_mail_from_uid(Some(uid_config[9].as_str())) {
            Some(mail) => {
                let keyid = sec_config.swap_remove(4);
                return Ok(UserConfig { id: keyid, email: mail });
            },
            None => {},
        }
    }
    Err(
        CulperError::RuntimeError(
            String::from_str("Could not reliably determine Key-ID or E-Mail from GPG output."),
        ),
    )
}

/// The identifier of the key that `gpg` reports to have imported.
pub fn imported_key_from_stdout(raw_output: String) -> (res: Result<String, CulperError>)
    ensures
        match imported_key_id(raw_output@) {
            Ok(key_id) => res matches Ok(found) && found@ == key_id,
            Err(words) => res matches Err(e) && reports(e, words),
        },
{
    match regex_captures("[0-9A-Z]{16}", raw_output.as_str()) {
        Some(mut matches) => {
            if matches.len() == 1usize {
                match matches.pop().unwrap_or(None) {
                    Some(found) => {
                        return Ok(found);
                    },
                    None => {},
                }
            }
        },
        _ => {},
    }
    Err(
        CulperError::RuntimeError(
            String::from_str("Could not extract the key id from gpg output: ").concat(
                raw_output.as_str(),
            ),
        ),
    )
}

impl PubKeyVaultHandler {
    pub fn new(signer: &str, recipients: &[String], gpg_path: &str) -> (handler: PubKeyVaultHandler)
        ensures
            handler.signer()@ == signer@,
            texts(handler.recipients()@) == texts(recipients@),
            handler.gpg_path()@ == gpg_path@,
    {
        let mut copies: Vec<String> = Vec::new();
        let mut i: usize = 0;
        while i < recipients.len()
            invariant
                i <= recipients.len(),
                copies.len() == i,
                forall|j: int| 0 <= j < i ==> (#[trigger] copies@[j])@ == recipients@[j]@,
            decreases recipients.len() - i,
        {
            copies.push(recipients[i].clone());
            i += 1;
        }
        proof {
            assert(texts(copies@) =~= texts(recipients@));
        }
        PubKeyVaultHandler {
            signer: String::from_str(signer),
            recipients: copies,
            gpg_path: String::from_str(gpg_path),
        }
    }

    /// The key that signs.
    pub closed spec fn signer(&self) -> String {
        self.signer
    }

    /// The keys that a vault is sealed to.
    pub closed spec fn recipients(&self) -> Vec<String> {
        self.recipients
    }

    /// The home directory of `gpg`.
    pub closed spec fn gpg_path(&self) -> String {
        self.gpg_path
    }

    /// The `gpg` program of the handler.
    pub fn manager(&self) -> (manager: GpgManager)
        ensures
            manager.gpg_path@ == self.gpg_path()@,
    {
        GpgManager { gpg_path: self.gpg_path.clone() }
    }

    /// The arguments that seal a vault to the recipients of the handler.
    pub fn encrypt_args(&self) -> (args: Vec<String>)
        ensures
            texts(args@) == encrypt_command(
                self.gpg_path()@,
                self.signer()@,
                texts(self.recipients()@),
            ),
    {
        self.manager().encrypt_args(self.signer.as_str(), &self.recipients)
    }

    /// The sealed vault, once `gpg` has encrypted the secret.
    pub fn sealed(&self, open_vault: UnsealedVault, output: ProcessOutput) -> (res: Result<
        SealedVault,
        CulperError,
    >)
        ensures
            match checked(output, "Could not encrypt secret."@) {
                Ok(secret) => res matches Ok(vault) && vault.secret@ == secret && vault.salt is None
                    && vault.format == open_vault.format,
                Err(words) => res matches Err(e) && reports(e, words),
            },
    {
        match self.manager().encrypt(output) {
            Ok(secret) => Ok(SealedVault { secret, salt: None, format: open_vault.format }),
            Err(e) => Err(e),
        }
    }

    /// The open vault, once `gpg` has decrypted the secret.
    pub fn unsealed(&self, vault: SealedVault, output: ProcessOutput) -> (res: Result<
        UnsealedVault,
        CulperError,
    >)
        ensures
            match decrypted_text(output) {
                Ok(secret) => res matches Ok(plain) && plain.plain_secret@ == secret && plain.format
                    == vault.format,
                Err(words) => res matches Err(e) && reports(e, words),
            },
    {
        match self.manager().decrypt(output) {
            Ok(bytes) => match text_from_utf8(bytes) {
                Some(plain_secret) => Ok(UnsealedVault { plain_secret, format: vault.format }),
                None => Err(
                    CulperError::RuntimeError(String::from_str("The secret is no text.")),
                ),
            },
            Err(e) => Err(e),
        }
    }
}

/// The argument that names the home directory of `gpg`.
pub open spec fn homedir_argument(gpg_path: Seq<char>) -> Seq<char> {
    "--homedir="@ + gpg_path
}

/// The arguments that name the recipients: each identifier behind a `-r`
/// of its own.
pub open spec fn recipient_arguments(recipients: Seq<Seq<char>>) -> Seq<Seq<char>> {
    Seq::new(
        2 * recipients.len(),
        |i: int|
            if i % 2 == 0 {
                "-r"@
            } else {
                recipients[i / 2]
            },
    )
}

/// The arguments that encrypt the input to every one of the recipients
/// and sign it with the signer's key.
pub open spec fn encrypt_command(
    gpg_path: Seq<char>,
    signer: Seq<char>,
    recipients: Seq<Seq<char>>,
) -> Seq<Seq<char>> {
    seq![
        homedir_argument(gpg_path),
        "--encrypt"@,
        "--always-trust"@,
        "--sign"@,
        "--local-user"@,
        signer,
    ] + recipient_arguments(recipients)
}

/// The arguments that make a detached signature of the input with the
/// signer's key.
pub open spec fn sign_command(gpg_path: Seq<char>, signer: Seq<char>) -> Seq<Seq<char>> {
    seq![homedir_argument(gpg_path), "--local-user"@, signer, "--detach-sign"@]
}

/// The text of what a failed program reported: what was tried, the
/// status, and the program's own words where they are text.
pub open spec fn failure_text(what: Seq<char>, output: ProcessOutput) -> Seq<char> {
    what + " Error: ["@ + output.status@ + "]: "@ + if valid_utf8(output.stderr@) {
        decode_utf8(output.stderr@)
    } else {
        Seq::empty()
    }
}

/// What a program that ended well put out, or the words of its failure.
pub open spec fn checked(output: ProcessOutput, what: Seq<char>) -> Result<Seq<u8>, Seq<char>> {
    if output.success {
        Ok(output.stdout@)
    } else {
        Err(failure_text(what, output))
    }
}

/// The text that bytes are, or the given words where they are none.
pub open spec fn as_text(bytes: Seq<u8>, words: Seq<char>) -> Result<Seq<char>, Seq<char>> {
    if valid_utf8(bytes) {
        Ok(decode_utf8(bytes))
    } else {
        Err(words)
    }
}

/// What importing a key gave: the identifier of the key, which `gpg`
/// prints among its remarks, or the words of the failure.
pub open spec fn key_import(output: ProcessOutput) -> Result<Seq<char>, Seq<char>> {
    if !output.success {
        Err(failure_text("Key was not imported."@, output))
    } else {
        match as_text(output.stderr@, "The output is no text."@) {
            Ok(remarks) => imported_key_id(remarks),
            Err(words) => Err(words),
        }
    }
}

/// What listing the secret keys gave: the user, or the words of the
/// failure.
pub open spec fn key_listing(output: ProcessOutput) -> Result<UserModel, Seq<char>> {
    match checked(output, "Could not list keys."@) {
        Ok(stdout) => match as_text(stdout, "The output is no text."@) {
            Ok(list) => listed_user(list),
            Err(words) => Err(words),
        },
        Err(words) => Err(words),
    }
}

/// What decrypting a secret gave: the secret, or the words of the
/// failure.
pub open spec fn decrypted_text(output: ProcessOutput) -> Result<Seq<char>, Seq<char>> {
    match checked(output, "Could not decrypt secret."@) {
        Ok(bytes) => as_text(bytes, "The secret is no text."@),
        Err(words) => Err(words),
    }
}

impl GpgManager {
    pub fn new(gpg_path: &str) -> (res: Result<GpgManager, CulperError>)
        ensures
            res matches Ok(manager) && manager.gpg_path@ == gpg_path@,
    {
        Ok(GpgManager { gpg_path: String::from_str(gpg_path) })
    }

    /// The argument that names the home directory.
    pub fn homedir_arg(&self) -> (arg: String)
        ensures
            arg@ == homedir_argument(self.gpg_path@),
    {
        String::from_str("--homedir=").concat(self.gpg_path.as_str())
    }

    /// The arguments that import a key from the input.
    pub fn import_key_args(&self) -> (args: Vec<String>)
        ensures
            texts(args@) == seq![homedir_argument(self.gpg_path@), "--import"@],
    {
        let mut args: Vec<String> = Vec::new();
        args.push(self.homedir_arg());
        args.push(String::from_str("--import"));
        proof {
            assert(texts(args@) =~= seq![homedir_argument(self.gpg_path@), "--import"@]);
        }
        args
    }

    /// The arguments that list the secret keys, with colons.
    pub fn parse_private_key_args(&self) -> (args: Vec<String>)
        ensures
            texts(args@) == seq![
                homedir_argument(self.gpg_path@),
                "--with-colons"@,
                "--list-secret-keys"@,
                "--keyid-format"@,
                "long"@,
            ],
    {
        let mut args: Vec<String> = Vec::new();
        args.push(self.homedir_arg());
        args.push(String::from_str("--with-colons"));
        args.push(String::from_str("--list-secret-keys"));
        args.push(String::from_str("--keyid-format"));
        args.push(String::from_str("long"));
        proof {
            assert(texts(args@) =~= seq![
                homedir_argument(self.gpg_path@),
                "--with-colons"@,
                "--list-secret-keys"@,
                "--keyid-format"@,
                "long"@,
            ]);
        }
        args
    }

    /// The arguments that verify a signature file against a content
    /// file.
    pub fn verify_args(&self, signature_file: &str, content_file: &str) -> (args: Vec<String>)
        ensures
            texts(args@) == seq![
                homedir_argument(self.gpg_path@),
                "--verify"@,
                signature_file@,
                content_file@,
            ],
    {
        let mut args: Vec<String> = Vec::new();
        args.push(self.homedir_arg());
        args.push(String::from_str("--verify"));
        args.push(String::from_str(signature_file));
        args.push(String::from_str(content_file));
        proof {
            assert(texts(args@) =~= seq![
                homedir_argument(self.gpg_path@),
                "--verify"@,
                signature_file@,
                content_file@,
            ]);
        }
        args
    }

    /// The arguments that export the armored public key with the
    /// identifier `id`.
    pub fn pubkey_for_id_args(&self, id: &str) -> (args: Vec<String>)
        ensures
            texts(args@) == seq!["--export"@, "--armor"@, id@],
    {
        let mut args: Vec<String> = Vec::new();
        args.push(String::from_str("--export"));
        args.push(String::from_str("--armor"));
        args.push(String::from_str(id));
        proof {
            assert(texts(args@) =~= seq!["--export"@, "--armor"@, id@]);
        }
        args
    }

    /// The arguments that encrypt the input to every one of the
    /// recipients and sign it with the signer's key.
    pub fn encrypt_args(&self, signer: &str, recipients: &Vec<String>) -> (args: Vec<String>)
        ensures
            texts(args@) == encrypt_command(self.gpg_path@, signer@, texts(recipients@)),
    {
        let mut command: Vec<String> = Vec::new();
        command.push(self.homedir_arg());
        command.push(String::from_str("--encrypt"));
        command.push(String::from_str("--always-trust"));
        command.push(String::from_str("--sign"));
        command.push(String::from_str("--local-user"));
        command.push(String::from_str(signer));
        let ghost head = texts(command@);
        proof {
            assert(head =~= seq![
                homedir_argument(self.gpg_path@),
                "--encrypt"@,
                "--always-trust"@,
                "--sign"@,
                "--local-user"@,
                signer@,
            ]);
            assert(recipient_arguments(texts(recipients@).take(0)) =~= Seq::empty());
            assert(head + Seq::<Seq<char>>::empty() =~= head);
        }
        let mut i: usize = 0;
        while i < recipients.len()
            invariant
                i <= recipients.len(),
                head.len() == 6,
                texts(command@) == head + recipient_arguments(texts(recipients@).take(i as int)),
            decreases recipients.len() - i,
        {
            let ghost before = texts(command@);
            command.push(String::from_str("-r"));
            command.push(recipients[i].clone());
            proof {
                let named = texts(recipients@).take(i as int);
                let more = texts(recipients@).take(i + 1);
                assert(texts(command@) =~= before.push("-r"@).push(recipients[i as int]@));
                assert(more[i as int] == recipients[i as int]@);
                assert(recipient_arguments(more) =~= recipient_arguments(named).push("-r"@).push(
                    recipients[i as int]@,
                )) by {
                    assert forall|j: int| 0 <= j < 2 * i implies recipient_arguments(more)[j]
                        == recipient_arguments(named)[j] by {
                        if j % 2 != 0 {
                            assert(more[j / 2] == named[j / 2]);
                        }
                    }
                }
                assert(texts(command@) =~= head + recipient_arguments(more));
            }
            i += 1;
        }
        proof {
            assert(texts(recipients@).take(recipients@.len() as int) =~= texts(recipients@));
        }
        command
    }

    /// The arguments that make a detached signature of the input with the
    /// signer's key.
    pub fn sign_args(&self, signer: &str) -> (args: Vec<String>)
        ensures
            texts(args@) == sign_command(self.gpg_path@, signer@),
    {
        let mut args: Vec<String> = Vec::new();
        args.push(self.homedir_arg());
        args.push(String::from_str("--local-user"));
        args.push(String::from_str(signer));
        args.push(String::from_str("--detach-sign"));
        proof {
            assert(texts(args@) =~= sign_command(self.gpg_path@, signer@));
        }
        args
    }

    /// The arguments that decrypt the input.
    pub fn decrypt_args(&self) -> (args: Vec<String>)
        ensures
            texts(args@) == seq![homedir_argument(self.gpg_path@), "--decrypt"@],
    {
        let mut args: Vec<String> = Vec::new();
        args.push(self.homedir_arg());
        args.push(String::from_str("--decrypt"));
        proof {
            assert(texts(args@) =~= seq![homedir_argument(self.gpg_path@), "--decrypt"@]);
        }
        args
    }

    /// What a program put out, if it ended well; else a failure that
    /// says what was tried and what the program reported.
    pub fn check(&self, what: &str, output: ProcessOutput) -> (res: Result<Vec<u8>, CulperError>)
        ensures
            match checked(output, what@) {
                Ok(bytes) => res matches Ok(out) && out@ == bytes,
                Err(words) => res matches Err(e) && reports(e, words),
            },
    {
        if output.success {
            return Ok(output.stdout);
        }
        let ghost reported = output.stderr@;
        let mut message = String::from_str(what);
        message.append(" Error: [");
        message.append(output.status.as_str());
        message.append("]: ");
        match text_from_utf8(output.stderr) {
            Some(words) => {
                message.append(words.as_str());
            },
            None => {
                proof {
                    assert(message@ + Seq::<char>::empty() =~= message@);
                }
            },
        }
        proof {
            assert(message@ =~= failure_text(what@, output));
        }
        Err(CulperError::RuntimeError(message))
    }

    /// Takes what gpg printed when it imported the armored public key and
    /// returns either an error or a result containing the ID of the
    /// imported key.
    pub fn import_key(&self, output: ProcessOutput) -> (res: Result<String, CulperError>)
        ensures
            match key_import(output) {
                Ok(key_id) => res matches Ok(found) && found@ == key_id,
                Err(words) => res matches Err(e) && reports(e, words),
            },
    {
        let remarks = vstd::slice::slice_to_vec(output.stderr.as_slice());
        match self.check("Key was not imported.", output) {
            Ok(_) => match text_from_utf8(remarks) {
                Some(raw_output) => imported_key_from_stdout(raw_output),
                None => Err(CulperError::RuntimeError(String::from_str("The output is no text."))),
            },
            Err(e) => Err(e),
        }
    }

    /// The user that the listing of secret keys describes.
    pub fn parse_private_key(&self, output: ProcessOutput) -> (res: Result<UserConfig, CulperError>)
        ensures
            match key_listing(output) {
                Ok(user) => res matches Ok(found) && found@ == user,
                Err(words) => res matches Err(e) && reports(e, words),
            },
    {
        match self.check("Could not list keys.", output) {
            Ok(stdout) => match text_from_utf8(stdout) {
                Some(list) => private_key_from_stdout(list),
                None => Err(CulperError::RuntimeError(String::from_str("The output is no text."))),
            },
            Err(e) => Err(e),
        }
    }

    /// Whether the signature verified: a program that ran says so by how
    /// it ended; one that could not be started is a failure.
    pub fn verify(&self, outcome: Option<bool>) -> (res: Result<bool, CulperError>)
        ensures
            match outcome {
                Some(success) => res == Ok::<bool, CulperError>(success),
                None => res matches Err(CulperError::RuntimeError(m)) && m@
                    == "Could not spawn GPG process for verifying payload."@,
            },
    {
        match outcome {
            Some(success) => Ok(success),
            None => Err(
                CulperError::RuntimeError(
                    String::from_str("Could not spawn GPG process for verifying payload."),
                ),
            ),
        }
    }

    /// The signature that `gpg` put out.
    pub fn sign(&self, output: ProcessOutput) -> (res: Result<Vec<u8>, CulperError>)
        ensures
            match checked(output, "Could not sign payload."@) {
                Ok(bytes) => res matches Ok(out) && out@ == bytes,
                Err(words) => res matches Err(e) && reports(e, words),
            },
    {
        self.check("Could not sign payload.", output)
    }

    /// The ciphertext that `gpg` put out.
    pub fn encrypt(&self, output: ProcessOutput) -> (res: Result<Vec<u8>, CulperError>)
        ensures
            match checked(output, "Could not encrypt secret."@) {
                Ok(bytes) => res matches Ok(out) && out@ == bytes,
                Err(words) => res matches Err(e) && reports(e, words),
            },
    {
        self.check("Could not encrypt secret.", output)
    }

    /// The plaintext that `gpg` put out.
    pub fn decrypt(&self, output: ProcessOutput) -> (res: Result<Vec<u8>, CulperError>)
        ensures
            match checked(output, "Could not decrypt secret."@) {
                Ok(bytes) => res matches Ok(out) && out@ == bytes,
                Err(words) => res matches Err(e) && reports(e, words),
            },
    {
        self.check("Could not decrypt secret.", output)
    }
}

} // verus!
