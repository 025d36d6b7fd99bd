//! The password-based cipher: AES-256 in CBC mode with PKCS padding, under
//! a key that scrypt derives from the password and a random salt.
//!
//! The salt doubles as the initialization vector and travels with the
//! ciphertext, so sealing one secret twice gives two different envelopes.

use vstd::prelude::*;
use vstd::slice::slice_to_vec;
use vstd::utf8::{decode_utf8, encode_utf8, encode_utf8_decode_utf8, encode_utf8_valid_utf8, valid_utf8};
use crate::errors::{CipherFailure, CulperError};
use crate::random::os_random_block;
use crate::text::text_from_utf8;
use crate::vault::{EncryptionFormat, Envelope, Plain, SealedVault, UnsealedVault, VaultHandler};

verus! {

/// The size of a cipher block, and of the salt, in bytes.
pub const BLOCK_SIZE: usize = 16;

/// The size of the key, in bytes.
pub const KEY_SIZE: usize = 32;

/// What AES-256-CBC makes of whole blocks, without any padding; `None`
/// where the outside cipher reports an error.
pub uninterp spec fn aes_cbc_encrypted(blocks: Seq<u8>, key: Seq<u8>, iv: Seq<u8>) -> Option<
    Seq<u8>,
>;

/// What AES-256-CBC recovers from whole blocks, without looking at any
/// padding; `None` where the outside cipher reports an error.
pub uninterp spec fn aes_cbc_decrypted(blocks: Seq<u8>, key: Seq<u8>, iv: Seq<u8>) -> Option<
    Seq<u8>,
>;

/// The 32 bytes that scrypt derives from a password and a salt with the
/// work factors N = 2^`log_n`, `r` and `p`.
pub uninterp spec fn scrypt_key(password: Seq<u8>, salt: Seq<u8>, log_n: u8, r: u32, p: u32) -> Seq<
    u8,
>;

/// The work factors of the key derivation: N = 2^14, r = 8, p = 1.
pub const SCRYPT_LOG_N: u8 = 14;

pub const SCRYPT_R: u32 = 8;

pub const SCRYPT_P: u32 = 1;

/// The key that a password gives with a salt: the 32 bytes that scrypt
/// derives with the work factors of the library.
pub open spec fn derived_key(password: Seq<char>, salt: Seq<u8>) -> Seq<u8> {
    scrypt_key(encode_utf8(password), salt, SCRYPT_LOG_N, SCRYPT_R, SCRYPT_P)
}

/// Runs `crypto::aes::cbc_encryptor` with `NoPadding` once over `blocks`,
/// into a buffer of the same size.
///
/// Trusted: the call succeeds, since without padding whole blocks go
/// through as they are and the buffer takes them all; the outcome depends
/// on the arguments alone; the ciphertext is as long as the input, and the
/// matching decryption gives the input back.
/// The lengths asked for are those outside of which the outside code
/// panics or reads past the key.
#[verifier::external_body]
fn aes_cbc_encrypt_blocks(blocks: &[u8], key: &[u8], iv: &[u8]) -> (res: Option<Vec<u8>>)
    requires
        key@.len() == KEY_SIZE,
        iv@.len() == BLOCK_SIZE,
        blocks@.len() % 16 == 0,
    ensures
        res is Some,
        match res {
            Some(out) => aes_cbc_encrypted(blocks@, key@, iv@) == Some(out@) && out@.len()
                == blocks@.len() && aes_cbc_decrypted(out@, key@, iv@) == Some(blocks@),
            None => aes_cbc_encrypted(blocks@, key@, iv@) is None,
        },
{
    let mut out = vec![0u8; blocks.len()];
    let mut cipher = crypto::aes::cbc_encryptor(
        crypto::aes::KeySize::KeySize256,
        key,
        iv,
        crypto::blockmodes::NoPadding,
    );
    let mut reader = crypto::buffer::RefReadBuffer::new(blocks);
    let mut writer = crypto::buffer::RefWriteBuffer::new(&mut out);
    let outcome = cipher.encrypt(&mut reader, &mut writer, true);
    outcome.ok().map(|_| out)
}

/// Runs `crypto::aes::cbc_decryptor` with `NoPadding` once over `blocks`,
/// into a buffer of the same size.
///
/// Trusted: the call succeeds, since without padding whole blocks go
/// through as they are and the buffer takes them all; the outcome depends
/// on the arguments alone, and the recovered bytes are as many as the
/// input. The lengths asked for are those outside
/// of which the outside code panics or reads past the key.
#[verifier::external_body]
fn aes_cbc_decrypt_blocks(blocks: &[u8], key: &[u8], iv: &[u8]) -> (res: Option<Vec<u8>>)
    requires
        key@.len() == KEY_SIZE,
        iv@.len() == BLOCK_SIZE,
        blocks@.len() % 16 == 0,
    ensures
        res is Some,
        match res {
            Some(out) => aes_cbc_decrypted(blocks@, key@, iv@) == Some(out@) && out@.len()
                == blocks@.len(),
            None => aes_cbc_decrypted(blocks@, key@, iv@) is None,
        },
{
    let mut out = vec![0u8; blocks.len()];
    let mut cipher = crypto::aes::cbc_decryptor(
        crypto::aes::KeySize::KeySize256,
        key,
        iv,
        crypto::blockmodes::NoPadding,
    );
    let mut reader = crypto::buffer::RefReadBuffer::new(blocks);
    let mut writer = crypto::buffer::RefWriteBuffer::new(&mut out);
    let outcome = cipher.decrypt(&mut reader, &mut writer, true);
    outcome.ok().map(|_| out)
}

/// Runs `crypto::scrypt::scrypt` with the given work factors for a key
/// of 32 bytes.
///
/// Trusted: the key depends on the password, the salt and the work
/// factors alone. The work factors asked for are within those that the
/// outside code accepts without a panic, on a machine of 32 bits too.
#[verifier::external_body]
fn scrypt_derive(password: &[u8], salt: &[u8], log_n: u8, r: u32, p: u32) -> (key: [u8; 32])
    requires
        1 <= log_n <= 16,
        1 <= r <= 16,
        1 <= p <= 16,
        log_n < r * 16,
    ensures
        key@ == scrypt_key(password@, salt@, log_n, r, p),
{
    let mut key = [0u8; 32];
    let params = crypto::scrypt::ScryptParams::new(log_n, r, p);
    crypto::scrypt::scrypt(password, salt, &params, &mut key);
    key
}

/// The number of padding bytes that PKCS padding adds to `len` bytes.
pub open spec fn padding_len(len: nat) -> int {
    16 - (len as int) % 16
}

/// `data` with PKCS padding: between one and sixteen bytes that each hold
/// their own number, so that the whole fills blocks.
pub open spec fn pkcs_padded(data: Seq<u8>) -> Seq<u8> {
    data + Seq::new(padding_len(data.len()) as nat, |i: int| padding_len(data.len()) as u8)
}

/// Whether `blocks` ends in valid PKCS padding.
pub open spec fn has_pkcs_padding(blocks: Seq<u8>) -> bool {
    &&& blocks.len() > 0
    &&& blocks.len() % 16 == 0
    &&& 1 <= blocks.last() <= 16
    &&& forall|i: int|
        blocks.len() - blocks.last() <= i < blocks.len() ==> #[trigger] blocks[i] == blocks.last()
}

/// `blocks` without its PKCS padding.
pub open spec fn pkcs_unpadded(blocks: Seq<u8>) -> Option<Seq<u8>> {
    if has_pkcs_padding(blocks) {
        Some(blocks.take(blocks.len() - blocks.last()))
    } else {
        None
    }
}

/// Padding can always be taken off again.
pub proof fn lemma_unpad_undoes_pad(data: Seq<u8>)
    ensures
        pkcs_padded(data).len() == (data.len() / 16 + 1) * 16,
        pkcs_unpadded(pkcs_padded(data)) == Some(data),
{
    let n = padding_len(data.len());
    let p = pkcs_padded(data);
    assert(p.len() == data.len() + n);
    assert(p.last() == n as u8);
    assert(p.take(p.len() - n) == data);
}

/// The ciphertext of `data`, or the reason why there is none.
pub open spec fn encrypted(data: Seq<u8>, key: Seq<u8>, iv: Seq<u8>) -> Result<
    Seq<u8>,
    CipherFailure,
> {
    if key.len() != KEY_SIZE || iv.len() != BLOCK_SIZE {
        Err(CipherFailure::BadParameters)
    } else {
        match aes_cbc_encrypted(pkcs_padded(data), key, iv) {
            Some(out) => Ok(out),
            None => Err(CipherFailure::BadParameters),
        }
    }
}

/// The plaintext of `data`, or the reason why there is none.
pub open spec fn decrypted(data: Seq<u8>, key: Seq<u8>, iv: Seq<u8>) -> Result<
    Seq<u8>,
    CipherFailure,
> {
    if key.len() != KEY_SIZE || iv.len() != BLOCK_SIZE {
        Err(CipherFailure::BadParameters)
    } else if data.len() == 0 || data.len() % 16 != 0 {
        Err(CipherFailure::BadLength)
    } else {
        match aes_cbc_decrypted(data, key, iv) {
            None => Err(CipherFailure::BadLength),
            Some(blocks) => match pkcs_unpadded(blocks) {
                Some(plain) => Ok(plain),
                None => Err(CipherFailure::BadPadding),
            },
        }
    }
}

/// Adds PKCS padding to `data`.
pub fn pad(data: &[u8]) -> (out: Vec<u8>)
    ensures
        out@ == pkcs_padded(data@),
        out@.len() == (data@.len() / 16 + 1) * 16,
{
    let mut out = slice_to_vec(data);
    let n: usize = 16 - data.len() % 16;
    let mut i: usize = 0;
    while i < n
        invariant
            n == padding_len(data@.len()),
            1 <= n <= 16,
            i <= n,
            out@ == data@ + Seq::new(i as nat, |j: int| n as u8),
        decreases n - i,
    {
        out.push(n as u8);
        i += 1;
        proof {
            assert(out@ == data@ + Seq::new(i as nat, |j: int| n as u8));
        }
    }
    proof {
        lemma_unpad_undoes_pad(data@);
    }
    out
}

/// Takes the PKCS padding off `blocks`.
pub fn unpad(blocks: Vec<u8>) -> (res: Result<Vec<u8>, CulperError>)
    ensures
        match pkcs_unpadded(blocks@) {
            Some(plain) => res matches Ok(out) && out@ == plain,
            None => res == Err::<Vec<u8>, CulperError>(CulperError::CipherError(CipherFailure::BadPadding)),
        },
{
    let len = blocks.len();
    if len == 0 || len % 16 != 0 {
        return Err(CulperError::CipherError(CipherFailure::BadPadding));
    }
    let last = blocks[len - 1];
    if last < 1 || last > 16 {
        return Err(CulperError::CipherError(CipherFailure::BadPadding));
    }
    let n: usize = last as usize;
    let mut i: usize = len - n;
    while i < len
        invariant
            len == blocks@.len(),
            len > 0,
            len % 16 == 0,
            last == blocks@.last(),
            n == last,
            1 <= n <= 16,
            len - n <= i <= len,
            forall|j: int| len - n <= j < i ==> #[trigger] blocks@[j] == last,
        decreases len - i,
    {
        if blocks[i] != last {
            return Err(CulperError::CipherError(CipherFailure::BadPadding));
        }
        i += 1;
    }
    let mut out = blocks;
    out.truncate(len - n);
    Ok(out)
}

/// Encrypts a buffer with the given key and iv using AES-256/CBC with
/// PKCS padding.
///
/// The ciphertext is one to sixteen bytes longer than the buffer, and
/// [`decrypt`] with the same key and iv gives the buffer back.
pub fn encrypt(data: &[u8], key: &[u8], iv: &[u8]) -> (res: Result<Vec<u8>, CulperError>)
    ensures
        match encrypted(data@, key@, iv@) {
            Ok(out) => res matches Ok(v) && v@ == out,
            Err(failure) => res == Err::<Vec<u8>, CulperError>(CulperError::CipherError(failure)),
        },
        key@.len() == KEY_SIZE && iv@.len() == BLOCK_SIZE ==> res is Ok,
        res matches Ok(v) ==> v@.len() == (data@.len() / 16 + 1) * 16 && decrypted(v@, key@, iv@)
            == Ok::<Seq<u8>, CipherFailure>(data@),
{
    if key.len() != KEY_SIZE || iv.len() != BLOCK_SIZE {
        return Err(CulperError::CipherError(CipherFailure::BadParameters));
    }
    let padded = pad(data);
    proof {
        lemma_unpad_undoes_pad(data@);
    }
    match aes_cbc_encrypt_blocks(padded.as_slice(), key, iv) {
        Some(out) => Ok(out),
        None => Err(CulperError::CipherError(CipherFailure::BadParameters)),
    }
}

/// Decrypts a buffer with the given key and iv using AES-256/CBC with
/// PKCS padding.
///
/// A buffer that is empty or no whole number of blocks, and a plaintext
/// that does not end in valid padding, are refused.
pub fn decrypt(encrypted_data: &[u8], key: &[u8], iv: &[u8]) -> (res: Result<Vec<u8>, CulperError>)
    ensures
        match decrypted(encrypted_data@, key@, iv@) {
            Ok(plain) => res matches Ok(v) && v@ == plain,
            Err(failure) => res == Err::<Vec<u8>, CulperError>(CulperError::CipherError(failure)),
        },
        key@.len() == KEY_SIZE && iv@.len() == BLOCK_SIZE && encrypted_data@.len() > 0
            && encrypted_data@.len() % 16 == 0 ==> res is Ok || res == Err::<Vec<u8>, CulperError>(
            CulperError::CipherError(CipherFailure::BadPadding),
        ),
{
    if key.len() != KEY_SIZE || iv.len() != BLOCK_SIZE {
        return Err(CulperError::CipherError(CipherFailure::BadParameters));
    }
    if encrypted_data.len() == 0 || encrypted_data.len() % 16 != 0 {
        return Err(CulperError::CipherError(CipherFailure::BadLength));
    }
    match aes_cbc_decrypt_blocks(encrypted_data, key, iv) {
        Some(blocks) => unpad(blocks),
        None => Err(CulperError::CipherError(CipherFailure::BadLength)),
    }
}

/// The key for a password and a salt: scrypt with N = 2^14, r = 8 and
/// p = 1, 32 bytes long.
pub fn derive_key(password: &str, salt: &[u8]) -> (key: [u8; 32])
    ensures
        key@ == derived_key(password@, salt@),
{
    scrypt_derive(password.as_bytes(), salt, SCRYPT_LOG_N, SCRYPT_R, SCRYPT_P)
}

/// A fresh salt from the operating system's random number generator.
///
/// Two calls give two salts; the only failure is that of the generator.
pub fn create_iv() -> (res: Result<[u8; 16], CulperError>)
    ensures
        res matches Err(e) ==> e is RuntimeError && e.words() == Some("No random salt could be drawn."@),
{
    match os_random_block() {
        Ok(iv) => Ok(iv),
        Err(_) => Err(CulperError::RuntimeError(String::from_str("No random salt could be drawn."))),
    }
}

/// A fresh salt and the key that the password gives with it.
pub fn build_vault_payload(password: &str) -> (res: Result<([u8; 16], [u8; 32]), CulperError>)
    ensures
        match res {
            Ok((iv, key)) => key@ == derived_key(password@, iv@),
            Err(e) => e is RuntimeError && e.words() == Some("No random salt could be drawn."@),
        },
{
    match create_iv() {
        Ok(iv) => {
            let key = derive_key(password, iv.as_slice());
            Ok((iv, key))
        },
        Err(e) => Err(e),
    }
}

/// The envelope that sealing `plain` under `password` with `salt` gives.
pub open spec fn sealed_with(plain: Seq<char>, password: Seq<char>, salt: Seq<u8>) -> Result<
    Envelope,
    CipherFailure,
> {
    match encrypted(encode_utf8(plain), derived_key(password, salt), salt) {
        Ok(payload) => Ok(
            Envelope { format: EncryptionFormat::CKM_AES_CBC_PAD, salt: Some(salt), payload },
        ),
        Err(failure) => Err(failure),
    }
}

/// The secret that `password` opens `envelope` to, or the reason why it
/// does not.
pub open spec fn opened(envelope: Envelope, password: Seq<char>) -> Result<Seq<char>, CipherFailure> {
    if envelope.format != EncryptionFormat::CKM_AES_CBC_PAD {
        Err(CipherFailure::BadParameters)
    } else {
        match envelope.salt {
            None => Err(CipherFailure::BadSalt),
            Some(salt) => if salt.len() != BLOCK_SIZE {
                Err(CipherFailure::BadSalt)
            } else {
                match decrypted(envelope.payload, derived_key(password, salt), salt) {
                    Err(failure) => Err(failure),
                    Ok(bytes) => if valid_utf8(bytes) {
                        Ok(decode_utf8(bytes))
                    } else {
                        Err(CipherFailure::BadText)
                    },
                }
            },
        }
    }
}

/// Seals `plain` under `password` with the given salt.
pub fn seal_with_salt(plain: &str, password: &str, salt: &[u8]) -> (res: Result<SealedVault, CulperError>)
    ensures
        match sealed_with(plain@, password@, salt@) {
            Ok(envelope) => res matches Ok(vault) && vault@ == envelope,
            Err(failure) => res == Err::<SealedVault, CulperError>(CulperError::CipherError(failure)),
        },
        salt@.len() == BLOCK_SIZE ==> res is Ok,
        res matches Ok(vault) ==> vault@.wf() && opened(vault@, password@) == Ok::<
            Seq<char>,
            CipherFailure,
        >(plain@),
{
    let key = derive_key(password, salt);
    proof {
        encode_utf8_valid_utf8(plain@);
        encode_utf8_decode_utf8(plain@);
    }
    match encrypt(plain.as_bytes(), key.as_slice(), salt) {
        Ok(secret) => Ok(
            SealedVault {
                secret,
                salt: Some(slice_to_vec(salt)),
                format: EncryptionFormat::CKM_AES_CBC_PAD,
            },
        ),
        Err(e) => Err(e),
    }
}

/// Whether `res` is what sealing `plain` under `password` with some
/// freshly drawn salt gives: the envelope of that salt, or the failure to
/// draw a salt.
pub open spec fn sealed_afresh(
    plain: Seq<char>,
    password: Seq<char>,
    res: Result<SealedVault, CulperError>,
) -> bool {
    match res {
        Ok(sealed) => sealed@.salt matches Some(salt) && salt.len() == BLOCK_SIZE && sealed_with(
            plain,
            password,
            salt,
        ) == Ok::<Envelope, CipherFailure>(sealed@),
        Err(e) => e is RuntimeError && e.words() == Some("No random salt could be drawn."@),
    }
}

/// Seals a secret under a password, with a salt drawn for this call.
///
/// Whatever salt was drawn, the envelope that comes back is the one that
/// the password and that salt give, and the same password opens it to the
/// same secret. The call fails only where no salt can be drawn.
pub fn seal(vault: UnsealedVault, password: &str) -> (res: Result<SealedVault, CulperError>)
    ensures
        sealed_afresh(vault@.secret, password@, res),
        res matches Ok(sealed) ==> {
            &&& sealed@.format == EncryptionFormat::CKM_AES_CBC_PAD
            &&& sealed@.wf()
            &&& opened(sealed@, password@) == Ok::<Seq<char>, CipherFailure>(vault@.secret)
        },
{
    match create_iv() {
        Ok(iv) => {
            proof {
                assert(iv@.len() == BLOCK_SIZE);
            }
            seal_with_salt(vault.plain_secret.as_str(), password, iv.as_slice())
        },
        Err(e) => Err(e),
    }
}

/// Opens an envelope of the password-based format.
pub fn unseal(vault: SealedVault, password: &str) -> (res: Result<UnsealedVault, CulperError>)
    ensures
        match opened(vault@, password@) {
            Ok(secret) => res matches Ok(plain) && plain@ == (Plain {
                secret,
                format: EncryptionFormat::CKM_AES_CBC_PAD,
            }),
            Err(failure) => res == Err::<UnsealedVault, CulperError>(CulperError::CipherError(failure)),
        },
{
    if vault.format != EncryptionFormat::CKM_AES_CBC_PAD {
        return Err(CulperError::CipherError(CipherFailure::BadParameters));
    }
    let salt = match vault.salt {
        Some(salt) => salt,
        None => {
            return Err(CulperError::CipherError(CipherFailure::BadSalt));
        },
    };
    if salt.len() != BLOCK_SIZE {
        return Err(CulperError::CipherError(CipherFailure::BadSalt));
    }
    let key = derive_key(password, salt.as_slice());
    match decrypt(vault.secret.as_slice(), key.as_slice(), salt.as_slice()) {
        Ok(bytes) => match text_from_utf8(bytes) {
            Some(plain_secret) => Ok(
                UnsealedVault { plain_secret, format: EncryptionFormat::CKM_AES_CBC_PAD },
            ),
            None => Err(CulperError::CipherError(CipherFailure::BadText)),
        },
        Err(e) => Err(e),
    }
}

/// Seals and opens vaults of the password-based format with one
/// password.
pub struct PasswordVaultHandler {
    password: String,
}

impl PasswordVaultHandler {
    /// The password of the handler.
    pub closed spec fn password(&self) -> Seq<char> {
        self.password@
    }

    pub fn new(password: String) -> (handler: PasswordVaultHandler)
        ensures
            handler.password() == password@,
    {
        PasswordVaultHandler { password }
    }
}

impl VaultHandler for PasswordVaultHandler {
    /// Seals the vault under the handler's password, as [`seal`] does.
    fn encrypt(&self, vault: UnsealedVault) -> (res: Result<SealedVault, CulperError>)
        ensures
            sealed_afresh(vault@.secret, self.password(), res),
            res matches Ok(sealed) ==> {
                &&& sealed@.format == EncryptionFormat::CKM_AES_CBC_PAD
                &&& sealed@.wf()
                &&& opened(sealed@, self.password()) == Ok::<Seq<char>, CipherFailure>(
                    vault@.secret,
                )
            },
    {
        seal(vault, self.password.as_str())
    }

    /// Opens the vault with the handler's password, as [`unseal`] does.
    fn decrypt(&self, vault: SealedVault) -> (res: Result<UnsealedVault, CulperError>)
        ensures
            match opened(vault@, self.password()) {
                Ok(secret) => res matches Ok(plain) && plain@ == (Plain {
                    secret,
                    format: EncryptionFormat::CKM_AES_CBC_PAD,
                }),
                Err(failure) => res == Err::<UnsealedVault, CulperError>(
                    CulperError::CipherError(failure),
                ),
            },
    {
        unseal(vault, self.password.as_str())
    }
}

} // verus!
