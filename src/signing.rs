//! The signing key and detached signatures over built binaries.

use vstd::prelude::*;

verus! {

#[verifier::external_type_specification]
#[verifier::external_body]
pub struct ExSecretKey(minisign::SecretKey);

#[verifier::external_type_specification]
#[verifier::external_body]
pub struct ExPError(minisign::PError);

/// Why no signature could be made.
#[derive(Debug, Clone, Copy, PartialEq, Eq, Structural)]
pub enum SigningError {
    /// Neither the command line nor the configuration gives a secret key.
    NoSecretKey,
    /// The secret key does not decode, or does not open with the password.
    InvalidSecretKey,
    /// The verifying key is not a valid base64 public key.
    MalformedPublicKey,
    /// The signing itself failed.
    SigningFailed,
}

/// Whether `PublicKey::from_base64` accepts the text.
pub uninterp spec fn public_key_decodes(s: Seq<char>) -> bool;

/// Whether the secret key box in `text` opens with `password`.
pub uninterp spec fn secret_key_opens(text: Seq<char>, password: Seq<char>) -> bool;

/// Whether the signature box written as text in `sig` verifies for `data` under the
/// public key decoded from `key`, by `minisign::verify` without legacy signatures.
pub uninterp spec fn signature_verifies(key: Seq<char>, data: Seq<u8>, sig: Seq<u8>) -> bool;

/// Relies on `minisign::PublicKey::from_base64`: whether the text decodes depends on
/// the text alone.
#[verifier::external_body]
fn public_key_valid(verifying_key: &str) -> (r: bool)
    ensures
        r == public_key_decodes(verifying_key@),
{
    minisign::PublicKey::from_base64(verifying_key).is_ok()
}

/// Relies on `minisign::SecretKeyBox::into_secret_key` on the box read from the
/// text: the outcome depends on the text and the password alone.
#[verifier::external_body]
fn open_secret_key(text: &str, password: String) -> (r: Result<minisign::SecretKey, minisign::PError>)
    ensures
        r is Ok == secret_key_opens(text@, password@),
{
    minisign::SecretKeyBox::from(text.to_string()).into_secret_key(Some(password))
}

/// Relies on `minisign::sign`, given the public key decoded from `verifying_key`, and
/// on `SignatureBox::to_bytes`: the box is written as text that starts with an
/// untrusted comment line, so it is never empty.
#[verifier::external_body]
fn minisign_sign(verifying_key: &str, sk: &minisign::SecretKey, data: &[u8]) -> (r: Result<
    Vec<u8>,
    minisign::PError,
>)
    ensures
        r is Ok ==> r->Ok_0@.len() > 0,
{
    let pk = minisign::PublicKey::from_base64(verifying_key)?;
    match minisign::sign(Some(&pk), sk, data, None, None) {
        Ok(signature_box) => Ok(signature_box.to_bytes()),
        Err(e) => Err(e),
    }
}

/// Relies on `minisign::verify`, on the public key decoded from `verifying_key` and
/// the signature box read from `signature` as text: the outcome depends on the key
/// text, the data and the signature alone.
#[verifier::external_body]
fn minisign_verify(verifying_key: &str, data: &[u8], signature: &[u8]) -> (r: bool)
    ensures
        r == signature_verifies(verifying_key@, data@, signature@),
{
    let (Ok(pk), Ok(text)) = (
        minisign::PublicKey::from_base64(verifying_key),
        std::str::from_utf8(signature),
    ) else {
        return false;
    };
    match minisign::SignatureBox::from_string(text) {
        Ok(signature_box) => {
            minisign::verify(&pk, &signature_box, std::io::Cursor::new(data), true, false, false).is_ok()
        },
        Err(_) => false,
    }
}

/// The secret key text to use: the one given on the command line wins over the one
/// of the configuration.
pub open spec fn chosen_key(cli: Option<String>, config: Option<String>) -> Option<String> {
    match cli {
        Some(k) => Some(k),
        None => config,
    }
}

/// Opens the process's secret key: the command line's key if given, else the
/// configuration's, decrypted with the password.
pub fn load_secret_key(cli_key: Option<String>, config_key: Option<String>, password: String) -> (r:
    Result<minisign::SecretKey, SigningError>)
    ensures
        match chosen_key(cli_key, config_key) {
            None => r == Err::<minisign::SecretKey, SigningError>(SigningError::NoSecretKey),
            Some(text) => (r is Ok == secret_key_opens(text@, password@)) && (r is Err ==> r
                == Err::<minisign::SecretKey, SigningError>(SigningError::InvalidSecretKey)),
        },
{
    let text = match cli_key {
        Some(k) => k,
        None => match config_key {
            Some(k) => k,
            None => return Err(SigningError::NoSecretKey),
        },
    };
    match open_secret_key(text.as_str(), password) {
        Ok(key) => Ok(key),
        Err(_) => Err(SigningError::InvalidSecretKey),
    }
}

/// Signs a binary with the secret key, as a detached signature that verifies for
/// exactly the file's bytes under the verifying key. The verifying key must be a
/// valid base64 public key, checked before signing; a fresh signature that does not
/// verify under it (the key belongs to another secret key) is a signing failure. A
/// signature is never empty.
pub fn sign_file(verifying_key: &str, secret: &minisign::SecretKey, file: &[u8]) -> (r: Result<
    Vec<u8>,
    SigningError,
>)
    ensures
        !public_key_decodes(verifying_key@) <==> r == Err::<Vec<u8>, SigningError>(
            SigningError::MalformedPublicKey,
        ),
        r is Err ==> r == Err::<Vec<u8>, SigningError>(SigningError::MalformedPublicKey) || r
            == Err::<Vec<u8>, SigningError>(SigningError::SigningFailed),
        r is Ok ==> r->Ok_0@.len() > 0,
        r is Ok ==> signature_verifies(verifying_key@, file@, r->Ok_0@),
{
    if !public_key_valid(verifying_key) {
        return Err(SigningError::MalformedPublicKey);
    }
    match minisign_sign(verifying_key, secret, file) {
        Ok(signature) => if minisign_verify(verifying_key, file, signature.as_slice()) {
            Ok(signature)
        } else {
            Err(SigningError::SigningFailed)
        },
        Err(_) => Err(SigningError::SigningFailed),
    }
}

/// Whether the signing tool answered its help request as expected: with exit code 2.
pub fn check_minisign(exit_code: Option<i32>) -> (r: bool)
    ensures
        r == (exit_code == Some(2i32)),
{
    match exit_code {
        Some(code) => code == 2,
        None => false,
    }
}

} // verus!
