//! Rules of the links that carry the sessions.

use vstd::prelude::*;

verus! {

/// Where a key or a certificate of a link comes from.
#[derive(Clone, Copy, Debug, PartialEq, Eq, Structural)]
pub enum SecretSource {
    /// The setting holds the secret itself.
    Raw,
    /// The setting holds the secret in base64.
    Base64,
    /// The setting names the file that holds the secret.
    File,
    /// No setting speaks of the secret.
    Missing,
}

/// Picks the source of a secret among the settings that are there: the
/// secret itself before its base64 form, and that before a file.
pub fn secret_source(has_raw: bool, has_base64: bool, has_file: bool) -> (source: SecretSource)
    ensures
        source == (if has_raw {
            SecretSource::Raw
        } else if has_base64 {
            SecretSource::Base64
        } else if has_file {
            SecretSource::File
        } else {
            SecretSource::Missing
        }),
{
    if has_raw {
        SecretSource::Raw
    } else if has_base64 {
        SecretSource::Base64
    } else if has_file {
        SecretSource::File
    } else {
        SecretSource::Missing
    }
}

/// The forms in which a private key is looked for in a file, in this
/// order: the first form in which a key is found is the one that counts.
#[derive(Clone, Copy, Debug, PartialEq, Eq, Structural)]
pub enum KeyForm {
    Rsa,
    Pkcs8,
    Ec,
}

/// The form to take the key from, given how many keys of each form were
/// found; `None` where no key was found at all.
pub fn key_form(rsa_keys: usize, pkcs8_keys: usize, ec_keys: usize) -> (form: Option<KeyForm>)
    ensures
        form == (if rsa_keys > 0 {
            Some(KeyForm::Rsa)
        } else if pkcs8_keys > 0 {
            Some(KeyForm::Pkcs8)
        } else if ec_keys > 0 {
            Some(KeyForm::Ec)
        } else {
            None
        }),
{
    if rsa_keys > 0 {
        Some(KeyForm::Rsa)
    } else if pkcs8_keys > 0 {
        Some(KeyForm::Pkcs8)
    } else if ec_keys > 0 {
        Some(KeyForm::Ec)
    } else {
        None
    }
}

} // verus!
