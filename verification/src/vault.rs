//! Encryption of an index with a key that is derived from a PIN.
use crate::calls;
use vstd::prelude::*;

verus! {

/// The key that Argon2id with its default parameters derives from a password and a salt.
pub uninterp spec fn argon2_key(password: Seq<u8>, salt: Seq<u8>) -> Seq<u8>;

/// Derives a key of 32 bytes.
///
/// Calls `Argon2::hash_password_into` of the default instance. It refuses a salt of fewer than
/// eight bytes and a salt or password of more than 0xffffffff; it can also fail for want of
/// memory, so of other input only the key that success gives is claimed. The text of a failure
/// is left open.
#[verifier::external_body]
pub(crate) fn derive_key(password: &[u8], salt: &[u8]) -> (r: Result<Vec<u8>, String>)
    ensures
        r is Ok ==> r->Ok_0@ == argon2_key(password@, salt@) && r->Ok_0@.len() == 32,
        salt@.len() < 8 ==> r is Err,
        salt@.len() > 0xffff_ffff ==> r is Err,
        password@.len() > 0xffff_ffff ==> r is Err,
{
    let mut key = vec![0u8; 32];
    argon2::Argon2::default()
        .hash_password_into(password, salt, &mut key)
        .map(|_| key)
        .map_err(|e| e.to_string())
}

/// What AES-256-GCM makes of a plain text, its tag at the end, without associated data.
pub uninterp spec fn gcm_sealed(key: Seq<u8>, nonce: Seq<u8>, plain: Seq<u8>) -> Seq<u8>;

/// The plain text that AES-256-GCM finds in a sealed one, if that is authentic.
pub uninterp spec fn gcm_opened(key: Seq<u8>, nonce: Seq<u8>, sealed: Seq<u8>) -> Option<Seq<u8>>;

/// The longest text that AES-GCM encrypts.
pub const MAX_PLAIN: u64 = 0xf_ffff_ffe0;

/// Encrypts and authenticates a text.
///
/// Calls `Aead::encrypt` of `aes_gcm::Aes256Gcm`, which appends a tag of 16 bytes and fails
/// exactly if the text is longer than `MAX_PLAIN`. Opened with the same key and nonce, the
/// result gives the text again.
#[verifier::external_body]
fn seal(key: &[u8], nonce: &[u8], plain: &[u8]) -> (r: Option<Vec<u8>>)
    requires
        key@.len() == 32,
        nonce@.len() == 12,
    ensures
        r is Some <==> plain@.len() <= MAX_PLAIN,
        r is Some ==> r->0@ == gcm_sealed(key@, nonce@, plain@),
        r is Some ==> r->0@.len() == plain@.len() + 16,
        r is Some ==> gcm_opened(key@, nonce@, r->0@) == Some(plain@),
{
    let key = aes_gcm::Key::<aes_gcm::Aes256Gcm>::try_from(key).unwrap();
    let nonce = aes_gcm::Nonce::try_from(nonce).unwrap();
    let cipher = <aes_gcm::Aes256Gcm as aes_gcm::KeyInit>::new(&key);
    aes_gcm::aead::Aead::encrypt(&cipher, &nonce, plain).ok()
}

/// Decrypts a text if it is authentic.
///
/// Calls `Aead::decrypt` of `aes_gcm::Aes256Gcm`. What it finds depends on the key, the nonce
/// and the text alone; a text shorter than the tag is never authentic.
#[verifier::external_body]
fn open(key: &[u8], nonce: &[u8], sealed: &[u8]) -> (r: Option<Vec<u8>>)
    requires
        key@.len() == 32,
        nonce@.len() == 12,
    ensures
        r is Some <==> gcm_opened(key@, nonce@, sealed@) is Some,
        r is Some ==> r->0@ == gcm_opened(key@, nonce@, sealed@)->0,
        r is Some ==> sealed@.len() == r->0@.len() + 16,
{
    let key = aes_gcm::Key::<aes_gcm::Aes256Gcm>::try_from(key).unwrap();
    let nonce = aes_gcm::Nonce::try_from(nonce).unwrap();
    let cipher = <aes_gcm::Aes256Gcm as aes_gcm::KeyInit>::new(&key);
    aes_gcm::aead::Aead::decrypt(&cipher, &nonce, sealed).ok()
}

/// Random bytes.
///
/// Calls `RngExt::fill` of `rand::rng()`. Only their number is claimed.
#[verifier::external_body]
pub(crate) fn random_bytes(n: usize) -> (r: Vec<u8>)
    ensures
        r@.len() == n,
{
    let mut bytes = vec![0u8; n];
    rand::RngExt::fill(&mut rand::rng(), &mut bytes[..]);
    bytes
}

/// Whether deriving a key from this password and salt failed with this message.
pub closed spec fn is_refused(password: Seq<u8>, salt: Seq<u8>, message: String) -> bool {
    exists|p: &[u8], s: &[u8]|
        p@ == password && s@ == salt && #[trigger] call_ensures(
            derive_key,
            (p, s),
            Err::<Vec<u8>, String>(message),
        )
}

/// Whether these bytes were drawn at random, all of them in one draw.
pub closed spec fn is_drawn(bytes: Seq<u8>) -> bool {
    exists|n: usize, v: Vec<u8>|
        v@ == bytes && n == bytes.len() && #[trigger] call_ensures(random_bytes, (n,), v)
}

/// A key is refused only where its derivation, asked for this very password and salt, said so.
pub(crate) proof fn law_refusal_comes_from_the_derivation(
    password: Seq<u8>,
    salt: Seq<u8>,
    message: String,
)
    requires
        is_refused(password, salt, message),
    ensures
        exists|p: &[u8], s: &[u8]|
            p@ == password && s@ == salt && #[trigger] call_ensures(
                derive_key,
                (p, s),
                Err::<Vec<u8>, String>(message),
            ),
{
}

/// Bytes count as drawn only where the source of randomness gave just them.
pub(crate) proof fn law_draws_come_from_the_source(bytes: Seq<u8>)
    requires
        is_drawn(bytes),
    ensures
        exists|n: usize, v: Vec<u8>|
            v@ == bytes && n == bytes.len() && #[trigger] call_ensures(random_bytes, (n,), v),
{
}

/// An encrypted index, and what is needed besides the PIN to open it.
#[derive(Debug)]
pub struct Sealed {
    pub bytes: Vec<u8>,
    pub nonce: Vec<u8>,
    pub salt: Vec<u8>,
}

/// Why an index could not be encrypted or decrypted.
#[derive(Debug)]
pub enum VaultError {
    /// No key could be derived from the PIN.
    KeyDerivation(String),
    /// The index is too long to be encrypted.
    TooLong,
    /// The nonce does not have twelve bytes.
    NonceLength,
    /// The bytes were not encrypted with this PIN, salt and nonce, or were changed since.
    Inauthentic,
}

impl VaultError {
    /// What is told to the user.
    pub open spec fn spec_message(&self) -> Seq<char> {
        match self {
            VaultError::KeyDerivation(message) => message@,
            VaultError::NonceLength => "could not convert slice to array"@,
            _ => "aead::Error"@,
        }
    }

    /// What is told to the user.
    pub fn message(&self) -> (r: String)
        ensures
            r@ == self.spec_message(),
    {
        match self {
            VaultError::KeyDerivation(message) => message.clone(),
            VaultError::NonceLength => "could not convert slice to array".to_owned(),
            _ => "aead::Error".to_owned(),
        }
    }
}

/// Whether `sealed` holds `json`, encrypted with `key`, and opens again.
pub open spec fn is_sealed_with(sealed: Sealed, json: Seq<u8>, key: Seq<u8>) -> bool {
    &&& sealed.nonce@.len() == 12
    &&& sealed.bytes@ == gcm_sealed(key, sealed.nonce@, json)
    &&& sealed.bytes@.len() == json.len() + 16
    &&& gcm_opened(key, sealed.nonce@, sealed.bytes@) == Some(json)
}

/// Whether `sealed` holds `json`, encrypted with `pin`, and opens again.
pub open spec fn is_sealed(sealed: Sealed, json: Seq<u8>, pin: Seq<char>) -> bool {
    is_sealed_with(sealed, json, argon2_key(vstd::utf8::encode_utf8(pin), sealed.salt@))
}

/// Encrypts `json` with a derived key; `salt` is what the key was derived with.
pub fn seal_with(
    json: &[u8],
    key: Result<Vec<u8>, String>,
    salt: Vec<u8>,
    nonce: Vec<u8>,
) -> (r: Result<Sealed, VaultError>)
    requires
        key is Ok ==> key->Ok_0@.len() == 32,
        nonce@.len() == 12,
    ensures
        match key {
            Err(message) => r == Err::<Sealed, VaultError>(VaultError::KeyDerivation(message)),
            Ok(k) => if json@.len() > MAX_PLAIN {
                r == Err::<Sealed, VaultError>(VaultError::TooLong)
            } else {
                &&& r is Ok
                &&& r->Ok_0.salt@ == salt@
                &&& r->Ok_0.nonce@ == nonce@
                &&& is_sealed_with(r->Ok_0, json@, k@)
            },
        },
{
    match key {
        Err(message) => Err(VaultError::KeyDerivation(message)),
        Ok(k) => match seal(k.as_slice(), nonce.as_slice(), json) {
            Some(bytes) => Ok(Sealed { bytes, nonce, salt }),
            None => Err(VaultError::TooLong),
        },
    }
}

/// Encrypts an index with the PIN of this device, under a fresh salt and a fresh nonce.
pub fn encrypting_json(json: &[u8]) -> (r: Result<Sealed, VaultError>)
    ensures
        match r {
            Ok(sealed) => {
                &&& json@.len() <= MAX_PLAIN
                &&& sealed.salt@.len() == 16
                &&& is_drawn(sealed.salt@)
                &&& is_drawn(sealed.nonce@)
                &&& is_sealed(sealed, json@, "1234"@)
            },
            Err(VaultError::KeyDerivation(message)) => exists|salt: Seq<u8>|
                salt.len() == 16 && is_drawn(salt) && #[trigger] is_refused(
                    vstd::utf8::encode_utf8("1234"@),
                    salt,
                    message,
                ),
            Err(e) => e is TooLong && json@.len() > MAX_PLAIN,
        },
{
    let salt = calls::call1(random_bytes, 16usize);
    let nonce = calls::call1(random_bytes, 12usize);
    let pin: &str = "1234";
    let key = calls::call2(derive_key, pin.as_bytes(), salt.as_slice());
    proof {
        assert(is_drawn(salt@));
        assert(is_drawn(nonce@));
        if key is Err {
            assert(is_refused(vstd::utf8::encode_utf8("1234"@), salt@, key->Err_0));
        }
        assert(pin@ == "1234"@);
        assert(key is Ok ==> key->Ok_0@ == argon2_key(vstd::utf8::encode_utf8("1234"@), salt@));
    }
    let ghost drawn = salt@;
    let r = seal_with(json, key, salt, nonce);
    proof {
        if r is Ok {
            assert(is_drawn(r->Ok_0.salt@) && is_drawn(r->Ok_0.nonce@));
            assert(is_sealed(r->Ok_0, json@, "1234"@));
        } else if r->Err_0 is KeyDerivation {
            assert(is_refused(
                vstd::utf8::encode_utf8("1234"@),
                drawn,
                r->Err_0->KeyDerivation_0,
            ));
        }
    }
    r
}

/// Whether `r` is what decrypting with a derived key gives.
pub open spec fn opens_to(
    key: Result<Vec<u8>, String>,
    nonce: Seq<u8>,
    encrypted: Seq<u8>,
    r: Result<Vec<u8>, VaultError>,
) -> bool {
    match key {
        Err(message) => r == Err::<Vec<u8>, VaultError>(VaultError::KeyDerivation(message)),
        Ok(k) => if nonce.len() != 12 {
            r == Err::<Vec<u8>, VaultError>(VaultError::NonceLength)
        } else {
            match gcm_opened(k@, nonce, encrypted) {
                Some(plain) => r is Ok && r->Ok_0@ == plain,
                None => r == Err::<Vec<u8>, VaultError>(VaultError::Inauthentic),
            }
        },
    }
}

/// Decrypts with a derived key.
pub fn open_with(key: Result<Vec<u8>, String>, nonce: &[u8], encrypted: &[u8]) -> (r: Result<
    Vec<u8>,
    VaultError,
>)
    requires
        key is Ok ==> key->Ok_0@.len() == 32,
    ensures
        opens_to(key, nonce@, encrypted@, r),
{
    match key {
        Err(message) => Err(VaultError::KeyDerivation(message)),
        Ok(k) => if nonce.len() != 12 {
            Err(VaultError::NonceLength)
        } else {
            match open(k.as_slice(), nonce, encrypted) {
                Some(plain) => Ok(plain),
                None => Err(VaultError::Inauthentic),
            }
        },
    }
}

/// Whether `r` is what decrypting with a PIN gives: either the derivation refused a key for this
/// PIN and salt, or the derived key decides.
pub open spec fn decrypts_to(
    encrypted: Seq<u8>,
    salt: Seq<u8>,
    nonce: Seq<u8>,
    pin: Seq<char>,
    r: Result<Vec<u8>, VaultError>,
) -> bool {
    if r is Err && r->Err_0 is KeyDerivation {
        is_refused(vstd::utf8::encode_utf8(pin), salt, r->Err_0->KeyDerivation_0)
    } else {
        let key = argon2_key(vstd::utf8::encode_utf8(pin), salt);
        &&& 8 <= salt.len() <= 0xffff_ffff
        &&& vstd::utf8::encode_utf8(pin).len() <= 0xffff_ffff
        &&& if nonce.len() != 12 {
            r == Err::<Vec<u8>, VaultError>(VaultError::NonceLength)
        } else {
            match gcm_opened(key, nonce, encrypted) {
                Some(plain) => r is Ok && r->Ok_0@ == plain,
                None => r == Err::<Vec<u8>, VaultError>(VaultError::Inauthentic),
            }
        }
    }
}

/// Decrypts an index with the PIN that the user gives.
pub fn decrypt_json(encrypted_bytes: &[u8], salt: &[u8], nonce_bytes: &[u8], pin: &str) -> (r:
    Result<Vec<u8>, VaultError>)
    ensures
        decrypts_to(encrypted_bytes@, salt@, nonce_bytes@, pin@, r),
{
    let key = calls::call2(derive_key, pin.as_bytes(), salt);
    proof {
        if key is Err {
            assert(is_refused(vstd::utf8::encode_utf8(pin@), salt@, key->Err_0));
        }
    }
    open_with(key, nonce_bytes, encrypted_bytes)
}

/// An encrypted index of any length opens with the PIN that it was encrypted with, and gives the
/// very bytes that were encrypted, unless the derivation refuses a key for that PIN and salt.
pub proof fn law_sealed_index_opens(
    sealed: Sealed,
    json: Seq<u8>,
    pin: Seq<char>,
    r: Result<Vec<u8>, VaultError>,
)
    requires
        is_sealed(sealed, json, pin),
        decrypts_to(sealed.bytes@, sealed.salt@, sealed.nonce@, pin, r),
    ensures
        r is Err ==> r->Err_0 is KeyDerivation,
        r is Err ==> is_refused(
            vstd::utf8::encode_utf8(pin),
            sealed.salt@,
            r->Err_0->KeyDerivation_0,
        ),
        r is Ok ==> r->Ok_0@ == json,
{
}

/// Whether a key is refused has nothing to do with what is to be decrypted: where one text fails
/// for want of a key, every other text may fail so under the same PIN and salt.
pub proof fn law_refusal_is_about_pin_and_salt(
    encrypted: Seq<u8>,
    nonce: Seq<u8>,
    other: Seq<u8>,
    other_nonce: Seq<u8>,
    salt: Seq<u8>,
    pin: Seq<char>,
    r: Result<Vec<u8>, VaultError>,
)
    requires
        decrypts_to(encrypted, salt, nonce, pin, r),
        r is Err && r->Err_0 is KeyDerivation,
    ensures
        decrypts_to(other, salt, other_nonce, pin, r),
{
}

/// Where the key of a PIN and a salt is derived, decryption tells exactly what AES-GCM finds
/// under that key; only a nonce that does not have twelve bytes stands in the way.
pub proof fn law_derived_key_decides(
    encrypted: Seq<u8>,
    salt: Seq<u8>,
    nonce: Seq<u8>,
    pin: Seq<char>,
    r: Result<Vec<u8>, VaultError>,
)
    requires
        decrypts_to(encrypted, salt, nonce, pin, r),
        !(r is Err && r->Err_0 is KeyDerivation),
    ensures
        nonce.len() != 12 <==> (r is Err && r->Err_0 is NonceLength),
        nonce.len() == 12 ==> match gcm_opened(
            argon2_key(vstd::utf8::encode_utf8(pin), salt),
            nonce,
            encrypted,
        ) {
            Some(plain) => r is Ok && r->Ok_0@ == plain,
            None => r is Err && r->Err_0 is Inauthentic,
        },
{
}

/// What is sealed is the whole text: its sealed form is what AES-GCM makes of it under the key of
/// the PIN and the salt, sixteen bytes longer, and opens to it again.
pub proof fn law_whole_text_is_sealed(sealed: Sealed, json: Seq<u8>, pin: Seq<char>)
    requires
        is_sealed(sealed, json, pin),
    ensures
        sealed.nonce@.len() == 12,
        sealed.bytes@ == gcm_sealed(
            argon2_key(vstd::utf8::encode_utf8(pin), sealed.salt@),
            sealed.nonce@,
            json,
        ),
        sealed.bytes@.len() == json.len() + 16,
        gcm_opened(
            argon2_key(vstd::utf8::encode_utf8(pin), sealed.salt@),
            sealed.nonce@,
            sealed.bytes@,
        ) == Some(json),
{
}

/// What is told of a failure: the derivation's own words, or those of the cipher.
pub proof fn law_vault_errors_tell_their_cause(message: String)
    ensures
        VaultError::KeyDerivation(message).spec_message() == message@,
        VaultError::NonceLength.spec_message() == "could not convert slice to array"@,
        VaultError::Inauthentic.spec_message() == "aead::Error"@,
        VaultError::TooLong.spec_message() == "aead::Error"@,
{
}

/// The longest text that is encrypted is just under 64 gibibytes long.
pub proof fn law_longest_text()
    ensures
        MAX_PLAIN == 64 * 0x4000_0000 - 32,
{
}

} // verus!
