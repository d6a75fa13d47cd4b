//! Who this device is: its name and its certificate.
use crate::calls;
use crate::config;
use crate::error::AppError;
use crate::text;
use vstd::prelude::*;

verus! {

/// The kinds of system that a device can run.
#[derive(Clone, Copy, Debug, PartialEq, Eq, Structural)]
pub enum SystemKind {
    /// Windows, Linux or macOS.
    Desktop,
    Android,
    Other,
}

/// The name that the system gives to this device, where it tells one.
///
/// Calls `whoami::devicename`. The name depends on the machine, so nothing is claimed of it.
#[verifier::external_body]
pub(crate) fn system_device_name() -> (r: Option<String>)
{
    whoami::devicename().ok()
}

/// The name of the operating system.
///
/// Calls `whoami::platform` and shows the platform. Each name that it can show is at least one
/// character long and none is `localhost`; which one it is depends on the machine.
#[verifier::external_body]
pub(crate) fn system_platform() -> (r: String)
    ensures
        r@.len() > 0,
        r@ != "localhost"@,
{
    whoami::platform().to_string()
}

/// The name that the system tells: what it gives, or `Desktop-Unknown`.
pub open spec fn told_name(told: Option<String>) -> Seq<char> {
    match told {
        Some(name) => name@,
        None => "Desktop-Unknown"@,
    }
}

/// Whether a name says nothing about the device.
pub open spec fn is_meaningless(name: Seq<char>) -> bool {
    name == "localhost"@ || name.len() == 0
}

proof fn lemma_unknown_name()
    ensures
        !is_meaningless("Desktop-Unknown"@),
{
    reveal_strlit("Desktop-Unknown");
    reveal_strlit("localhost");
    assert("Desktop-Unknown"@.len() == 15);
    assert("localhost"@.len() == 9);
}

/// The name that the system tells, unless it says nothing about the device.
pub fn meaningful_name(told: Option<String>) -> (r: Option<String>)
    ensures
        match r {
            Some(name) => name@ == told_name(told) && !is_meaningless(name@),
            None => is_meaningless(told_name(told)),
        },
{
    let name: String = match told {
        Some(name) => name,
        None => "Desktop-Unknown".to_owned(),
    };
    if !text::text_eq(name.as_str(), "localhost") && !name.as_str().is_empty() {
        Some(name)
    } else {
        None
    }
}

/// The name of a desktop: what its system tells, or the name of its platform where that says
/// nothing.
pub fn desktop_name(told: Option<String>, platform: String) -> (r: String)
    ensures
        r@ == if is_meaningless(told_name(told)) {
            platform@
        } else {
            told_name(told)
        },
{
    match meaningful_name(told) {
        Some(name) => name,
        None => platform,
    }
}

/// Whether the system, asked for the name of this device and for its platform, told these.
pub closed spec fn is_told(told: Option<String>, platform: String) -> bool {
    &&& call_ensures(system_device_name, (), told)
    &&& call_ensures(system_platform, (), platform)
}

/// What the system told is what came of asking it.
pub(crate) proof fn law_names_come_from_the_system(told: Option<String>, platform: String)
    requires
        is_told(told, platform),
    ensures
        call_ensures(system_device_name, (), told),
        call_ensures(system_platform, (), platform),
{
}

/// Whether `name` is the name of a device whose user has not chosen one: on a desktop the whole
/// name that the system tells, or `Desktop-Unknown` where it tells none, or the name of the
/// platform where the system tells an empty name or `localhost`; elsewhere a fixed name.
pub open spec fn is_fallback_name(system: SystemKind, name: Seq<char>) -> bool {
    match system {
        SystemKind::Desktop => exists|told: Option<String>, platform: String| #[trigger]
            is_told(told, platform) && name == match told {
                Some(n) => if n@ == "localhost"@ || n@.len() == 0 {
                    platform@
                } else {
                    n@
                },
                None => "Desktop-Unknown"@,
            },
        SystemKind::Android => name == "Android Device"@,
        SystemKind::Other => name == "Generic Device"@,
    }
}

/// The name of a device whose user has not chosen one: on a desktop what the system tells,
/// and the name of the platform where that says nothing; elsewhere a fixed name.
pub fn get_fallback_device_name(system: SystemKind) -> (r: String)
    ensures
        system == SystemKind::Desktop ==> !is_meaningless(r@),
        system == SystemKind::Android ==> r@ == "Android Device"@,
        system == SystemKind::Other ==> r@ == "Generic Device"@,
        is_fallback_name(system, r@),
{
    match system {
        SystemKind::Desktop => {
            let told = calls::call0(system_device_name);
            let platform = calls::call0(system_platform);
            proof {
                lemma_unknown_name();
                assert(is_told(told, platform));
            }
            desktop_name(told, platform)
        },
        SystemKind::Android => "Android Device".to_owned(),
        SystemKind::Other => "Generic Device".to_owned(),
    }
}

/// Whether `bytes` start like a sequence in DER, as certificates and private keys do.
pub open spec fn starts_sequence(bytes: Seq<u8>) -> bool {
    bytes.len() > 0 && bytes[0] == 0x30
}

/// Whether `part` stands somewhere in `whole`.
pub open spec fn holds_bytes(whole: Seq<u8>, part: Seq<u8>) -> bool {
    exists|i: int|
        0 <= i && i + part.len() <= whole.len() && #[trigger] whole.subrange(i, i + part.len())
            == part
}

/// How many bytes the public key takes at the end of a private key.
pub open spec fn public_key_len() -> int {
    65
}

/// Whether `cert` and `key` are sequences in DER, and the public key that `key` ends in stands
/// in `cert`.
pub open spec fn is_pair(cert: Seq<u8>, key: Seq<u8>) -> bool {
    &&& starts_sequence(cert)
    &&& starts_sequence(key)
    &&& key.len() >= public_key_len()
    &&& holds_bytes(cert, key.skip(key.len() - public_key_len()))
}

/// Whether `name` is no IP address: it has neither a dot nor a colon.
pub open spec fn is_host_name(name: Seq<char>) -> bool {
    !name.contains('.') && !name.contains(':')
}

/// Whether `cert` names each of `names` that is no IP address.
pub open spec fn names_all(cert: Seq<u8>, names: Seq<String>) -> bool {
    forall|i: int|
        0 <= i < names.len() && is_host_name((#[trigger] names[i])@) ==> holds_bytes(
            cert,
            vstd::utf8::encode_utf8(names[i]@),
        )
}

/// A new self-signed certificate for the given names and its private key, both in DER.
///
/// Calls `rcgen::generate_simple_self_signed`, which draws a fresh P-256 key pair; an error
/// comes back as its message. The certificate and the PKCS#8 key are sequences, the public key
/// that the latter ends in stands in the former, and so does each name that is no IP address.
/// What else is in them, and whether drawing fails, depends on chance and is left open.
#[verifier::external_body]
pub(crate) fn generate_self_signed(names: Vec<String>) -> (r: Result<(Vec<u8>, Vec<u8>), String>)
    ensures
        r is Ok ==> is_pair(r->Ok_0.0@, r->Ok_0.1@),
        r is Ok ==> names_all(r->Ok_0.0@, names@),
{
    rcgen::generate_simple_self_signed(names)
        .map(|made| (made.cert.der().to_vec(), made.signing_key.serialize_der()))
        .map_err(|e| e.to_string())
}

/// The names that the certificate of this device is made for.
pub fn certificate_names() -> (r: Vec<String>)
    ensures
        config::view_texts(r@) == seq!["localhost"@],
{
    let mut names: Vec<String> = Vec::new();
    names.push("localhost".to_owned());
    assert(config::view_texts(names@) =~= seq!["localhost"@]);
    names
}

/// The certificate and the private key of this device, and whether they still have to be
/// stored.
#[derive(Debug)]
pub struct Identity {
    pub cert: Vec<u8>,
    pub key: Vec<u8>,
    pub fresh: bool,
}

/// The identity that newly generated bytes make, or the error of generating them.
pub fn fresh_identity(made: Result<(Vec<u8>, Vec<u8>), String>) -> (r: Result<Identity, AppError>)
    ensures
        match made {
            Ok((cert, key)) => r == Ok::<Identity, AppError>(
                (Identity { cert, key, fresh: true }),
            ),
            Err(message) => r == Err::<Identity, AppError>(AppError::NetworkError(message)),
        },
{
    match made {
        Ok((cert, key)) => Ok(Identity { cert, key, fresh: true }),
        Err(message) => Err(AppError::NetworkError(message)),
    }
}

/// Whether a certificate was asked for, for `localhost` and no other name, and this came of it.
pub closed spec fn is_made(made: Result<(Vec<u8>, Vec<u8>), String>) -> bool {
    exists|names: Vec<String>|
        names@.len() == 1 && names@[0]@ == "localhost"@ && #[trigger] call_ensures(
            generate_self_signed,
            (names,),
            made,
        )
}

/// What counts as made is what came of asking for a certificate for `localhost`.
pub(crate) proof fn law_certificates_come_from_the_generator(
    made: Result<(Vec<u8>, Vec<u8>), String>,
)
    requires
        is_made(made),
    ensures
        exists|names: Vec<String>|
            names@.len() == 1 && names@[0]@ == "localhost"@ && #[trigger] call_ensures(
                generate_self_signed,
                (names,),
                made,
            ),
{
}

/// Whether `r` hands on what came of asking for a certificate.
pub open spec fn hands_on(
    made: Result<(Vec<u8>, Vec<u8>), String>,
    r: Result<Identity, AppError>,
) -> bool {
    match made {
        Ok((cert, key)) => {
            &&& r is Ok
            &&& r->Ok_0.cert@ == cert@
            &&& r->Ok_0.key@ == key@
            &&& r->Ok_0.fresh
        },
        Err(message) => r matches Err(AppError::NetworkError(m)) && m@ == message@,
    }
}

/// The identity of this device: the stored one if both its certificate and its key are there,
/// else a new one for `localhost`.
pub fn make_cert_and_key(cert: Option<Vec<u8>>, key: Option<Vec<u8>>) -> (r: Result<
    Identity,
    AppError,
>)
    ensures
        cert is Some && key is Some ==> {
            &&& r matches Ok(id)
            &&& id.cert == cert->0
            &&& id.key == key->0
            &&& !id.fresh
        },
        !(cert is Some && key is Some) ==> match r {
            Ok(id) => {
                &&& id.fresh
                &&& is_pair(id.cert@, id.key@)
                &&& holds_bytes(id.cert@, vstd::utf8::encode_utf8("localhost"@))
            },
            Err(e) => e is NetworkError,
        },
        !(cert is Some && key is Some) ==> exists|made: Result<(Vec<u8>, Vec<u8>), String>|
            #[trigger] is_made(made) && hands_on(made, r),
{
    if let Some(cert) = cert {
        if let Some(key) = key {
            return Ok(Identity { cert, key, fresh: false });
        }
    }
    let names = certificate_names();
    proof {
        reveal_strlit("localhost");
        assert(config::view_texts(names@).len() == 1);
        assert(config::view_texts(names@)[0] == names@[0]@);
        assert(is_host_name(names@[0]@));
    }
    let made = calls::call1(generate_self_signed, names);
    assert(is_made(made));
    let ghost shown = made;
    let r = fresh_identity(made);
    assert(hands_on(shown, r));
    r
}

/// Both the certificate and the key that are stored are used as they are, and nothing is made.
pub proof fn law_stored_identity_is_kept(cert: Vec<u8>, key: Vec<u8>, r: Result<Identity, AppError>)
    requires
        call_ensures(make_cert_and_key, (Some(cert), Some(key)), r),
    ensures
        r is Ok,
        r->Ok_0.cert@ == cert@,
        r->Ok_0.key@ == key@,
        !r->Ok_0.fresh,
{
}

/// Where one of the two is missing, both are made anew; what could not be made is told.
pub proof fn law_missing_identity_is_made(
    cert: Option<Vec<u8>>,
    key: Option<Vec<u8>>,
    r: Result<Identity, AppError>,
)
    requires
        cert is None || key is None,
        call_ensures(make_cert_and_key, (cert, key), r),
    ensures
        exists|made: Result<(Vec<u8>, Vec<u8>), String>| #[trigger]
            is_made(made) && hands_on(made, r),
{
}

/// A name says nothing exactly if it is empty or `localhost`; a desktop that tells another name is
/// called by it, one that tells none is called `Desktop-Unknown`, and else by its platform.
pub proof fn law_name_of_a_desktop(told: Option<String>, platform: String, r: String)
    requires
        call_ensures(desktop_name, (told, platform), r),
    ensures
        told is None ==> r@ == "Desktop-Unknown"@,
        told is Some && told->0@ != "localhost"@ && told->0@.len() > 0 ==> r@ == told->0@,
        told is Some && (told->0@ == "localhost"@ || told->0@.len() == 0) ==> r@ == platform@,
{
    lemma_unknown_name();
}

/// A meaningful name is the one that was told, or `Desktop-Unknown` where none was.
pub proof fn law_meaningful_names(told: Option<String>, r: Option<String>)
    requires
        call_ensures(meaningful_name, (told,), r),
    ensures
        told is None ==> r is Some && r->0@ == "Desktop-Unknown"@,
        told is Some && told->0@ != "localhost"@ && told->0@.len() > 0 ==> r is Some && r->0@
            == told->0@,
        told is Some && (told->0@ == "localhost"@ || told->0@.len() == 0) ==> r is None,
{
    lemma_unknown_name();
}

} // verus!
