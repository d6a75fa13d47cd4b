//! Trust on first use: whether the certificate of a peer is accepted.
use crate::digest;
use crate::error::AppError;
use crate::peers;
use crate::peers::PeersStorage;
use crate::text;
use vstd::prelude::*;

verus! {

/// A device that asks to be trusted.
#[derive(Debug)]
pub struct PairingRequest {
    pub device_name: String,
    pub fingerprint: String,
}

/// What a pairing request says.
#[verifier::ext_equal]
pub struct RequestView {
    pub device_name: Seq<char>,
    pub fingerprint: Seq<char>,
}

impl View for PairingRequest {
    type V = RequestView;

    open spec fn view(&self) -> RequestView {
        RequestView { device_name: self.device_name@, fingerprint: self.fingerprint@ }
    }
}

impl Clone for PairingRequest {
    fn clone(&self) -> (r: Self)
        ensures
            r@ == self@,
    {
        PairingRequest {
            device_name: self.device_name.clone(),
            fingerprint: self.fingerprint.clone(),
        }
    }
}

/// Whether a certificate is accepted.
#[derive(Debug)]
pub enum Verdict {
    /// The peer is the one that was trusted.
    Trusted,
    /// The trusted devices could not be read.
    Unavailable { message: String },
    /// The peer shows another certificate than the one that was trusted.
    Changed { message: String },
    /// The peer was never trusted; its user can be asked.
    Unknown { message: String, request: PairingRequest },
}

/// What a verdict says.
#[verifier::ext_equal]
pub enum VerdictView {
    Trusted,
    Unavailable { message: Seq<char> },
    Changed { message: Seq<char> },
    Unknown { message: Seq<char>, request: RequestView },
}

impl View for Verdict {
    type V = VerdictView;

    open spec fn view(&self) -> VerdictView {
        match self {
            Verdict::Trusted => VerdictView::Trusted,
            Verdict::Unavailable { message } => VerdictView::Unavailable { message: message@ },
            Verdict::Changed { message } => VerdictView::Changed { message: message@ },
            Verdict::Unknown { message, request } => VerdictView::Unknown {
                message: message@,
                request: request@,
            },
        }
    }
}

/// The verdict on peers whose trust cannot be looked up.
pub open spec fn unavailable(failure: Seq<char>) -> VerdictView {
    VerdictView::Unavailable { message: "Failed to load trusted peers: "@ + failure }
}

/// The verdict on a server that is to be `target` and shows a certificate with this
/// fingerprint: it must be the one trusted under that name.
pub open spec fn server_verdict(
    target: Seq<char>,
    fingerprint: Seq<char>,
    known: Result<Map<Seq<char>, Seq<char>>, Seq<char>>,
) -> VerdictView {
    match known {
        Err(failure) => unavailable(failure),
        Ok(peers) => if !peers.dom().contains(target) {
            VerdictView::Unknown {
                message: "Untrusted server: "@ + target + ". Pairing requested."@,
                request: RequestView { device_name: target, fingerprint },
            }
        } else if peers[target] == fingerprint {
            VerdictView::Trusted
        } else {
            VerdictView::Changed { message: "Host key fingerprint mismatch!"@ }
        },
    }
}

/// The name under which an unknown client asks to be trusted.
pub open spec fn client_name(fingerprint: Seq<char>) -> Seq<char> {
    "Peer-"@ + fingerprint.take(8)
}

/// The verdict on a client that shows a certificate with this fingerprint: it must be
/// trusted under some name.
pub open spec fn client_verdict(
    fingerprint: Seq<char>,
    known: Result<Map<Seq<char>, Seq<char>>, Seq<char>>,
) -> VerdictView {
    match known {
        Err(failure) => unavailable(failure),
        Ok(peers) => if peers::is_known_fingerprint(peers, fingerprint) {
            VerdictView::Trusted
        } else {
            VerdictView::Unknown {
                message: "Untrusted client: "@ + client_name(fingerprint)
                    + ". Pairing requested."@,
                request: RequestView { device_name: client_name(fingerprint), fingerprint },
            }
        },
    }
}

fn failed_to_load(e: &AppError) -> (r: Verdict)
    ensures
        r@ == unavailable(e.spec_message()),
{
    let failure = e.message();
    Verdict::Unavailable {
        message: text::concat("Failed to load trusted peers: ", failure.as_str()),
    }
}

/// Judges servers by the name under which they were trusted.
#[derive(Debug)]
pub struct TofuVerifier {
    pub target_device_name: String,
}

impl TofuVerifier {
    /// The verdict on a server that shows a certificate with this fingerprint.
    pub fn judge(&self, fingerprint: String, known: &Result<PeersStorage, AppError>) -> (r: Verdict)
        ensures
            r@ == server_verdict(
                self.target_device_name@,
                fingerprint@,
                peers::view_peers(*known),
            ),
    {
        match known {
            Err(e) => failed_to_load(e),
            Ok(peers) => match peers.get(self.target_device_name.as_str()) {
                Some(saved) => if text::text_eq(saved.as_str(), fingerprint.as_str()) {
                    Verdict::Trusted
                } else {
                    Verdict::Changed { message: "Host key fingerprint mismatch!".to_owned() }
                },
                None => Verdict::Unknown {
                    message: text::concat3(
                        "Untrusted server: ",
                        self.target_device_name.as_str(),
                        ". Pairing requested.",
                    ),
                    request: PairingRequest {
                        device_name: self.target_device_name.clone(),
                        fingerprint,
                    },
                },
            },
        }
    }

    /// The verdict on a server that shows the certificate `end_entity`.
    pub fn verify_server_cert(
        &self,
        end_entity: &[u8],
        known: &Result<PeersStorage, AppError>,
    ) -> (r: Verdict)
        ensures
            r@ == server_verdict(
                self.target_device_name@,
                digest::fingerprint_of(end_entity@),
                peers::view_peers(*known),
            ),
    {
        self.judge(digest::fingerprint(end_entity), known)
    }
}

/// Judges clients by their certificates alone.
#[derive(Debug)]
pub struct TofuClientVerifier {}

impl TofuClientVerifier {
    /// The verdict on a client that shows a certificate with this fingerprint.
    pub fn judge(&self, fingerprint: String, known: &Result<PeersStorage, AppError>) -> (r: Verdict)
        requires
            fingerprint@.len() >= 8,
        ensures
            r@ == client_verdict(fingerprint@, peers::view_peers(*known)),
    {
        match known {
            Err(e) => failed_to_load(e),
            Ok(peers) => if peers.knows_fingerprint(fingerprint.as_str()) {
                Verdict::Trusted
            } else {
                assert(fingerprint@.subrange(0, 8) =~= fingerprint@.take(8));
                let device_name = text::concat("Peer-", fingerprint.as_str().substring_char(0, 8));
                Verdict::Unknown {
                    message: text::concat3(
                        "Untrusted client: ",
                        device_name.as_str(),
                        ". Pairing requested.",
                    ),
                    request: PairingRequest { device_name, fingerprint },
                }
            },
        }
    }

    /// The verdict on a client that shows the certificate `end_entity`.
    pub fn verify_client_cert(
        &self,
        end_entity: &[u8],
        known: &Result<PeersStorage, AppError>,
    ) -> (r: Verdict)
        ensures
            r@ == client_verdict(digest::fingerprint_of(end_entity@), peers::view_peers(*known)),
    {
        self.judge(digest::fingerprint(end_entity), known)
    }
}

/// A server is accepted exactly if the trusted devices could be read and hold, under its
/// name, the fingerprint of the certificate that it shows.
pub proof fn law_server_is_trusted_iff_pinned(
    target: Seq<char>,
    cert: Seq<u8>,
    known: Result<Map<Seq<char>, Seq<char>>, Seq<char>>,
)
    ensures
        server_verdict(target, digest::fingerprint_of(cert), known) is Trusted <==> {
            &&& known is Ok
            &&& known->Ok_0.dom().contains(target)
            &&& known->Ok_0[target] == digest::fingerprint_of(cert)
        },
{
}

/// An unknown server is refused; once the request that comes of it is trusted, the same
/// certificate is accepted, and any other certificate with another fingerprint is refused as
/// a changed identity.
pub proof fn law_pairing_pins_a_server(
    target: Seq<char>,
    cert: Seq<u8>,
    other: Seq<u8>,
    peers: Map<Seq<char>, Seq<char>>,
)
    requires
        !peers.dom().contains(target),
    ensures
        ({
            let first = server_verdict(target, digest::fingerprint_of(cert), Ok(peers));
            let q = first->request;
            let after = peers.insert(q.device_name, q.fingerprint);
            &&& first is Unknown
            &&& server_verdict(target, digest::fingerprint_of(cert), Ok(after)) is Trusted
            &&& digest::fingerprint_of(other) != digest::fingerprint_of(cert) ==> server_verdict(
                target,
                digest::fingerprint_of(other),
                Ok(after),
            ) is Changed
        }),
{
}

/// An unknown client is refused; once the request that comes of it is trusted, the client is
/// accepted.
pub proof fn law_pairing_admits_a_client(cert: Seq<u8>, peers: Map<Seq<char>, Seq<char>>)
    requires
        !peers::is_known_fingerprint(peers, digest::fingerprint_of(cert)),
    ensures
        ({
            let first = client_verdict(digest::fingerprint_of(cert), Ok(peers));
            let q = first->request;
            let after = peers.insert(q.device_name, q.fingerprint);
            &&& first is Unknown
            &&& client_verdict(digest::fingerprint_of(cert), Ok(after)) is Trusted
        }),
{
    let q = client_verdict(digest::fingerprint_of(cert), Ok(peers))->request;
    let after = peers.insert(q.device_name, q.fingerprint);
    assert(after.dom().contains(q.device_name));
}

/// Trusting one device changes nothing for a server of another name.
pub proof fn law_pairing_is_local(
    target: Seq<char>,
    fingerprint: Seq<char>,
    peers: Map<Seq<char>, Seq<char>>,
    name: Seq<char>,
    pinned: Seq<char>,
)
    requires
        name != target,
    ensures
        server_verdict(target, fingerprint, Ok(peers.insert(name, pinned))) == server_verdict(
            target,
            fingerprint,
            Ok(peers),
        ),
{
}

/// Nobody is accepted while nothing is trusted, or while it cannot be looked up who is.
pub proof fn law_nobody_is_trusted_by_default(
    target: Seq<char>,
    cert: Seq<u8>,
    failure: Seq<char>,
)
    ensures
        !(server_verdict(target, digest::fingerprint_of(cert), Ok(Map::empty())) is Trusted),
        !(client_verdict(digest::fingerprint_of(cert), Ok(Map::empty())) is Trusted),
        !(server_verdict(target, digest::fingerprint_of(cert), Err(failure)) is Trusted),
        !(client_verdict(digest::fingerprint_of(cert), Err(failure)) is Trusted),
{
}

/// A device that is trusted, and whose file is then written and read again, is accepted.
pub proof fn law_trust_survives_the_file(
    file: Option<&str>,
    json: &str,
    target: Seq<char>,
    cert: Seq<u8>,
)
    requires
        peers::stored_peers(file) is Ok,
        peers::stands_for(
            json@,
            peers::stored_peers(file)->Ok_0.insert(target, digest::fingerprint_of(cert)),
        ),
    ensures
        server_verdict(
            target,
            digest::fingerprint_of(cert),
            peers::stored_peers(Some(json)),
        ) is Trusted,
        client_verdict(digest::fingerprint_of(cert), peers::stored_peers(Some(json))) is Trusted,
{
    let peers = peers::stored_peers(Some(json))->Ok_0;
    assert(peers.dom().contains(target));
}

/// What becomes of a server: it is accepted, refused as changed, or unknown, by what is trusted
/// under its whole name, next to the hexadecimal digits of the whole digest of its certificate.
pub proof fn law_server_is_judged_by_its_certificate(
    target: Seq<char>,
    cert: Seq<u8>,
    peers: Map<Seq<char>, Seq<char>>,
    failure: Seq<char>,
)
    ensures
        ({
            let digits = digest::hex(digest::sha256_digest(cert));
            let v = server_verdict(target, digest::fingerprint_of(cert), Ok(peers));
            &&& v is Trusted <==> peers.dom().contains(target) && peers[target] == digits
            &&& v is Changed <==> peers.dom().contains(target) && peers[target] != digits
            &&& v is Unknown <==> !peers.dom().contains(target)
            &&& v is Unknown ==> v->request.device_name == target && v->request.fingerprint
                == digits && v->Unknown_message == "Untrusted server: "@ + target
                + ". Pairing requested."@
            &&& v is Changed ==> v->Changed_message == "Host key fingerprint mismatch!"@
        }),
        server_verdict(target, digest::fingerprint_of(cert), Err(failure)) is Unavailable,
        server_verdict(
            target,
            digest::fingerprint_of(cert),
            Err(failure),
        )->Unavailable_message == "Failed to load trusted peers: "@ + failure,
{
}

/// What becomes of a client: it is accepted if the digest of its certificate is trusted under any
/// name, and unknown otherwise; an unknown one is called after the first eight digits.
pub proof fn law_client_is_judged_by_its_certificate(
    cert: Seq<u8>,
    peers: Map<Seq<char>, Seq<char>>,
    failure: Seq<char>,
)
    ensures
        ({
            let digits = digest::hex(digest::sha256_digest(cert));
            let v = client_verdict(digest::fingerprint_of(cert), Ok(peers));
            let name = "Peer-"@ + digits.take(8);
            &&& v is Trusted <==> exists|n: Seq<char>| #[trigger]
                peers.dom().contains(n) && peers[n] == digits
            &&& v is Unknown <==> !(v is Trusted)
            &&& v is Unknown ==> v->request.device_name == name && v->request.fingerprint == digits
                && v->Unknown_message == "Untrusted client: "@ + name + ". Pairing requested."@
        }),
        client_verdict(digest::fingerprint_of(cert), Err(failure)) is Unavailable,
        client_verdict(
            digest::fingerprint_of(cert),
            Err(failure),
        )->Unavailable_message == "Failed to load trusted peers: "@ + failure,
{
}

/// Verdicts and requests say all that they hold.
pub proof fn law_verdicts_say_what_they_hold(v: Verdict, q: PairingRequest)
    ensures
        v is Trusted <==> v@ is Trusted,
        v is Unavailable <==> v@ is Unavailable,
        v is Changed <==> v@ is Changed,
        v is Unknown <==> v@ is Unknown,
        v is Unavailable ==> v@->Unavailable_message == v->Unavailable_message@,
        v is Changed ==> v@->Changed_message == v->Changed_message@,
        v is Unknown ==> v@->Unknown_message == v->Unknown_message@ && v@->request == v->request@,
        q@.device_name == q.device_name@,
        q@.fingerprint == q.fingerprint@,
{
}

} // verus!
