//! Digests: the fingerprint of a certificate and the stable id of a file.
use crate::wire;
use sha2::{Digest, Sha256};
use vstd::prelude::*;

verus! {

/// The SHA-256 digest of a byte string.
pub uninterp spec fn sha256_digest(data: Seq<u8>) -> Seq<u8>;

/// The SHA-256 digest of `data`, in 32 bytes.
///
/// Runs `sha2::Sha256` over all of `data`: `new`, one `update`, `finalize`.
#[verifier::external_body]
fn sha256(data: &[u8]) -> (r: Vec<u8>)
    ensures
        r@ == sha256_digest(data@),
        r@.len() == 32,
{
    let mut hasher = Sha256::new();
    hasher.update(data);
    hasher.finalize().to_vec()
}

/// The lower-case hexadecimal digit of `d`.
pub open spec fn hex_digit(d: nat) -> char
    recommends
        d < 16,
{
    if d < 10 {
        (0x30 + d) as char
    } else {
        (0x61 + (d - 10)) as char
    }
}

/// `bytes` in lower-case hexadecimal, two digits for each byte.
pub open spec fn hex(bytes: Seq<u8>) -> Seq<char> {
    Seq::new(
        2 * bytes.len(),
        |i: int|
            if i % 2 == 0 {
                hex_digit((bytes[i / 2] / 16) as nat)
            } else {
                hex_digit((bytes[i / 2] % 16) as nat)
            },
    )
}

/// `bytes` in lower-case hexadecimal.
///
/// Calls `hex::encode`, which writes each byte as two lower-case digits, the high half first.
#[verifier::external_body]
fn hex_encode(bytes: &[u8]) -> (r: String)
    ensures
        r@ == hex(bytes@),
{
    hex::encode(bytes)
}

/// The fingerprint of a certificate: the hexadecimal SHA-256 digest of its DER bytes.
pub open spec fn fingerprint_of(cert: Seq<u8>) -> Seq<char> {
    hex(sha256_digest(cert))
}

/// The fingerprint that a digest stands for.
pub fn fingerprint_from_digest(digest: &[u8]) -> (r: String)
    ensures
        r@ == hex(digest@),
{
    hex_encode(digest)
}

/// The fingerprint of a certificate.
pub fn fingerprint(cert: &[u8]) -> (r: String)
    ensures
        r@ == fingerprint_of(cert@),
        r@ == hex(sha256_digest(cert@)),
        r@.len() == 64,
{
    fingerprint_from_digest(sha256(cert).as_slice())
}

/// The id of a file at `path`: the first eight bytes of the SHA-256 digest of the path.
pub open spec fn stable_file_id(path: Seq<char>) -> nat {
    wire::be_value(sha256_digest(vstd::utf8::encode_utf8(path)).take(8))
}

/// The id that a digest stands for: its first eight bytes, most significant first.
pub fn id_from_digest(digest: &[u8]) -> (id: u64)
    requires
        digest@.len() >= 8,
    ensures
        id == wire::be_value(digest@.take(8)),
{
    let mut head: Vec<u8> = Vec::new();
    let mut i: usize = 0;
    while i < 8
        invariant
            i <= 8,
            digest@.len() >= 8,
            head@ == digest@.take(i as int),
        decreases 8 - i,
    {
        head.push(digest[i]);
        i += 1;
        assert(head@ =~= digest@.take(i as int));
    }
    wire::decode_be(head.as_slice())
}

/// The id of the file at `path_str`.
pub fn compute_stable_file_id(path_str: &str) -> (id: u64)
    ensures
        id == stable_file_id(path_str@),
        wire::be_bytes(id as nat, 8) == sha256_digest(vstd::utf8::encode_utf8(path_str@)).take(8),
{
    let digest = sha256(path_str.as_bytes());
    proof {
        wire::law_be_bytes_of_value(digest@.take(8));
    }
    id_from_digest(digest.as_slice())
}

/// The id of a path holds the first eight bytes of the digest of the whole path, as they stand.
pub proof fn law_id_is_the_head_of_the_digest(path: Seq<char>)
    ensures
        ({
            let head = sha256_digest(vstd::utf8::encode_utf8(path)).take(8);
            wire::be_bytes(stable_file_id(path), head.len()) == head
        }),
{
    wire::law_be_bytes_of_value(sha256_digest(vstd::utf8::encode_utf8(path)).take(8));
}

/// Two paths have the same id exactly where the digests of the two whole paths start alike.
pub proof fn law_ids_tell_paths_apart(a: Seq<char>, b: Seq<char>)
    ensures
        ({
            let x = sha256_digest(vstd::utf8::encode_utf8(a)).take(8);
            let y = sha256_digest(vstd::utf8::encode_utf8(b)).take(8);
            &&& x == y ==> stable_file_id(a) == stable_file_id(b)
            &&& x.len() == y.len() && stable_file_id(a) == stable_file_id(b) ==> x == y
        }),
{
    law_id_is_the_head_of_the_digest(a);
    law_id_is_the_head_of_the_digest(b);
}

/// A fingerprint tells the whole digest of the whole certificate, two digits for each byte: the
/// digit for its high half and the one for its low half.
pub proof fn law_fingerprint_tells_every_byte(cert: Seq<u8>, i: int)
    ensures
        fingerprint_of(cert).len() == 2 * sha256_digest(cert).len(),
        0 <= i < sha256_digest(cert).len() ==> {
            let byte = sha256_digest(cert)[i];
            &&& fingerprint_of(cert)[2 * i] == hex_digit((byte / 16) as nat)
            &&& fingerprint_of(cert)[2 * i + 1] == hex_digit((byte % 16) as nat)
        },
{
    let j = 2 * i;
    let k = 2 * i + 1;
    assert(j / 2 == i && j % 2 == 0 && k / 2 == i && k % 2 == 1);
}

/// The hexadecimal digits are those of `0` to `9` and of `a` to `f`, in order.
pub proof fn law_hex_digits(d: nat)
    requires
        d < 16,
    ensures
        d < 10 ==> hex_digit(d) as u32 == '0' as u32 + d,
        d >= 10 ==> hex_digit(d) as u32 == 'a' as u32 + (d - 10),
{
}

/// Equal fingerprints come from equal digests.
pub proof fn law_fingerprint_tells_digests_apart(a: Seq<u8>, b: Seq<u8>)
    requires
        fingerprint_of(a) == fingerprint_of(b),
    ensures
        sha256_digest(a) == sha256_digest(b),
{
    lemma_hex_is_injective(sha256_digest(a), sha256_digest(b));
}

proof fn lemma_hex_is_injective(a: Seq<u8>, b: Seq<u8>)
    requires
        hex(a) == hex(b),
    ensures
        a == b,
{
    assert(hex(a).len() == 2 * a.len());
    assert(hex(b).len() == 2 * b.len());
    assert forall|i: int| 0 <= i < a.len() implies a[i] == b[i] by {
        let j = 2 * i;
        let k = 2 * i + 1;
        assert(j / 2 == i && j % 2 == 0 && k / 2 == i && k % 2 == 1);
        assert(hex(a)[j] == hex_digit((a[i] / 16) as nat));
        assert(hex(b)[j] == hex_digit((b[i] / 16) as nat));
        assert(hex(a)[k] == hex_digit((a[i] % 16) as nat));
        assert(hex(b)[k] == hex_digit((b[i] % 16) as nat));
        lemma_hex_digit_is_injective((a[i] / 16) as nat, (b[i] / 16) as nat);
        lemma_hex_digit_is_injective((a[i] % 16) as nat, (b[i] % 16) as nat);
    }
    assert(a =~= b);
}

proof fn lemma_hex_digit_is_injective(a: nat, b: nat)
    requires
        a < 16,
        b < 16,
        hex_digit(a) == hex_digit(b),
    ensures
        a == b,
{
}

} // verus!
