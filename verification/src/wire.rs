//! The byte formats that devices exchange: big-endian numbers, requests, file headers and
//! length-prefixed blobs.
use vstd::prelude::*;

verus! {

/// How many values `n` bytes can hold.
pub open spec fn pow256(n: nat) -> nat
    decreases n,
{
    if n == 0 {
        1
    } else {
        256 * pow256((n - 1) as nat)
    }
}

/// The low `n` bytes of `x`, most significant first.
pub open spec fn be_bytes(x: nat, n: nat) -> Seq<u8>
    decreases n,
{
    if n == 0 {
        Seq::empty()
    } else {
        be_bytes(x / 256, (n - 1) as nat).push((x % 256) as u8)
    }
}

/// The number that `s` stands for, most significant byte first.
pub open spec fn be_value(s: Seq<u8>) -> nat
    decreases s.len(),
{
    if s.len() == 0 {
        0
    } else {
        be_value(s.drop_last()) * 256 + s.last() as nat
    }
}

pub(crate) proof fn lemma_be_bytes_len(x: nat, n: nat)
    ensures
        be_bytes(x, n).len() == n,
    decreases n,
{
    if n > 0 {
        lemma_be_bytes_len(x / 256, (n - 1) as nat);
    }
}

pub(crate) proof fn lemma_be_value_bound(s: Seq<u8>)
    ensures
        be_value(s) < pow256(s.len()),
    decreases s.len(),
{
    if s.len() > 0 {
        lemma_be_value_bound(s.drop_last());
    }
}

/// A number that fits in `n` bytes reads back from its `n` bytes.
pub proof fn law_be_value_of_bytes(x: nat, n: nat)
    requires
        x < pow256(n),
    ensures
        be_value(be_bytes(x, n)) == x,
    decreases n,
{
    if n > 0 {
        law_be_value_of_bytes(x / 256, (n - 1) as nat);
        lemma_be_bytes_len(x / 256, (n - 1) as nat);
        assert(be_bytes(x, n).drop_last() =~= be_bytes(x / 256, (n - 1) as nat));
    }
}

/// A byte string is the encoding of the number that it stands for.
pub proof fn law_be_bytes_of_value(s: Seq<u8>)
    ensures
        be_bytes(be_value(s), s.len()) == s,
    decreases s.len(),
{
    if s.len() == 0 {
        assert(be_bytes(be_value(s), 0) =~= s);
    } else {
        law_be_bytes_of_value(s.drop_last());
        assert(be_value(s) / 256 == be_value(s.drop_last()));
        assert(be_value(s) % 256 == s.last() as nat);
        assert(s =~= s.drop_last().push(s.last()));
    }
}

pub(crate) proof fn lemma_pow256_values()
    ensures
        pow256(2) == 0x1_0000,
        pow256(8) == 0x1_0000_0000_0000_0000,
{
    reveal_with_fuel(pow256, 9);
}

/// The low `n` bytes of `x`, most significant first.
pub fn encode_be(x: u64, n: usize) -> (r: Vec<u8>)
    ensures
        r@ == be_bytes(x as nat, n as nat),
    decreases n,
{
    if n == 0 {
        Vec::new()
    } else {
        let mut r = encode_be(x / 256, n - 1);
        r.push((x % 256) as u8);
        r
    }
}

/// The number that at most eight bytes stand for, most significant first.
pub fn decode_be(bytes: &[u8]) -> (r: u64)
    requires
        bytes@.len() <= 8,
    ensures
        r == be_value(bytes@),
{
    let mut r: u64 = 0;
    let mut i: usize = 0;
    proof {
        assert(bytes@.take(0) =~= Seq::<u8>::empty());
    }
    while i < bytes.len()
        invariant
            i <= bytes@.len() <= 8,
            r == be_value(bytes@.take(i as int)),
        decreases bytes@.len() - i,
    {
        proof {
            assert(bytes@.take(i + 1).drop_last() =~= bytes@.take(i as int));
            lemma_be_value_bound(bytes@.take(i + 1));
            lemma_pow256_monotone((i + 1) as nat, 8);
            lemma_pow256_values();
        }
        r = r * 256 + bytes[i] as u64;
        i += 1;
    }
    assert(bytes@.take(i as int) =~= bytes@);
    r
}

proof fn lemma_pow256_monotone(a: nat, b: nat)
    requires
        a <= b,
    ensures
        pow256(a) <= pow256(b),
    decreases b,
{
    if a < b {
        lemma_pow256_monotone(a, (b - 1) as nat);
    }
}

/// What a peer can ask for on a stream that it opened.
#[derive(Clone, Copy, Debug, PartialEq, Eq, Structural)]
pub enum Request {
    /// The peer sends a file.
    Upload,
    /// The peer wants the index of the shared files.
    Index,
    /// The peer wants one file, whose id follows.
    Download,
}

impl Request {
    /// The byte that announces the request.
    pub open spec fn spec_code(self) -> u8 {
        match self {
            Request::Upload => 1,
            Request::Index => 2,
            Request::Download => 3,
        }
    }

    /// The byte that announces the request.
    pub fn code(self) -> (r: u8)
        ensures
            r == self.spec_code(),
    {
        match self {
            Request::Upload => 1,
            Request::Index => 2,
            Request::Download => 3,
        }
    }

    /// The request that a byte announces, if it announces one.
    pub fn from_code(code: u8) -> (r: Option<Request>)
        ensures
            r matches Some(q) ==> q.spec_code() == code,
            r is None ==> code != 1 && code != 2 && code != 3,
    {
        if code == 1 {
            Some(Request::Upload)
        } else if code == 2 {
            Some(Request::Index)
        } else if code == 3 {
            Some(Request::Download)
        } else {
            None
        }
    }
}

/// Different requests are announced by different bytes.
pub proof fn law_request_codes_differ(a: Request, b: Request)
    ensures
        a.spec_code() == b.spec_code() ==> a == b,
{
}

/// The bytes that ask for the file with the given id.
pub open spec fn file_request(id: u64) -> Seq<u8> {
    seq![Request::Download.spec_code()] + be_bytes(id as nat, 8)
}

/// The bytes that ask for the index of the shared files.
pub fn encode_index_request() -> (r: Vec<u8>)
    ensures
        r@ == seq![Request::Index.spec_code()],
{
    let mut r: Vec<u8> = Vec::new();
    r.push(Request::Index.code());
    assert(r@ =~= seq![Request::Index.spec_code()]);
    r
}

/// The bytes that ask for the file with the given id.
pub fn encode_file_request(id: u64) -> (r: Vec<u8>)
    ensures
        r@ == file_request(id),
{
    let mut r: Vec<u8> = Vec::new();
    r.push(Request::Download.code());
    let mut tail = encode_be(id, 8);
    r.append(&mut tail);
    assert(r@ =~= file_request(id));
    r
}

/// The id in the eight bytes that follow the announcement of a download.
pub fn decode_file_id(bytes: &[u8]) -> (id: u64)
    requires
        bytes@.len() == 8,
    ensures
        id == be_value(bytes@),
        be_bytes(id as nat, 8) == bytes@,
{
    proof {
        law_be_bytes_of_value(bytes@);
    }
    decode_be(bytes)
}

/// A server reads from a file request the code of a download and the id that was asked for.
pub proof fn law_file_request_round_trip(id: u64)
    ensures
        file_request(id).len() == 9,
        file_request(id)[0] == Request::Download.spec_code(),
        be_value(file_request(id).skip(1)) == id,
{
    lemma_be_bytes_len(id as nat, 8);
    lemma_pow256_values();
    law_be_value_of_bytes(id as nat, 8);
    assert(file_request(id).skip(1) =~= be_bytes(id as nat, 8));
}

/// What precedes the contents of a file: the length of its name in two bytes, cut to sixteen
/// bits, the name, and the size of the file in eight bytes.
pub open spec fn file_header(name: Seq<u8>, size: u64) -> Seq<u8> {
    be_bytes(name.len() % 0x1_0000, 2) + name + be_bytes(size as nat, 8)
}

/// What precedes the contents of a file with the given name and size.
pub fn encode_file_header(name: &[u8], size: u64) -> (r: Vec<u8>)
    ensures
        r@ == file_header(name@, size),
{
    let name_size: u64 = (name.len() % 0x1_0000) as u64;
    let mut r = encode_be(name_size, 2);
    r.extend_from_slice(name);
    let mut tail = encode_be(size, 8);
    r.append(&mut tail);
    assert(r@ =~= file_header(name@, size));
    r
}

/// A name of at most 65535 bytes and any size read back from the header made of them.
pub proof fn law_file_header_round_trip(name: Seq<u8>, size: u64)
    requires
        name.len() <= 0xffff,
    ensures
        file_header(name, size).len() == name.len() + 10,
        be_value(file_header(name, size).take(2)) == name.len(),
        file_header(name, size).subrange(2, 2 + name.len() as int) == name,
        be_value(file_header(name, size).skip(2 + name.len() as int)) == size,
{
    lemma_be_bytes_len(name.len(), 2);
    lemma_be_bytes_len(size as nat, 8);
    lemma_pow256_values();
    law_be_value_of_bytes(name.len(), 2);
    law_be_value_of_bytes(size as nat, 8);
    let h = file_header(name, size);
    assert(h.take(2) =~= be_bytes(name.len(), 2));
    assert(h.subrange(2, 2 + name.len() as int) =~= name);
    assert(h.skip(2 + name.len() as int) =~= be_bytes(size as nat, 8));
}

/// `body` behind its length in eight bytes.
pub open spec fn blob(body: Seq<u8>) -> Seq<u8> {
    be_bytes(body.len(), 8) + body
}

/// The blobs of `parts`, one after the other.
pub open spec fn blobs(parts: Seq<Seq<u8>>) -> Seq<u8>
    decreases parts.len(),
{
    if parts.len() == 0 {
        Seq::empty()
    } else {
        blobs(parts.drop_last()) + blob(parts.last())
    }
}

/// `body` behind its length in eight bytes.
pub fn encode_blob(body: &[u8]) -> (r: Vec<u8>)
    ensures
        r@ == blob(body@),
{
    let mut r = encode_be(body.len() as u64, 8);
    r.extend_from_slice(body);
    assert(r@ =~= blob(body@));
    r
}

/// Collects a fixed number of blobs from a stream that is read piece by piece.
pub struct BlobReader {
    expected: usize,
    parts: Vec<Vec<u8>>,
    body: Option<usize>,
}

impl BlobReader {
    /// The blobs read so far.
    pub closed spec fn parts(&self) -> Seq<Seq<u8>> {
        self.parts@.map_values(|p: Vec<u8>| p@)
    }

    /// How many blobs are wanted in all.
    pub closed spec fn expected(&self) -> nat {
        self.expected as nat
    }

    /// The length of the body that comes next, if its length has been read.
    pub closed spec fn body(&self) -> Option<usize> {
        self.body
    }

    /// A length is known only while blobs are missing.
    pub closed spec fn wf(&self) -> bool {
        &&& self.parts@.len() <= self.expected
        &&& self.body is Some ==> self.parts@.len() < self.expected
    }

    /// How many bytes have to be read next: nothing once all blobs are there, eight for a
    /// length, and as many as the length says for a body.
    pub open spec fn spec_wanted(&self) -> Option<usize> {
        if self.parts().len() >= self.expected() {
            None
        } else {
            match self.body() {
                Some(n) => Some(n),
                None => Some(8),
            }
        }
    }

    /// Whether `after` is this reader once it has taken `chunk`: a length announces a body, a
    /// body completes a blob.
    pub open spec fn fed(&self, after: BlobReader, chunk: Seq<u8>) -> bool {
        &&& after.expected() == self.expected()
        &&& self.body() is None ==> {
            &&& after.parts() == self.parts()
            &&& after.body() == Some((be_value(chunk) as u64) as usize)
        }
        &&& self.body() is Some ==> {
            &&& after.parts() == self.parts().push(chunk)
            &&& after.body() is None
        }
    }

    /// Whether this reader has taken exactly the first `pos` bytes of `stream`.
    pub open spec fn has_read(&self, stream: Seq<u8>, pos: int) -> bool {
        &&& 0 <= pos <= stream.len()
        &&& read_blobs(stream, self.parts().len()) matches Some((parts, rest))
        &&& parts == self.parts()
        &&& match self.body() {
            None => rest == stream.skip(pos),
            Some(n) => {
                &&& rest.len() >= 8
                &&& be_value(rest.take(8)) == n
                &&& rest.skip(8) == stream.skip(pos)
            },
        }
    }

    /// A reader that has read nothing yet.
    pub fn new(expected: usize) -> (r: BlobReader)
        ensures
            r.wf(),
            r.expected() == expected,
            r.parts() == Seq::<Seq<u8>>::empty(),
            r.body() is None,
    {
        let r = BlobReader { expected, parts: Vec::new(), body: None };
        assert(r.parts() =~= Seq::<Seq<u8>>::empty());
        r
    }

    /// How many bytes have to be read next, or nothing once all blobs are there.
    pub fn wanted(&self) -> (r: Option<usize>)
        requires
            self.wf(),
        ensures
            r == self.spec_wanted(),
    {
        if self.parts.len() == self.expected {
            None
        } else {
            match self.body {
                Some(n) => Some(n),
                None => Some(8),
            }
        }
    }

    /// Takes the bytes that were wanted: a length announces a body, a body completes a blob.
    pub fn feed(&mut self, chunk: Vec<u8>)
        requires
            old(self).wf(),
            old(self).spec_wanted() == Some(chunk@.len() as usize),
            chunk@.len() <= usize::MAX,
        ensures
            final(self).wf(),
            old(self).fed(*final(self), chunk@),
    {
        match self.body {
            None => {
                let n: u64 = decode_be(chunk.as_slice());
                self.body = Some(n as usize);
            },
            Some(_) => {
                self.parts.push(chunk);
                self.body = None;
            },
        }
        assert(old(self).body() is Some ==> self.parts() =~= old(self).parts().push(chunk@));
    }

    /// The blobs that were read, in order.
    pub fn into_parts(self) -> (r: Vec<Vec<u8>>)
        ensures
            r@.map_values(|p: Vec<u8>| p@) == self.parts(),
    {
        self.parts
    }
}

/// The blobs that a reader takes from the front of `stream`, `count` of them, and what
/// follows; nothing if the stream ends early.
pub open spec fn read_blobs(stream: Seq<u8>, count: nat) -> Option<(Seq<Seq<u8>>, Seq<u8>)>
    decreases count,
{
    if count == 0 {
        Some((Seq::empty(), stream))
    } else {
        match read_blobs(stream, (count - 1) as nat) {
            Some((parts, rest)) => if rest.len() < 8 {
                None
            } else {
                let n = be_value(rest.take(8));
                if rest.len() < 8 + n {
                    None
                } else {
                    Some((parts.push(rest.subrange(8, 8 + n as int)), rest.skip(8 + n as int)))
                }
            },
            None => None,
        }
    }
}

/// A reader that is fed what it wants from a stream holds the blobs of that stream, as long
/// as each length fits in a machine word.
pub proof fn law_reader_follows_stream(
    before: BlobReader,
    after: BlobReader,
    stream: Seq<u8>,
    pos: int,
    chunk: Seq<u8>,
)
    requires
        before.has_read(stream, pos),
        before.spec_wanted() == Some(chunk.len() as usize),
        chunk.len() <= usize::MAX,
        pos + chunk.len() <= stream.len(),
        chunk == stream.subrange(pos, pos + chunk.len()),
        before.body() is None ==> be_value(chunk) <= usize::MAX,
        before.fed(after, chunk),
    ensures
        after.has_read(stream, pos + chunk.len()),
{
    let (parts, rest) = read_blobs(stream, before.parts().len())->0;
    match before.body() {
        None => {
            assert(rest == stream.skip(pos));
            assert(rest.take(8) =~= chunk);
            assert(rest.skip(8) =~= stream.skip(pos + 8));
            lemma_be_value_bound(chunk);
            lemma_pow256_values();
        },
        Some(n) => {
            assert(rest.skip(8) == stream.skip(pos));
            assert(rest.subrange(8, 8 + n as int) =~= rest.skip(8).take(n as int));
            assert(chunk =~= rest.skip(8).take(n as int));
            assert(rest.skip(8 + n as int) =~= rest.skip(8).skip(n as int));
            assert(stream.skip(pos).skip(n as int) =~= stream.skip(pos + n as int));
        },
    }
}

/// What a sender frames as blobs, a reader of as many blobs gets back, whatever follows.
pub proof fn law_blobs_round_trip(parts: Seq<Seq<u8>>, rest: Seq<u8>)
    requires
        forall|i: int| 0 <= i < parts.len() ==> (#[trigger] parts[i]).len() <= u64::MAX,
    ensures
        read_blobs(blobs(parts) + rest, parts.len()) == Some((parts, rest)),
    decreases parts.len(),
{
    if parts.len() == 0 {
        assert(blobs(parts) + rest =~= rest);
        assert(parts =~= Seq::<Seq<u8>>::empty());
    } else {
        let front = parts.drop_last();
        let last = parts.last();
        assert(last == parts[parts.len() - 1]);
        assert forall|i: int| 0 <= i < front.len() implies (#[trigger] front[i]).len()
            <= u64::MAX by {
            assert(front[i] == parts[i]);
        }
        law_blobs_round_trip(front, blob(last) + rest);
        assert(blobs(parts) + rest =~= blobs(front) + (blob(last) + rest));
        lemma_be_bytes_len(last.len(), 8);
        lemma_pow256_values();
        law_be_value_of_bytes(last.len(), 8);
        let tail = blob(last) + rest;
        assert(tail.take(8) =~= be_bytes(last.len(), 8));
        assert(tail.subrange(8, 8 + last.len() as int) =~= last);
        assert(tail.skip(8 + last.len() as int) =~= rest);
        assert(front.push(last) =~= parts);
    }
}

/// The most significant byte comes first: what two and what eight bytes stand for.
pub proof fn law_most_significant_first(s: Seq<u8>)
    ensures
        s.len() == 1 ==> be_value(s) == s[0],
        s.len() == 2 ==> be_value(s) == 0x100 * s[0] + s[1],
        s.len() == 8 ==> be_value(s) == 0x100_0000_0000_0000 * s[0] + 0x1_0000_0000_0000 * s[1]
            + 0x100_0000_0000 * s[2] + 0x1_0000_0000 * s[3] + 0x100_0000 * s[4] + 0x1_0000 * s[5]
            + 0x100 * s[6] + s[7],
{
    reveal_with_fuel(be_value, 9);
}

/// A blob is the length of its body in eight bytes, and then the whole body.
pub proof fn law_blob_format(body: Seq<u8>)
    requires
        body.len() <= u64::MAX,
    ensures
        blob(body).len() == body.len() + 8,
        be_value(blob(body).take(8)) == body.len(),
        blob(body).skip(8) == body,
{
    lemma_be_bytes_len(body.len(), 8);
    lemma_pow256_values();
    law_be_value_of_bytes(body.len(), 8);
    assert(blob(body).take(8) =~= be_bytes(body.len(), 8));
    assert(blob(body).skip(8) =~= body);
}

/// Blobs stand one behind the other, in order.
pub proof fn law_blobs_stand_in_order(parts: Seq<Seq<u8>>, body: Seq<u8>)
    ensures
        blobs(Seq::empty()) == Seq::<u8>::empty(),
        blobs(parts.push(body)) == blobs(parts) + blob(body),
{
    assert(parts.push(body).drop_last() =~= parts);
}

/// Whatever its length, a name stands whole between the two bytes for its length and the eight
/// for the size; only the length is cut to sixteen bits.
pub proof fn law_file_header_layout(name: Seq<u8>, size: u64)
    ensures
        file_header(name, size).len() == 2 + name.len() + 8,
        be_value(file_header(name, size).take(2)) == name.len() % 0x1_0000,
        file_header(name, size).subrange(2, 2 + name.len() as int) == name,
        be_value(file_header(name, size).skip(2 + name.len() as int)) == size,
{
    lemma_be_bytes_len(name.len() % 0x1_0000, 2);
    lemma_be_bytes_len(size as nat, 8);
    lemma_pow256_values();
    law_be_value_of_bytes(name.len() % 0x1_0000, 2);
    law_be_value_of_bytes(size as nat, 8);
    let h = file_header(name, size);
    assert(h.take(2) =~= be_bytes(name.len() % 0x1_0000, 2));
    assert(h.subrange(2, 2 + name.len() as int) =~= name);
    assert(h.skip(2 + name.len() as int) =~= be_bytes(size as nat, 8));
}

/// The bytes that announce the three requests.
pub proof fn law_request_codes()
    ensures
        Request::Upload.spec_code() == 1,
        Request::Index.spec_code() == 2,
        Request::Download.spec_code() == 3,
{
}

/// A reader wants eight bytes for a length and then as many as that says, until it has as many
/// blobs as it was made for; what it is fed for a body is kept whole, behind what it has.
pub proof fn law_reader_takes_what_it_wants(before: BlobReader, after: BlobReader, chunk: Seq<u8>)
    requires
        before.fed(after, chunk),
        chunk.len() <= 8 || before.body() is Some,
    ensures
        before.parts().len() >= before.expected() ==> before.spec_wanted() is None,
        before.parts().len() < before.expected() ==> before.spec_wanted() == Some(
            match before.body() {
                Some(n) => n,
                None => 8usize,
            },
        ),
        before.body() is None && be_value(chunk) <= usize::MAX ==> {
            &&& after.parts() == before.parts()
            &&& after.body() is Some
            &&& after.body()->0 == be_value(chunk)
        },
        before.body() is Some ==> after.parts() == before.parts().push(chunk) && after.body()
            is None,
        after.expected() == before.expected(),
{
    lemma_be_value_bound(chunk);
    lemma_pow256_values();
    if before.body() is None {
        lemma_pow256_monotone(chunk.len(), 8);
    }
}

/// A reader that wants bytes takes any that are as many, and reads the whole number or the whole
/// body in them.
pub proof fn law_reader_is_fed(
    reader: &mut BlobReader,
    chunk: Vec<u8>,
    n: Option<usize>,
    before: BlobReader,
)
    requires
        before == *old(reader),
        call_ensures(BlobReader::wanted, (&before,), n),
        call_ensures(BlobReader::feed, (reader, chunk), ()),
        old(reader).parts().len() < old(reader).expected(),
        n is Some,
        chunk@.len() == n->0,
    ensures
        old(reader).body() is None ==> n == Some(8usize),
        old(reader).body() is Some ==> n == old(reader).body(),
        final(reader).expected() == old(reader).expected(),
        old(reader).body() is None && be_value(chunk@) <= usize::MAX ==> final(reader).parts()
            == old(reader).parts() && final(reader).body() is Some && final(reader).body()->0
            == be_value(chunk@),
        old(reader).body() is Some ==> final(reader).body() is None && final(reader).parts().len()
            == old(reader).parts().len() + 1 && final(reader).parts().last() == chunk@
            && final(reader).parts().drop_last() == old(reader).parts(),
{
    if old(reader).body() is Some {
        assert(final(reader).parts().drop_last() =~= old(reader).parts());
    } else {
        lemma_be_value_bound(chunk@);
        lemma_pow256_values();
    }
}

/// A reader gives the parts that it read, whole and in order.
pub proof fn law_reader_gives_what_it_read(reader: BlobReader, r: Vec<Vec<u8>>, i: int)
    requires
        call_ensures(BlobReader::into_parts, (reader,), r),
    ensures
        r@.len() == reader.parts().len(),
        0 <= i < r@.len() ==> r@[i]@ == reader.parts()[i],
{
    let all = r@.map_values(|p: Vec<u8>| p@);
    assert(all.len() == r@.len());
    if 0 <= i < r@.len() {
        assert(all[i] == r@[i]@);
    }
}

/// The request for an index is the byte 2 alone.
pub proof fn law_index_request(r: Vec<u8>)
    requires
        call_ensures(encode_index_request, (), r),
    ensures
        r@ == seq![2u8],
{
}

/// The byte 1 announces an upload, 2 a wish for the index, and 3 a wish for a file; no other byte
/// announces anything.
pub proof fn law_announced_requests(code: u8, r: Option<Request>)
    requires
        call_ensures(Request::from_code, (code,), r),
    ensures
        code == 1 <==> r == Some(Request::Upload),
        code == 2 <==> r == Some(Request::Index),
        code == 3 <==> r == Some(Request::Download),
        r is None <==> code != 1 && code != 2 && code != 3,
{
    if let Some(q) = r {
        assert(q.spec_code() == code);
    }
}

} // verus!
