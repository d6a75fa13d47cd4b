//! Sending and receiving one file.
use crate::error::AppError;
use crate::paths;
use crate::text;
use crate::wire;
use vstd::prelude::*;

verus! {

/// What precedes the contents of the file at `file_path` on the wire.
pub fn filing(file_path: &str, file_size: u64) -> (r: Result<Vec<u8>, AppError>)
    ensures
        match r {
            Ok(header) => exists|name: Seq<char>|
                {
                    &&& #[trigger] paths::names_file(file_path@, Some(name))
                    &&& header@ == wire::file_header(vstd::utf8::encode_utf8(name), file_size)
                },
            Err(e) => e is InvalidFileName && paths::names_file(file_path@, None),
        },
{
    match paths::file_name(file_path) {
        Some(name) => {
            let header = wire::encode_file_header(name.as_str().as_bytes(), file_size);
            assert(paths::names_file(file_path@, Some(name@)));
            Ok(header)
        },
        None => Err(AppError::InvalidFileName),
    }
}

/// How far the reception of a file has come.
#[derive(Debug)]
pub enum Receive {
    /// The length of the name comes next.
    NameLength,
    /// The name comes next.
    Name { len: usize },
    /// The size comes next.
    Size { name: String },
    /// The download folder is being made.
    Folder { name: String, size: u64 },
    /// It is to be found out whether the target is there already.
    Target { name: String, size: u64, target: String },
    /// The time is being asked, which tells transfers apart.
    Stamp { name: String, size: u64, target: String },
    /// The contents are being stored.
    Body { size: u64, part: String, target: String },
    /// Nothing is left to do.
    Done,
}

/// What has to be done next.
#[derive(Debug)]
pub enum ReceiveAction {
    /// Read exactly this many bytes.
    Read(usize),
    /// Make the download folder, unless it is there.
    EnsureFolder,
    /// Find out whether there is something at this path.
    Probe(String),
    /// Send this and close the stream.
    Reply(Vec<u8>),
    /// Find out the nanoseconds since the Unix epoch.
    Stamp,
    /// Store the rest of the stream at this path.
    Store(String),
    /// Give the stored file its final path.
    Keep { part: String, target: String },
    /// Remove the stored file and fail.
    Discard { part: String, error: AppError },
}

/// What came of the last action.
#[derive(Debug)]
pub enum ReceiveEvent {
    /// The bytes that were read.
    Bytes(Vec<u8>),
    /// The download folder is there.
    FolderReady,
    /// Whether there is something at the path.
    Exists(bool),
    /// The nanoseconds, where the clock is not before the epoch.
    Time(Option<u128>),
    /// How many bytes were stored.
    Stored(u64),
}

/// The outcome of one step.
pub type Stepped = Result<(Receive, ReceiveAction), AppError>;

/// The tag that tells transfers apart: the time, or zero before the epoch.
pub open spec fn tag_of(time: Option<u128>) -> nat {
    match time {
        Some(t) => t as nat,
        None => 0,
    }
}

impl Receive {
    /// Whether `event` is what the last action leads to.
    pub open spec fn expects(self, event: ReceiveEvent) -> bool {
        match self {
            Receive::NameLength => event matches ReceiveEvent::Bytes(b) && b@.len() == 2,
            Receive::Name { len } => event matches ReceiveEvent::Bytes(b) && b@.len() == len,
            Receive::Size { .. } => event matches ReceiveEvent::Bytes(b) && b@.len() == 8,
            Receive::Folder { .. } => event is FolderReady,
            Receive::Target { .. } => event is Exists,
            Receive::Stamp { .. } => event is Time,
            Receive::Body { .. } => event is Stored,
            Receive::Done => false,
        }
    }

    /// Whether `r` is what comes of `event` when files are received into `dir`.
    pub open spec fn steps_to(self, dir: Seq<char>, event: ReceiveEvent, r: Stepped) -> bool {
        match self {
            Receive::NameLength => {
                &&& r matches Ok((Receive::Name { len }, ReceiveAction::Read(n)))
                &&& len == wire::be_value(event->Bytes_0@)
                &&& n == len
            },
            Receive::Name { .. } => {
                let b = event->Bytes_0@;
                if vstd::utf8::valid_utf8(b) {
                    &&& r matches Ok((Receive::Size { name }, ReceiveAction::Read(n)))
                    &&& name@ == vstd::utf8::decode_utf8(b)
                    &&& n == 8
                } else {
                    &&& r matches Err(AppError::Utf8Error(message))
                    &&& message@ == text::utf8_error_text(b)
                }
            },
            Receive::Size { name } => {
                &&& r matches Ok(
                    (Receive::Folder { name: same, size }, ReceiveAction::EnsureFolder),
                )
                &&& same@ == name@
                &&& size == wire::be_value(event->Bytes_0@)
            },
            Receive::Folder { name, size } => match r {
                Ok(
                    (
                        Receive::Target { name: clean, size: same, target },
                        ReceiveAction::Probe(path),
                    ),
                ) => {
                    &&& paths::names_file(name@, Some(clean@))
                    &&& same == size
                    &&& paths::joins_to(dir, clean@, target@)
                    &&& path@ == target@
                },
                Err(e) => e is InvalidFileName && paths::names_file(name@, None),
                _ => false,
            },
            Receive::Target { name, size, target } => if event->Exists_0 {
                &&& r matches Ok((Receive::Done, ReceiveAction::Reply(bytes)))
                &&& bytes@ == vstd::utf8::encode_utf8("ALREADY_EXISTS"@)
            } else {
                &&& r matches Ok(
                    (
                        Receive::Stamp { name: n, size: s, target: t },
                        ReceiveAction::Stamp,
                    ),
                )
                &&& n@ == name@
                &&& s == size
                &&& t@ == target@
            },
            Receive::Stamp { name, size, target } => {
                &&& r matches Ok(
                    (
                        Receive::Body { size: s, part, target: t },
                        ReceiveAction::Store(path),
                    ),
                )
                &&& s == size
                &&& t@ == target@
                &&& paths::joins_to(dir, paths::part_name(name@, tag_of(event->Time_0)), part@)
                &&& path@ == part@
            },
            Receive::Body { size, part, target } => if event->Stored_0 == size {
                &&& r matches Ok((Receive::Done, ReceiveAction::Keep { part: p, target: t }))
                &&& p@ == part@
                &&& t@ == target@
            } else {
                &&& r matches Ok((Receive::Done, ReceiveAction::Discard { part: p, error }))
                &&& p@ == part@
                &&& error == (AppError::IncompleteTransfer {
                    expected: size,
                    got: event->Stored_0,
                })
            },
            Receive::Done => false,
        }
    }

    /// The start of a reception: the length of the name comes first.
    pub fn begin() -> (r: (Receive, ReceiveAction))
        ensures
            r.0 is NameLength,
            r.1 == ReceiveAction::Read(2),
    {
        (Receive::NameLength, ReceiveAction::Read(2))
    }

    /// What comes of `event` when files are received into `download_dir`.
    pub fn step(self, download_dir: &str, event: ReceiveEvent) -> (r: Stepped)
        requires
            self.expects(event),
        ensures
            self.steps_to(download_dir@, event, r),
    {
        match self {
            Receive::NameLength => match event {
                ReceiveEvent::Bytes(b) => {
                    proof {
                        wire::lemma_be_value_bound(b@);
                        wire::lemma_pow256_values();
                    }
                    let len: usize = wire::decode_be(b.as_slice()) as usize;
                    Ok((Receive::Name { len }, ReceiveAction::Read(len)))
                },
                _ => Err(AppError::InvalidFileName),
            },
            Receive::Name { .. } => match event {
                ReceiveEvent::Bytes(b) => match text::from_utf8(b) {
                    Ok(name) => Ok((Receive::Size { name }, ReceiveAction::Read(8))),
                    Err(message) => Err(AppError::Utf8Error(message)),
                },
                _ => Err(AppError::InvalidFileName),
            },
            Receive::Size { name } => match event {
                ReceiveEvent::Bytes(b) => {
                    let size: u64 = wire::decode_be(b.as_slice());
                    Ok((Receive::Folder { name, size }, ReceiveAction::EnsureFolder))
                },
                _ => Err(AppError::InvalidFileName),
            },
            Receive::Folder { name, size } => match paths::file_name(name.as_str()) {
                Some(clean) => {
                    let target = paths::joined_path(download_dir, clean.as_str());
                    let path = target.clone();
                    Ok((Receive::Target { name: clean, size, target }, ReceiveAction::Probe(path)))
                },
                None => Err(AppError::InvalidFileName),
            },
            Receive::Target { name, size, target } => match event {
                ReceiveEvent::Exists(true) => {
                    let reply: Vec<u8> = "ALREADY_EXISTS".as_bytes_vec();
                    Ok((Receive::Done, ReceiveAction::Reply(reply)))
                },
                _ => Ok((Receive::Stamp { name, size, target }, ReceiveAction::Stamp)),
            },
            Receive::Stamp { name, size, target } => {
                let tag: u128 = match event {
                    ReceiveEvent::Time(Some(t)) => t,
                    _ => 0,
                };
                let part_name = paths::part_file_name(name.as_str(), tag);
                let part = paths::joined_path(download_dir, part_name.as_str());
                let path = part.clone();
                Ok((Receive::Body { size, part, target }, ReceiveAction::Store(path)))
            },
            Receive::Body { size, part, target } => {
                let got: u64 = match event {
                    ReceiveEvent::Stored(n) => n,
                    _ => 0,
                };
                if got == size {
                    Ok((Receive::Done, ReceiveAction::Keep { part, target }))
                } else {
                    let error = AppError::IncompleteTransfer { expected: size, got };
                    Ok((Receive::Done, ReceiveAction::Discard { part, error }))
                }
            },
            Receive::Done => Err(AppError::InvalidFileName),
        }
    }
}

/// A file name that every platform takes for one component, and that fits in a header.
pub open spec fn is_sendable_name(name: Seq<char>) -> bool {
    &&& paths::is_plain_name(name)
    &&& name != "."@
    &&& name != ".."@
    &&& vstd::utf8::encode_utf8(name).len() <= 0xffff
}

/// Whether `path` is one component below `dir`. A name that Windows takes for more than that,
/// since it starts with a drive or a backslash, is only known to hold no slash.
pub open spec fn is_inside(dir: Seq<char>, name: Seq<char>, path: Seq<char>) -> bool {
    &&& name.len() > 0
    &&& !name.contains('/')
    &&& name != "."@
    &&& name != ".."@
    &&& paths::is_relative_name(name) ==> paths::is_below(dir, name, path)
}

/// Whether `r` asks about a path that is one component below `dir`.
pub open spec fn probes_inside(dir: Seq<char>, r: Stepped) -> bool {
    &&& r matches Ok((Receive::Target { name, size: _, target }, ReceiveAction::Probe(path)))
    &&& is_inside(dir, name@, target@)
    &&& path@ == target@
}

/// Whatever name a sender gives, short of a verbatim path, the path that a receiver asks about
/// is one component below its download folder.
pub proof fn law_target_stays_in_folder(
    dir: Seq<char>,
    before: Receive,
    event: ReceiveEvent,
    r: Stepped,
)
    requires
        before is Folder,
        before.steps_to(dir, event, r),
        !paths::is_verbatim(before->Folder_name@),
        !paths::is_verbatim(dir),
        r is Ok,
    ensures
        probes_inside(dir, r),
{
    if let Ok((Receive::Target { name, size: _, target: _ }, _)) = r {
        paths::law_file_name_is_one_component(before->Folder_name@, name@);
    }
}

/// Whether `r` stores the contents of `name` one component below `dir`.
pub open spec fn stores_inside(
    dir: Seq<char>,
    name: Seq<char>,
    time: Option<u128>,
    r: Stepped,
) -> bool {
    &&& r matches Ok((Receive::Body { size: _, part, target: _ }, ReceiveAction::Store(path)))
    &&& is_inside(dir, paths::part_name(name, tag_of(time)), part@)
    &&& path@ == part@
}

/// Where the name of the target is one component, the unfinished file is one component below
/// the download folder too.
pub proof fn law_part_stays_in_folder(
    dir: Seq<char>,
    before: Receive,
    time: Option<u128>,
    r: Stepped,
)
    requires
        before is Stamp,
        before.steps_to(dir, ReceiveEvent::Time(time), r),
        before->Stamp_name@.len() > 0,
        !before->Stamp_name@.contains('/'),
        !paths::is_verbatim(dir),
    ensures
        stores_inside(dir, before->Stamp_name@, time, r),
        paths::is_relative_name(before->Stamp_name@) ==> paths::is_relative_name(
            paths::part_name(before->Stamp_name@, tag_of(time)),
        ),
{
    paths::lemma_part_name(before->Stamp_name@, tag_of(time));
}

/// Whether `r` asks about the target of a file called `name`, of which `size` bytes are to
/// come.
pub open spec fn probes_for(dir: Seq<char>, name: Seq<char>, size: u64, r: Stepped) -> bool {
    &&& r matches Ok(
        (Receive::Target { name: n, size: s, target }, ReceiveAction::Probe(path)),
    )
    &&& n@ == name
    &&& s == size
    &&& paths::joins_to(dir, name, target@)
    &&& path@ == target@
}

/// Whether `r` goes on and takes `event` next.
pub open spec fn goes_on(r: Stepped, event: ReceiveEvent) -> bool {
    r is Ok && r->Ok_0.0.expects(event)
}

/// The header of a file, read piece by piece as a receiver asks for it, gives back the name
/// and the size; the receiver then asks about the target of that very name.
pub proof fn law_header_is_understood(
    dir: Seq<char>,
    name: Seq<char>,
    size: u64,
    b1: Vec<u8>,
    b2: Vec<u8>,
    b3: Vec<u8>,
    r1: Stepped,
    r2: Stepped,
    r3: Stepped,
    r4: Stepped,
)
    requires
        is_sendable_name(name),
        b1@ + b2@ + b3@ == wire::file_header(vstd::utf8::encode_utf8(name), size),
        b1@.len() == 2,
        b3@.len() == 8,
        Receive::NameLength.steps_to(dir, ReceiveEvent::Bytes(b1), r1),
        r1 is Ok ==> r1->Ok_0.0.steps_to(dir, ReceiveEvent::Bytes(b2), r2),
        r2 is Ok ==> r2->Ok_0.0.steps_to(dir, ReceiveEvent::Bytes(b3), r3),
        r3 is Ok ==> r3->Ok_0.0.steps_to(dir, ReceiveEvent::FolderReady, r4),
    ensures
        goes_on(r1, ReceiveEvent::Bytes(b2)),
        goes_on(r2, ReceiveEvent::Bytes(b3)),
        goes_on(r3, ReceiveEvent::FolderReady),
        probes_for(dir, name, size, r4),
{
    let bytes = vstd::utf8::encode_utf8(name);
    let header = wire::file_header(bytes, size);
    wire::law_file_header_round_trip(bytes, size);
    assert(b1@ =~= header.take(2));
    assert(b2@ =~= header.subrange(2, 2 + bytes.len() as int));
    assert(b3@ =~= header.skip(2 + bytes.len() as int));
    vstd::utf8::encode_utf8_valid_utf8(name);
    vstd::utf8::encode_utf8_decode_utf8(name);
    paths::law_plain_name_is_its_final_name(name);
    assert(paths::is_portable(name)) by {
        if name.len() >= 2 {
            assert(name.contains(name[0]));
        }
    }
}

/// Whether `r` stores the contents of `name` below `dir` under the name for unfinished files.
pub open spec fn stores(dir: Seq<char>, name: Seq<char>, time: Option<u128>, r: Stepped) -> bool {
    &&& r matches Ok((_, ReceiveAction::Store(path)))
    &&& paths::joins_to(dir, paths::part_name(name, tag_of(time)), path@)
}

/// Whether `r` gives what stands at `part` the path `target`.
pub open spec fn keeps(part: Seq<char>, target: Seq<char>, r: Stepped) -> bool {
    &&& r matches Ok((Receive::Done, ReceiveAction::Keep { part: p, target: t }))
    &&& p@ == part
    &&& t@ == target
}

/// Whether `r` removes what stands at `part` and reports that bytes are missing.
pub open spec fn discards(part: Seq<char>, size: u64, stored: u64, r: Stepped) -> bool {
    &&& r matches Ok((Receive::Done, ReceiveAction::Discard { part: p, error }))
    &&& p@ == part
    &&& error == (AppError::IncompleteTransfer { expected: size, got: stored })
}

/// When the target is free, the contents are stored under a name that is never shared, and
/// get their final path exactly if as many bytes arrived as were announced; otherwise they
/// are removed and the transfer fails.
pub proof fn law_only_complete_files_are_kept(
    dir: Seq<char>,
    before: Receive,
    time: Option<u128>,
    stored: u64,
    r1: Stepped,
    r2: Stepped,
    r3: Stepped,
)
    requires
        before is Target,
        before.steps_to(dir, ReceiveEvent::Exists(false), r1),
        r1 is Ok ==> r1->Ok_0.0.steps_to(dir, ReceiveEvent::Time(time), r2),
        r2 is Ok ==> r2->Ok_0.0.steps_to(dir, ReceiveEvent::Stored(stored), r3),
    ensures
        goes_on(r1, ReceiveEvent::Time(time)),
        goes_on(r2, ReceiveEvent::Stored(stored)),
        stores(dir, before->Target_name@, time, r2),
        crate::index::is_private_name(paths::part_name(before->Target_name@, tag_of(time))),
        stored == before->Target_size ==> keeps(
            r2->Ok_0.1->Store_0@,
            before->Target_target@,
            r3,
        ),
        stored != before->Target_size ==> discards(
            r2->Ok_0.1->Store_0@,
            before->Target_size,
            stored,
            r3,
        ),
{
    crate::index::law_part_files_are_private(before->Target_name@, tag_of(time));
}

/// A file that is there already is never written over: the sender is told, and that is all.
pub proof fn law_existing_file_is_left_alone(dir: Seq<char>, before: Receive, r: Stepped)
    requires
        before is Target,
        before.steps_to(dir, ReceiveEvent::Exists(true), r),
    ensures
        r is Ok,
        r->Ok_0.0 is Done,
        r->Ok_0.1 is Reply,
        r->Ok_0.1->Reply_0@ == vstd::utf8::encode_utf8("ALREADY_EXISTS"@),
{
}

/// A name that is no text is refused, and a name that is one is taken as it is; the number of its
/// bytes and the size are read as they were sent.
pub proof fn law_names_and_sizes_are_taken_as_sent(
    dir: Seq<char>,
    len: usize,
    name: String,
    b: Vec<u8>,
    length: Stepped,
    named: Stepped,
    sized: Stepped,
)
    requires
        Receive::NameLength.steps_to(dir, ReceiveEvent::Bytes(b), length),
        (Receive::Name { len }).steps_to(dir, ReceiveEvent::Bytes(b), named),
        (Receive::Size { name }).steps_to(dir, ReceiveEvent::Bytes(b), sized),
    ensures
        length is Ok && length->Ok_0.0 is Name && length->Ok_0.0->len == wire::be_value(b@)
            && length->Ok_0.1 == ReceiveAction::Read(length->Ok_0.0->len),
        vstd::utf8::valid_utf8(b@) <==> named is Ok,
        named is Ok ==> named->Ok_0.0 is Size && vstd::utf8::encode_utf8(
            named->Ok_0.0->Size_name@,
        ) == b@ && named->Ok_0.1 == ReceiveAction::Read(8),
        named is Err ==> named->Err_0 is Utf8Error && named->Err_0->Utf8Error_0@
            == text::utf8_error_text(b@),
        sized is Ok && sized->Ok_0.0 is Folder && sized->Ok_0.0->Folder_name@ == name@
            && sized->Ok_0.0->Folder_size == wire::be_value(b@) && sized->Ok_0.1 is EnsureFolder,
{
    if vstd::utf8::valid_utf8(b@) {
        vstd::utf8::decode_utf8_encode_utf8(b@);
    }
}

/// What is asked about is the last name of what was sent, below the download folder; only what has
/// no last name is refused.
pub proof fn law_target_is_named_after_what_was_sent(
    dir: Seq<char>,
    name: String,
    size: u64,
    r: Stepped,
)
    requires
        (Receive::Folder { name, size }).steps_to(dir, ReceiveEvent::FolderReady, r),
    ensures
        r is Err ==> r->Err_0 is InvalidFileName && paths::names_file(name@, None),
        r is Ok ==> r->Ok_0.0 is Target && r->Ok_0.1 is Probe && paths::names_file(
            name@,
            Some(r->Ok_0.0->Target_name@),
        ) && paths::joins_to(dir, r->Ok_0.0->Target_name@, r->Ok_0.1->Probe_0@)
            && r->Ok_0.0->Target_target@ == r->Ok_0.1->Probe_0@ && r->Ok_0.0->Target_size == size,
{
}

/// Transfers are told apart by the whole time, and by zero where that is before the epoch.
pub proof fn law_tags(time: u128)
    ensures
        tag_of(Some(time)) == time,
        tag_of(None) == 0,
{
}

/// The header that precedes a file tells its last name and its size; only a path without a last
/// name has none.
pub proof fn law_header_tells_name_and_size(
    file_path: &str,
    file_size: u64,
    r: Result<Vec<u8>, AppError>,
)
    requires
        call_ensures(filing, (file_path, file_size), r),
    ensures
        r is Err ==> r->Err_0 is InvalidFileName && paths::names_file(file_path@, None),
        r is Ok ==> exists|name: Seq<char>| #[trigger]
            paths::names_file(file_path@, Some(name)) && r->Ok_0@ == wire::be_bytes(
                vstd::utf8::encode_utf8(name).len() % 0x1_0000,
                2,
            ) + vstd::utf8::encode_utf8(name) + wire::be_bytes(file_size as nat, 8),
{
    if r is Ok {
        let name = choose|name: Seq<char>| #[trigger]
            paths::names_file(file_path@, Some(name)) && r->Ok_0@ == wire::file_header(
                vstd::utf8::encode_utf8(name),
                file_size,
            );
        wire::law_file_header_layout(vstd::utf8::encode_utf8(name), file_size);
    }
}

/// Whether `next` takes all that can come of doing `action`.
pub open spec fn takes_all(next: Receive, action: ReceiveAction) -> bool {
    &&& action is Read ==> forall|b: Vec<u8>|
        b@.len() == action->Read_0 ==> #[trigger] next.expects(ReceiveEvent::Bytes(b))
    &&& action is EnsureFolder ==> next.expects(ReceiveEvent::FolderReady)
    &&& action is Probe ==> forall|there: bool| #[trigger]
        next.expects(ReceiveEvent::Exists(there))
    &&& action is Stamp ==> forall|t: Option<u128>| #[trigger]
        next.expects(ReceiveEvent::Time(t))
    &&& action is Store ==> forall|n: u64| #[trigger] next.expects(ReceiveEvent::Stored(n))
}

/// A reception takes whatever can come of what it asked for: names of every length, both answers,
/// every time and every number of bytes.
pub proof fn law_reception_takes_what_can_come(
    dir: Seq<char>,
    before: Receive,
    event: ReceiveEvent,
    r: Stepped,
    first: (Receive, ReceiveAction),
)
    requires
        before.steps_to(dir, event, r),
        call_ensures(Receive::begin, (), first),
    ensures
        takes_all(first.0, first.1),
        first.1 == ReceiveAction::Read(2),
        r is Ok ==> takes_all(r->Ok_0.0, r->Ok_0.1),
{
}

/// A reception that is stepped goes on as it says.
pub proof fn law_reception_is_stepped(
    before: Receive,
    dir: &str,
    event: ReceiveEvent,
    r: Stepped,
)
    requires
        call_ensures(Receive::step, (before, dir, event), r),
    ensures
        before.steps_to(dir@, event, r),
{
}

} // verus!
