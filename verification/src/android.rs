//! The console program for Android phones: its server, its client and its index.
use crate::console;
use crate::digest;
use crate::discovery;
use crate::discovery::{DeviceInfo, DiscoverySession, DiscoveryStep};
use crate::error::AppError;
use crate::index;
use crate::index::{EntryView, FileView, FolderEntry};
use crate::paths;
use crate::peers;
use crate::peers::PeersStorage;
use crate::text;
use crate::vault::Sealed;
use crate::wire;
use vstd::prelude::*;

verus! {

/// The name of this device.
pub fn get_fallback_device_name() -> (r: String)
    ensures
        r@ == "Huawei-P30-Lite"@,
{
    "Huawei-P30-Lite".to_owned()
}

/// The answer to a broadcast, whatever it says: the name of this device.
pub fn discovery_reply() -> (r: Vec<u8>)
    ensures
        r@ == vstd::utf8::encode_utf8("Huawei-P30-Lite"@),
{
    get_fallback_device_name().as_str().as_bytes_vec()
}

/// The folder that is shared.
pub fn shared_folder() -> (r: String)
    ensures
        r@ == "/sdcard/Download"@,
{
    "/sdcard/Download".to_owned()
}

/// The address to which a search for devices is broadcast.
pub fn broadcast_address() -> (r: String)
    ensures
        r@ == "192.168.1.255:8888"@,
{
    "192.168.1.255:8888".to_owned()
}

/// What a server turns out to be when it is trusted on first use.
#[derive(Debug)]
pub enum FirstUse {
    /// It is the one that was trusted before.
    Known,
    /// It shows another certificate than the one that was trusted.
    Changed { message: String },
    /// It was not known, and is trusted from now on; this is to be stored.
    New { json: String },
}

/// The devices that a file stands for; what cannot be read stands for none.
pub open spec fn remembered(file: Option<&str>) -> Map<Seq<char>, Seq<char>> {
    match peers::stored_peers(file) {
        Ok(known) => known,
        Err(_) => Map::empty(),
    }
}

/// Whether `r` is what comes of a server that is to be `target` and shows a certificate with
/// this fingerprint.
pub open spec fn first_use(
    target: Seq<char>,
    fingerprint: Seq<char>,
    file: Option<&str>,
    r: FirstUse,
) -> bool {
    let known = remembered(file);
    if !known.dom().contains(target) {
        &&& r matches FirstUse::New { json }
        &&& peers::stands_for(json@, known.insert(target, fingerprint))
    } else if known[target] == fingerprint {
        r is Known
    } else {
        r matches FirstUse::Changed { message } && message@ == "Host key fingerprint mismatch!"@
    }
}

/// Judges servers by the name under which they were met first.
#[derive(Debug)]
pub struct TofuVerifier {
    pub target_device_name: String,
}

impl TofuVerifier {
    /// What comes of a server that shows a certificate with this fingerprint, given the text of
    /// the file of known servers.
    pub fn judge(&self, fingerprint: String, file: Option<&str>) -> (r: FirstUse)
        ensures
            first_use(self.target_device_name@, fingerprint@, file, r),
    {
        let mut known: PeersStorage = match PeersStorage::load(file) {
            Ok(known) => known,
            Err(_) => PeersStorage::empty(),
        };
        match known.get(self.target_device_name.as_str()) {
            Some(saved) => if text::text_eq(saved.as_str(), fingerprint.as_str()) {
                FirstUse::Known
            } else {
                FirstUse::Changed { message: "Host key fingerprint mismatch!".to_owned() }
            },
            None => {
                known.insert(self.target_device_name.clone(), fingerprint);
                match known.save() {
                    Ok(json) => FirstUse::New { json },
                    Err(_) => FirstUse::Known,
                }
            },
        }
    }

    /// What comes of a server that shows the certificate `end_entity`, given the text of the
    /// file of known servers.
    pub fn verify_server_cert(&self, end_entity: &[u8], file: Option<&str>) -> (r: FirstUse)
        ensures
            first_use(
                self.target_device_name@,
                digest::fingerprint_of(end_entity@),
                file,
                r,
            ),
    {
        self.judge(digest::fingerprint(end_entity), file)
    }
}

/// A server that is met for the first time is remembered: with the new file the same
/// certificate is known, and one with another fingerprint is refused.
pub proof fn law_first_use_is_remembered(
    target: Seq<char>,
    fingerprint: Seq<char>,
    other: Seq<char>,
    file: Option<&str>,
    json: &str,
    r: FirstUse,
    again: FirstUse,
    changed: FirstUse,
)
    requires
        first_use(target, fingerprint, file, r),
        r matches FirstUse::New { json: stored } && stored@ == json@,
        first_use(target, fingerprint, Some(json), again),
        first_use(target, other, Some(json), changed),
        other != fingerprint,
    ensures
        again is Known,
        changed is Changed,
{
}

/// One file of the index.
#[derive(Debug)]
pub struct FileIndexing {
    pub id: usize,
    pub name: String,
    pub size: u64,
    pub path: String,
    pub is_dir: bool,
    pub parent_dir: Option<String>,
}

impl View for FileIndexing {
    type V = FileView;

    open spec fn view(&self) -> FileView {
        FileView {
            id: self.id as nat,
            name: self.name@,
            size: self.size as nat,
            path: self.path@,
            is_dir: self.is_dir,
            parent_dir: index::view_option(self.parent_dir),
        }
    }
}

/// What a list of files says.
pub open spec fn view_files(files: Seq<FileIndexing>) -> Seq<FileView> {
    files.map_values(|f: FileIndexing| f@)
}

/// The files of a phone.
#[derive(Debug)]
pub struct DeviceIndex {
    pub files: Vec<FileIndexing>,
}

/// What is listed of an entry that is no folder, under the next number.
pub open spec fn numbered(e: EntryView, number: nat, parent: Option<Seq<char>>) -> FileView {
    FileView {
        id: number,
        name: e.name,
        size: match e.size {
            Some(n) => n as nat,
            None => 0,
        },
        path: e.path,
        is_dir: false,
        parent_dir: parent,
    }
}

/// The files listed after `entries` were added to `files`: those that are no folders, in
/// order, each under the next number.
pub open spec fn with_files(
    files: Seq<FileView>,
    entries: Seq<EntryView>,
    parent: Option<Seq<char>>,
) -> Seq<FileView>
    decreases entries.len(),
{
    if entries.len() == 0 {
        files
    } else {
        let before = with_files(files, entries.drop_last(), parent);
        if entries.last().is_folder() {
            before
        } else {
            before.push(numbered(entries.last(), before.len() + 1, parent))
        }
    }
}

/// The folders among `entries`.
pub open spec fn folders_in(entries: Seq<EntryView>) -> Seq<Seq<char>> {
    entries.filter(|e: EntryView| e.is_folder()).map_values(|e: EntryView| e.path)
}

/// A list of paths.
pub open spec fn view_paths(dirs: Seq<String>) -> Seq<Seq<char>> {
    dirs.map_values(|d: String| d@)
}

/// Whether files are numbered from one, in order.
pub open spec fn is_numbered(files: Seq<FileView>) -> bool {
    forall|i: int| 0 <= i < files.len() ==> (#[trigger] files[i]).id == i + 1
}

/// An index in the making: the folders that are still to be listed, and the files found.
pub struct FlatIndexer {
    dirs: Vec<String>,
    files: Vec<FileIndexing>,
}

impl FlatIndexer {
    /// The folders that are still to be listed.
    pub closed spec fn dirs(&self) -> Seq<Seq<char>> {
        view_paths(self.dirs@)
    }

    /// The files found so far.
    pub closed spec fn files(&self) -> Seq<FileView> {
        view_files(self.files@)
    }

    /// An index of one folder, which is still to be listed.
    pub fn new(root: String) -> (r: FlatIndexer)
        ensures
            r.dirs() == seq![root@],
            r.files() == Seq::<FileView>::empty(),
    {
        let ghost first = root@;
        let mut dirs: Vec<String> = Vec::new();
        dirs.push(root);
        let r = FlatIndexer { dirs, files: Vec::new() };
        assert(r.dirs() =~= seq![first]);
        assert(r.files() =~= Seq::<FileView>::empty());
        r
    }

    /// Hands out the folder that was found last, to be listed.
    pub fn next_folder(&mut self) -> (r: Option<String>)
        ensures
            final(self).files() == old(self).files(),
            match r {
                Some(dir) => {
                    &&& old(self).dirs().len() > 0
                    &&& dir@ == old(self).dirs().last()
                    &&& final(self).dirs() == old(self).dirs().drop_last()
                },
                None => old(self).dirs().len() == 0 && final(self).dirs() == old(self).dirs(),
            },
    {
        let r = self.dirs.pop();
        assert(r is Some ==> self.dirs() =~= old(self).dirs().drop_last());
        r
    }

    /// How many files were found.
    pub fn count(&self) -> (r: usize)
        ensures
            r == self.files().len(),
    {
        self.files.len()
    }

    /// Adds the listing of a folder: its files get the next numbers and the name of the folder
    /// as their parent, its folders are to be listed.
    pub fn file_indexing(&mut self, dir: &str, entries: Vec<FolderEntry>)
        requires
            old(self).files().len() + entries@.len() < usize::MAX,
        ensures
            exists|parent: Option<Seq<char>>|
                {
                    &&& #[trigger] paths::names_file(dir@, parent)
                    &&& final(self).files() == with_files(
                        old(self).files(),
                        index::view_entries(entries@),
                        parent,
                    )
                },
            final(self).dirs() == old(self).dirs() + folders_in(index::view_entries(entries@)),
    {
        let parent = paths::file_name(dir);
        let ghost all = index::view_entries(entries@);
        let ghost shown = index::view_option(parent);
        let mut i: usize = 0;
        proof {
            reveal(Seq::filter);
            assert(paths::names_file(dir@, shown));
            assert(all.take(0) =~= Seq::<EntryView>::empty());
            assert(self.dirs() =~= old(self).dirs() + folders_in(all.take(0)));
        }
        while i < entries.len()
            invariant
                i <= entries@.len(),
                all == index::view_entries(entries@),
                shown == index::view_option(parent),
                old(self).files().len() + entries@.len() < usize::MAX,
                self.files().len() <= old(self).files().len() + i,
                self.files() == with_files(old(self).files(), all.take(i as int), shown),
                self.dirs() == old(self).dirs() + folders_in(all.take(i as int)),
            decreases entries@.len() - i,
        {
            let e: &FolderEntry = &entries[i];
            let ghost files_before = self.files();
            let ghost dirs_before = self.dirs();
            proof {
                reveal(Seq::filter);
                assert(all[i as int] == e@);
                assert(all.take(i + 1).drop_last() =~= all.take(i as int));
                assert(all.take(i + 1).last() == e@);
            }
            let is_dir: bool = match e.is_dir {
                Some(d) => d,
                None => false,
            };
            if is_dir {
                self.dirs.push(e.path.clone());
                proof {
                    let folder = |x: EntryView| x.is_folder();
                    assert(all.take(i + 1).filter(folder) =~= all.take(i as int).filter(
                        folder,
                    ).push(e@));
                    assert(folders_in(all.take(i + 1)) =~= folders_in(all.take(i as int)).push(
                        e.path@,
                    ));
                    assert(self.dirs() =~= dirs_before.push(e.path@));
                    assert(self.dirs() =~= old(self).dirs() + folders_in(all.take(i + 1)));
                }
            } else {
                let id: usize = self.files.len() + 1;
                let size: u64 = match e.size {
                    Some(n) => n,
                    None => 0,
                };
                let file = FileIndexing {
                    id,
                    name: e.name.clone(),
                    size,
                    path: e.path.clone(),
                    is_dir: false,
                    parent_dir: index::copy_option(&parent),
                };
                let ghost said = numbered(e@, id as nat, shown);
                assert(file@ =~= said);
                self.files.push(file);
                assert(self.files() =~= files_before.push(said));
                assert(folders_in(all.take(i + 1)) =~= folders_in(all.take(i as int)));
            }
            i += 1;
        }
        assert(all.take(i as int) =~= all);
    }

    /// The index of all files found.
    pub fn finish(self) -> (r: DeviceIndex)
        ensures
            view_files(r.files@) == self.files(),
    {
        DeviceIndex { files: self.files }
    }
}

/// Adding a listing keeps files numbered from one, without gaps.
pub proof fn law_files_stay_numbered(
    files: Seq<FileView>,
    entries: Seq<EntryView>,
    parent: Option<Seq<char>>,
)
    requires
        is_numbered(files),
    ensures
        is_numbered(with_files(files, entries, parent)),
    decreases entries.len(),
{
    if entries.len() > 0 {
        law_files_stay_numbered(files, entries.drop_last(), parent);
    }
}

/// Where files are numbered from one, no two have the same number.
pub proof fn law_numbers_tell_files_apart(files: Seq<FileView>, i: int, j: int)
    requires
        is_numbered(files),
        0 <= i < files.len(),
        0 <= j < files.len(),
        files[i].id == files[j].id,
    ensures
        i == j,
{
}

/// The first file with the given number.
pub open spec fn is_first_numbered(files: Seq<FileIndexing>, id: usize, i: int) -> bool {
    &&& 0 <= i < files.len()
    &&& files[i].id == id
    &&& forall|k: int| 0 <= k < i ==> (#[trigger] files[k]).id != id
}

/// The number in the eight bytes of a download request, cut to a machine word.
pub open spec fn requested_number(id_bytes: Seq<u8>) -> usize {
    (wire::be_value(id_bytes) as u64) as usize
}

/// Whether `r` is the file that the eight bytes of a download request ask for: the first with
/// the number in them, if there is one.
pub open spec fn is_requested(
    files: Seq<FileIndexing>,
    id_bytes: Seq<u8>,
    r: Option<&FileIndexing>,
) -> bool {
    match r {
        Some(f) => exists|i: int| #[trigger]
            is_first_numbered(files, requested_number(id_bytes), i) && *f == files[i],
        None => forall|k: int|
            0 <= k < files.len() ==> (#[trigger] files[k]).id != requested_number(id_bytes),
    }
}

/// A client that asks for a listed number is served a file with that very number, the first one
/// in the list.
pub proof fn law_listed_number_is_served(
    files: Seq<FileIndexing>,
    id_bytes: Seq<u8>,
    k: int,
    r: Option<&FileIndexing>,
)
    requires
        0 <= k < files.len(),
        id_bytes == wire::be_bytes(files[k].id as nat, 8),
        is_requested(files, id_bytes, r),
    ensures
        r is Some,
        r->0.id == files[k].id,
        exists|i: int| 0 <= i <= k && *(r->0) == #[trigger] files[i],
{
    wire::lemma_pow256_values();
    wire::law_be_value_of_bytes(files[k].id as nat, 8);
    if let Some(f) = r {
        let i = choose|i: int| #[trigger]
            is_first_numbered(files, requested_number(id_bytes), i) && *f == files[i];
        assert(i <= k);
    }
}

/// Where files are numbered from one, the client that asks for a number is served the file at
/// that place of the list.
pub proof fn law_number_is_the_place_that_is_served(
    files: Seq<FileIndexing>,
    id_bytes: Seq<u8>,
    k: int,
    r: Option<&FileIndexing>,
)
    requires
        is_numbered(view_files(files)),
        0 <= k < files.len(),
        k < usize::MAX,
        id_bytes == wire::be_bytes((k + 1) as nat, 8),
        is_requested(files, id_bytes, r),
    ensures
        r is Some,
        *(r->0) == files[k],
{
    assert(view_files(files)[k].id == k + 1);
    law_listed_number_is_served(files, id_bytes, k, r);
    let i = choose|i: int| 0 <= i <= k && *(r->0) == #[trigger] files[i];
    assert(view_files(files)[i].id == i + 1);
}

/// A number that is not listed is served nothing, and what is served is an entry of the list with
/// the number that was asked for, as far as that fits in a machine word.
pub proof fn law_only_listed_numbers_are_served(
    files: Seq<FileIndexing>,
    number: u64,
    r: Option<&FileIndexing>,
)
    requires
        number <= usize::MAX,
        is_requested(files, wire::be_bytes(number as nat, 8), r),
    ensures
        r is Some ==> r->0.id == number && files.contains(*(r->0)),
        r is None ==> forall|k: int| 0 <= k < files.len() ==> (#[trigger] files[k]).id != number,
{
    wire::lemma_pow256_values();
    wire::law_be_value_of_bytes(number as nat, 8);
}

/// The file that a download request asks for, given the eight bytes that follow
/// its code.
pub fn handle_sending_requested_file<'a>(dev_idx: &'a DeviceIndex, id_bytes: &[u8]) -> (r: Option<
    &'a FileIndexing,
>)
    requires
        id_bytes@.len() == 8,
    ensures
        is_requested(dev_idx.files@, id_bytes@, r),
{
    let target_id: usize = wire::decode_file_id(id_bytes) as usize;
    let mut i: usize = 0;
    while i < dev_idx.files.len()
        invariant
            i <= dev_idx.files@.len(),
            target_id == requested_number(id_bytes@),
            forall|k: int| 0 <= k < i ==> (#[trigger] dev_idx.files@[k]).id != target_id,
        decreases dev_idx.files@.len() - i,
    {
        if dev_idx.files[i].id == target_id {
            assert(is_first_numbered(dev_idx.files@, target_id, i as int));
            return Some(&dev_idx.files[i]);
        }
        i += 1;
    }
    None
}

/// What is shown as the folder of a file.
pub fn parent_label(file: &FileIndexing) -> (r: String)
    ensures
        r@ == match file.parent_dir {
            Some(name) => name@,
            None => "Root"@,
        },
{
    match &file.parent_dir {
        Some(name) => name.clone(),
        None => "Root".to_owned(),
    }
}

/// What an encrypted index is sent as: the bytes, the salt and the nonce, each behind its
/// length.
pub open spec fn bundle(sealed: Sealed) -> Seq<u8> {
    wire::blobs(seq![sealed.bytes@, sealed.salt@, sealed.nonce@])
}

/// What an encrypted index is sent as.
pub fn handle_sending_json(sealed: &Sealed) -> (r: Vec<u8>)
    ensures
        r@ == bundle(*sealed),
{
    let mut r = wire::encode_blob(sealed.bytes.as_slice());
    let mut salt = wire::encode_blob(sealed.salt.as_slice());
    let mut nonce = wire::encode_blob(sealed.nonce.as_slice());
    r.append(&mut salt);
    r.append(&mut nonce);
    proof {
        reveal_with_fuel(wire::blobs, 4);
        let a = seq![sealed.bytes@];
        let b = seq![sealed.bytes@, sealed.salt@];
        let c = seq![sealed.bytes@, sealed.salt@, sealed.nonce@];
        assert(c.drop_last() =~= b);
        assert(b.drop_last() =~= a);
        assert(a.drop_last() =~= Seq::<Seq<u8>>::empty());
        assert(r@ =~= wire::blobs(c));
    }
    r
}

/// The encrypted index in the three blobs that were received: the bytes, the salt and the
/// nonce.
pub fn received_bundle(parts: Vec<Vec<u8>>) -> (r: Sealed)
    requires
        parts@.len() == 3,
    ensures
        r.bytes@ == parts@[0]@,
        r.salt@ == parts@[1]@,
        r.nonce@ == parts@[2]@,
{
    let mut parts = parts;
    let nonce = parts.swap_remove(2);
    let salt = parts.swap_remove(1);
    let bytes = parts.swap_remove(0);
    Sealed { bytes, nonce, salt }
}

/// Whoever reads three blobs of what a phone sends gets its encrypted index back.
pub proof fn law_bundle_is_understood(sealed: Sealed)
    requires
        sealed.bytes@.len() <= u64::MAX,
        sealed.salt@.len() <= u64::MAX,
        sealed.nonce@.len() <= u64::MAX,
    ensures
        wire::read_blobs(bundle(sealed), 3) == Some(
            (seq![sealed.bytes@, sealed.salt@, sealed.nonce@], Seq::<u8>::empty()),
        ),
{
    let parts = seq![sealed.bytes@, sealed.salt@, sealed.nonce@];
    wire::law_blobs_round_trip(parts, Seq::empty());
    assert(bundle(sealed) + Seq::<u8>::empty() =~= bundle(sealed));
}

/// How far the reception of a file has come.
#[derive(Debug)]
pub enum Receive {
    /// The length of the name comes next.
    NameLength,
    /// The name comes next.
    Name { len: usize },
    /// The size comes next.
    Size { name: String },
    /// It is to be found out whether the target is there already.
    Target { path: String },
    /// Nothing is left to do.
    Done,
}

/// What has to be done next.
#[derive(Debug)]
pub enum ReceiveAction {
    /// Read exactly this many bytes.
    Read(usize),
    /// Find out whether there is something at this path.
    Probe(String),
    /// Send this and close the stream.
    Reply(Vec<u8>),
    /// Store the rest of the stream at this path.
    Store(String),
}

/// What came of the last action.
#[derive(Debug)]
pub enum ReceiveEvent {
    /// The bytes that were read.
    Bytes(Vec<u8>),
    /// Whether there is something at the path.
    Exists(bool),
}

/// The outcome of one step.
pub type Stepped = Result<(Receive, ReceiveAction), AppError>;

impl Receive {
    /// Whether `event` is what the last action leads to.
    pub open spec fn expects(self, event: ReceiveEvent) -> bool {
        match self {
            Receive::NameLength => event matches ReceiveEvent::Bytes(b) && b@.len() == 2,
            Receive::Name { len } => event matches ReceiveEvent::Bytes(b) && b@.len() == len,
            Receive::Size { .. } => event matches ReceiveEvent::Bytes(b) && b@.len() == 8,
            Receive::Target { .. } => event is Exists,
            Receive::Done => false,
        }
    }

    /// Whether `r` is what comes of `event`. The name is joined to the download folder as it
    /// was sent, and the announced size is not looked at.
    pub open spec fn steps_to(self, event: ReceiveEvent, r: Stepped) -> bool {
        match self {
            Receive::NameLength => {
                &&& r matches Ok((Receive::Name { len }, ReceiveAction::Read(n)))
                &&& len == wire::be_value(event->Bytes_0@)
                &&& n == len
            },
            Receive::Name { .. } => {
                let b = event->Bytes_0@;
                if vstd::utf8::valid_utf8(b) {
                    &&& r matches Ok((Receive::Size { name }, ReceiveAction::Read(n)))
                    &&& name@ == vstd::utf8::decode_utf8(b)
                    &&& n == 8
                } else {
                    &&& r matches Err(AppError::Utf8Error(message))
                    &&& message@ == text::utf8_error_text(b)
                }
            },
            Receive::Size { name } => {
                &&& r matches Ok((Receive::Target { path }, ReceiveAction::Probe(asked)))
                &&& paths::joins_to("/sdcard/Download/"@, name@, path@)
                &&& asked@ == path@
            },
            Receive::Target { path } => if event->Exists_0 {
                &&& r matches Ok((Receive::Done, ReceiveAction::Reply(bytes)))
                &&& bytes@ == vstd::utf8::encode_utf8("ALREADY_EXISTS"@)
            } else {
                &&& r matches Ok((Receive::Done, ReceiveAction::Store(target)))
                &&& target@ == path@
            },
            Receive::Done => false,
        }
    }

    /// The start of a reception: the length of the name comes first.
    pub fn begin() -> (r: (Receive, ReceiveAction))
        ensures
            r.0 is NameLength,
            r.1 == ReceiveAction::Read(2),
    {
        (Receive::NameLength, ReceiveAction::Read(2))
    }

    /// What comes of `event`.
    pub fn step(self, event: ReceiveEvent) -> (r: Stepped)
        requires
            self.expects(event),
        ensures
            self.steps_to(event, r),
    {
        match self {
            Receive::NameLength => match event {
                ReceiveEvent::Bytes(b) => {
                    proof {
                        wire::lemma_be_value_bound(b@);
                        wire::lemma_pow256_values();
                    }
                    let len: usize = wire::decode_be(b.as_slice()) as usize;
                    Ok((Receive::Name { len }, ReceiveAction::Read(len)))
                },
                _ => Err(AppError::InvalidFileName),
            },
            Receive::Name { .. } => match event {
                ReceiveEvent::Bytes(b) => match text::from_utf8(b) {
                    Ok(name) => Ok((Receive::Size { name }, ReceiveAction::Read(8))),
                    Err(message) => Err(AppError::Utf8Error(message)),
                },
                _ => Err(AppError::InvalidFileName),
            },
            Receive::Size { name } => {
                let path = paths::joined_path("/sdcard/Download/", name.as_str());
                let asked = path.clone();
                Ok((Receive::Target { path }, ReceiveAction::Probe(asked)))
            },
            Receive::Target { path } => match event {
                ReceiveEvent::Exists(true) => {
                    let reply: Vec<u8> = "ALREADY_EXISTS".as_bytes_vec();
                    Ok((Receive::Done, ReceiveAction::Reply(reply)))
                },
                _ => Ok((Receive::Done, ReceiveAction::Store(path))),
            },
            Receive::Done => Err(AppError::InvalidFileName),
        }
    }
}

/// The line that shows a device.
pub open spec fn device_line(d: discovery::DeviceView) -> Seq<char> {
    text::decimal(d.index) + " - Device: "@ + d.name + ", IP: "@ + d.ip
}

/// The lines that show devices.
pub open spec fn device_lines(devices: Seq<DeviceInfo>) -> Seq<Seq<char>> {
    devices.map_values(|d: DeviceInfo| device_line(d@))
}

fn lines_of(devices: &Vec<DeviceInfo>) -> (r: Vec<String>)
    ensures
        view_paths(r@) == device_lines(devices@),
{
    let mut r: Vec<String> = Vec::new();
    let mut i: usize = 0;
    while i < devices.len()
        invariant
            i <= devices@.len(),
            r@.len() == i,
            forall|k: int| 0 <= k < i ==> (#[trigger] r@[k])@ == device_line(devices@[k]@),
        decreases devices@.len() - i,
    {
        let d: &DeviceInfo = &devices[i];
        let mut line = text::concat3(
            text::decimal_text(d.index as u128).as_str(),
            " - Device: ",
            d.name.as_str(),
        );
        line.append(", IP: ");
        line.append(d.ip.as_str());
        r.push(line);
        i += 1;
    }
    assert(view_paths(r@) =~= device_lines(devices@));
    r
}

/// The first device with the given index.
pub open spec fn is_first_indexed(devices: Seq<DeviceInfo>, index: nat, i: int) -> bool {
    &&& 0 <= i < devices.len()
    &&& devices[i].index == index
    &&& forall|k: int| 0 <= k < i ==> (#[trigger] devices[k]).index != index
}

/// Whether `r` is what comes of choosing among `devices`: the answer must be a number that
/// fits in a byte, and a device must have it.
pub open spec fn chooses(
    devices: Seq<DeviceInfo>,
    answer: Seq<char>,
    r: Result<(String, String), AppError>,
) -> bool {
    match text::parsed_up_to(text::trimmed(answer), 255) {
        None => {
            &&& r matches Err(AppError::InvalidInput(message))
            &&& message@ == "Invalid number"@
        },
        Some(n) => match r {
            Ok(chosen) => exists|i: int| #[trigger]
                is_first_indexed(devices, n, i) && chosen.0@ == devices[i].name@ && chosen.1@
                    == devices[i].ip@,
            Err(e) => {
                &&& e is ServerNotFound
                &&& forall|k: int| 0 <= k < devices.len() ==> (#[trigger] devices[k]).index != n
            },
        },
    }
}

/// The name and the address of the device that an answer chooses.
pub fn choose_device(devices: &Vec<DeviceInfo>, answer: &str) -> (r: Result<
    (String, String),
    AppError,
>)
    ensures
        chooses(devices@, answer@, r),
{
    match console::device_number(answer) {
        None => Err(AppError::InvalidInput("Invalid number".to_owned())),
        Some(n) => {
            let mut i: usize = 0;
            while i < devices.len()
                invariant
                    i <= devices@.len(),
                    text::parsed_up_to(text::trimmed(answer@), 255) == Some(n as nat),
                    forall|k: int| 0 <= k < i ==> (#[trigger] devices@[k]).index != n,
                decreases devices@.len() - i,
            {
                if devices[i].index == n {
                    assert(is_first_indexed(devices@, n as nat, i as int));
                    return Ok((devices[i].name.clone(), devices[i].ip.clone()));
                }
                i += 1;
            }
            Err(AppError::ServerNotFound)
        },
    }
}

/// How far a client has come.
pub enum Client {
    /// It listens for devices.
    Searching { session: DiscoverySession },
    /// Its user chooses a device.
    Choosing { devices: Vec<DeviceInfo> },
    /// It connects to the device.
    Connecting,
    /// It shows the index of the device.
    Showing,
    /// Its user is asked whether to download anything.
    Asking,
    /// Its user chooses files.
    Selecting,
    /// It downloads files.
    Downloading,
    /// Nothing is left to do.
    Done,
}

/// What can happen to a client.
#[derive(Debug)]
pub enum ClientEvent {
    /// A message, read as text, came from an address.
    Message { text: String, from: String },
    /// No message came in time, or none can come.
    Silence,
    /// The user typed this.
    Line(String),
    /// The last action is done.
    Done,
}

/// The event of a datagram: whatever it holds is taken for the name of a device.
pub fn heard(datagram: &[u8], from: String) -> (r: ClientEvent)
    ensures
        is_heard(datagram@, from@, r),
{
    ClientEvent::Message { text: text::from_utf8_lossy(datagram), from }
}

/// Whether `event` is that of a datagram from an address.
pub open spec fn is_heard(datagram: Seq<u8>, from: Seq<char>, event: ClientEvent) -> bool {
    &&& event matches ClientEvent::Message { text: t, from: f }
    &&& t@ == text::utf8_lossy(datagram)
    &&& vstd::utf8::valid_utf8(datagram) ==> t@ == vstd::utf8::decode_utf8(datagram)
    &&& f@ == from
}

/// What a client does next.
#[derive(Debug)]
pub enum ClientAction {
    /// Wait for a message.
    Listen,
    /// Say this and stop.
    Stop { message: String },
    /// Show these lines and ask this.
    Choose { lines: Vec<String>, prompt: String },
    /// Connect to the device of this name at this address.
    Connect { name: String, ip: String },
    /// Fetch the index and show it.
    ShowIndex,
    /// Ask this.
    Ask { prompt: String },
    /// Download the files with these numbers, side by side.
    Download { ids: Vec<usize> },
    /// There is nothing to do any more.
    Finish,
}

/// The outcome of one step of a client.
pub type ClientStep = Result<(Client, ClientAction), AppError>;

impl Client {
    /// Whether the client is in a state that it can be in.
    pub open spec fn wf(self) -> bool {
        self matches Client::Searching { session } ==> session.wf()
    }

    /// Whether `event` is what the last action leads to.
    pub open spec fn expects(self, event: ClientEvent) -> bool {
        match self {
            Client::Searching { .. } => event is Message || event is Silence,
            Client::Choosing { .. } => event is Line,
            Client::Connecting => event is Done,
            Client::Showing => event is Done,
            Client::Asking => event is Line,
            Client::Selecting => event is Line,
            Client::Downloading => event is Done,
            Client::Done => false,
        }
    }

    /// Whether `r` is what comes of `event`.
    pub open spec fn steps_to(self, event: ClientEvent, r: ClientStep) -> bool {
        match self {
            Client::Searching { session } => match event {
                ClientEvent::Message { text, from } => if session.devices().len()
                    < discovery::MAX_DEVICES {
                    &&& r matches Ok((Client::Searching { session: after }, ClientAction::Listen))
                    &&& session.adds(text@, from@, after, DiscoveryStep::Continue)
                } else {
                    &&& r matches Err(AppError::InvalidInput(message))
                    &&& message@ == "Too many devices"@
                },
                _ => if session.devices().len() == 0 {
                    &&& r matches Ok((Client::Done, ClientAction::Stop { message }))
                    &&& message@ == "No servers found on the network."@
                } else {
                    &&& r matches Ok(
                        (Client::Choosing { devices }, ClientAction::Choose { lines, prompt }),
                    )
                    &&& discovery::view_devices(devices@) == session.devices()
                    &&& view_paths(lines@) == device_lines(devices@)
                    &&& prompt@ == "Choose a server (num): "@
                },
            },
            Client::Choosing { devices } => match r {
                Ok((Client::Connecting, ClientAction::Connect { name, ip })) => chooses(
                    devices@,
                    event->Line_0@,
                    Ok((name, ip)),
                ),
                Err(e) => chooses(devices@, event->Line_0@, Err(e)),
                _ => false,
            },
            Client::Connecting => r matches Ok((Client::Showing, ClientAction::ShowIndex)),
            Client::Showing => {
                &&& r matches Ok((Client::Asking, ClientAction::Ask { prompt }))
                &&& prompt@ == "Do you want to request/download a file? (y/n)"@
            },
            Client::Asking => if event->Line_0@ == "y"@ || event->Line_0@ == "Y"@ {
                &&& r matches Ok((Client::Selecting, ClientAction::Ask { prompt }))
                &&& prompt@ == "Enter the file/s number (split with a comma): "@
            } else {
                r matches Ok((Client::Done, ClientAction::Finish))
            },
            Client::Selecting => {
                &&& r matches Ok((Client::Downloading, ClientAction::Download { ids }))
                &&& ids@.map_values(|n: usize| n as nat) == console::numbers(
                    text::pieces(event->Line_0@, ','),
                )
            },
            Client::Downloading => {
                &&& r matches Ok((Client::Done, ClientAction::Stop { message }))
                &&& message@ == "Finished all requests successfully."@
            },
            Client::Done => false,
        }
    }

    /// A client that has found nothing yet, and listens.
    pub fn begin() -> (r: (Client, ClientAction))
        ensures
            r.0.wf(),
            r.0 matches Client::Searching { session } && session.devices().len() == 0,
            r.1 is Listen,
    {
        (Client::Searching { session: DiscoverySession::new() }, ClientAction::Listen)
    }

    /// What comes of `event`.
    pub fn step(self, event: ClientEvent) -> (r: ClientStep)
        requires
            self.wf(),
            self.expects(event),
        ensures
            self.steps_to(event, r),
            r is Ok ==> r->Ok_0.0.wf(),
    {
        match self {
            Client::Searching { session } => match event {
                ClientEvent::Message { text, from } => {
                    let mut session = session;
                    match session.add(text, from) {
                        DiscoveryStep::Continue => Ok(
                            (Client::Searching { session }, ClientAction::Listen),
                        ),
                        _ => Err(AppError::InvalidInput("Too many devices".to_owned())),
                    }
                },
                _ => {
                    let devices = session.into_devices();
                    if devices.len() == 0 {
                        let message = "No servers found on the network.".to_owned();
                        Ok((Client::Done, ClientAction::Stop { message }))
                    } else {
                        let lines = lines_of(&devices);
                        let prompt = "Choose a server (num): ".to_owned();
                        Ok((Client::Choosing { devices }, ClientAction::Choose { lines, prompt }))
                    }
                },
            },
            Client::Choosing { devices } => match event {
                ClientEvent::Line(line) => match choose_device(&devices, line.as_str()) {
                    Ok((name, ip)) => Ok((Client::Connecting, ClientAction::Connect { name, ip })),
                    Err(e) => Err(e),
                },
                _ => Err(AppError::ServerNotFound),
            },
            Client::Connecting => Ok((Client::Showing, ClientAction::ShowIndex)),
            Client::Showing => {
                let prompt = "Do you want to request/download a file? (y/n)".to_owned();
                Ok((Client::Asking, ClientAction::Ask { prompt }))
            },
            Client::Asking => match event {
                ClientEvent::Line(line) => if console::agrees(line.as_str()) {
                    let prompt = "Enter the file/s number (split with a comma): ".to_owned();
                    Ok((Client::Selecting, ClientAction::Ask { prompt }))
                } else {
                    Ok((Client::Done, ClientAction::Finish))
                },
                _ => Ok((Client::Done, ClientAction::Finish)),
            },
            Client::Selecting => match event {
                ClientEvent::Line(line) => {
                    let ids = console::file_numbers(line.as_str());
                    Ok((Client::Downloading, ClientAction::Download { ids }))
                },
                _ => Ok((Client::Done, ClientAction::Finish)),
            },
            _ => {
                let message = "Finished all requests successfully.".to_owned();
                Ok((Client::Done, ClientAction::Stop { message }))
            },
        }
    }
}

/// Whether the devices that a client has found are counted from one.
pub open spec fn is_counted(client: Client) -> bool {
    match client {
        Client::Searching { session } => discovery::counted(session.devices()),
        Client::Choosing { devices } => discovery::counted(discovery::view_devices(devices@)),
        _ => true,
    }
}

/// A client that has found nothing counts from one, and each of its steps goes on so, up to the
/// devices among which its user chooses.
pub proof fn law_client_counts_devices(
    start: DiscoverySession,
    before: Client,
    event: ClientEvent,
    r: ClientStep,
)
    requires
        start.devices().len() == 0,
        is_counted(before),
        before.expects(event),
        before.steps_to(event, r),
    ensures
        is_counted(Client::Searching { session: start }),
        r is Ok ==> is_counted(r->Ok_0.0),
{
}

/// Where devices are counted from one, choosing a number that is shown connects to the device
/// that is shown under it.
pub proof fn law_shown_number_is_chosen(
    devices: Seq<DeviceInfo>,
    i: int,
    answer: Seq<char>,
    r: Result<(String, String), AppError>,
)
    requires
        discovery::counted(discovery::view_devices(devices)),
        0 <= i < devices.len(),
        text::parsed_up_to(text::trimmed(answer), 255) == Some(devices[i].index as nat),
        chooses(devices, answer, r),
    ensures
        r is Ok,
        r->Ok_0.0@ == devices[i].name@,
        r->Ok_0.1@ == devices[i].ip@,
{
    let shown = discovery::view_devices(devices);
    assert(shown[i].index == i + 1);
    if let Ok(chosen) = r {
        let k = choose|k: int| #[trigger]
            is_first_indexed(devices, devices[i].index as nat, k) && chosen.0@ == devices[k].name@
                && chosen.1@ == devices[k].ip@;
        assert(shown[k].index == k + 1);
    }
}

/// A listing is numbered entry by entry: a folder adds no file and is to be listed itself, and all
/// else adds one file, under the next number, with its own name, size and path.
pub proof fn law_numbering_one_entry(
    files: Seq<FileView>,
    e: EntryView,
    parent: Option<Seq<char>>,
)
    ensures
        e.is_dir == Some(true) ==> with_files(files, seq![e], parent) == files && folders_in(
            seq![e],
        ) == seq![e.path],
        e.is_dir != Some(true) ==> {
            let all = with_files(files, seq![e], parent);
            &&& folders_in(seq![e]).len() == 0
            &&& all.len() == files.len() + 1
            &&& all.drop_last() == files
            &&& all.last().id == files.len() + 1
            &&& all.last().name == e.name
            &&& all.last().path == e.path
            &&& all.last().size == match e.size {
                Some(n) => n as nat,
                None => 0,
            }
            &&& !all.last().is_dir
            &&& all.last().parent_dir == parent
        },
{
    reveal(Seq::filter);
    let one = seq![e];
    let none = one.drop_last();
    assert(none =~= Seq::<EntryView>::empty());
    assert(with_files(files, none, parent) == files);
    assert(none.filter(|x: EntryView| x.is_folder()) =~= Seq::empty());
    if e.is_dir == Some(true) {
        assert(folders_in(one) =~= seq![e.path]);
    } else {
        assert(folders_in(one) =~= Seq::empty());
        assert(with_files(files, one, parent).drop_last() =~= files);
    }
}

/// Two listings one after the other give what the second adds to what the first gives.
pub proof fn law_numbering_goes_entry_by_entry(
    files: Seq<FileView>,
    a: Seq<EntryView>,
    b: Seq<EntryView>,
    parent: Option<Seq<char>>,
)
    ensures
        with_files(files, a + b, parent) == with_files(with_files(files, a, parent), b, parent),
        folders_in(a + b) == folders_in(a) + folders_in(b),
        with_files(files, Seq::empty(), parent) == files,
        folders_in(Seq::empty()).len() == 0,
    decreases b.len(),
{
    reveal(Seq::filter);
    let folder = |e: EntryView| e.is_folder();
    Seq::filter_distributes_over_add(a, b, folder);
    assert(folders_in(a + b) =~= folders_in(a) + folders_in(b));
    if b.len() == 0 {
        assert(a + b =~= a);
    } else {
        assert((a + b).drop_last() =~= a + b.drop_last());
        assert((a + b).last() == b.last());
        law_numbering_goes_entry_by_entry(files, a, b.drop_last(), parent);
    }
}

/// A server is judged by the whole fingerprint that was remembered under its whole name: it is
/// known if that is the one it shows, changed if it is another, and new if there is none; then it
/// is remembered beside all the others. What cannot be read remembers nobody.
pub proof fn law_first_use_judges_by_name_and_fingerprint(
    target: Seq<char>,
    fingerprint: Seq<char>,
    file: Option<&str>,
    r: FirstUse,
)
    requires
        first_use(target, fingerprint, file, r),
    ensures
        ({
            let read = match file {
                Some(text) => peers::peers_json(text@),
                None => Ok(Map::empty()),
            };
            let known: Map<Seq<char>, Seq<char>> = match read {
                Ok(map) => map,
                Err(_) => Map::empty(),
            };
            &&& r is Known <==> known.dom().contains(target) && known[target] == fingerprint
            &&& r is Changed <==> known.dom().contains(target) && known[target] != fingerprint
            &&& r is New <==> !known.dom().contains(target)
            &&& r is New ==> peers::peers_json(r->json@) is Ok && peers::peers_json(
                r->json@,
            )->Ok_0 == known.insert(target, fingerprint)
            &&& r is Changed ==> r->message@ == "Host key fingerprint mismatch!"@
        }),
{
}

/// A device is shown with its whole name and address, behind its number.
pub proof fn law_device_line_tells_everything(
    d: discovery::DeviceView,
    devices: Seq<DeviceInfo>,
    i: int,
)
    ensures
        device_line(d) == text::decimal(d.index) + " - Device: "@ + d.name + ", IP: "@ + d.ip,
        device_lines(devices).len() == devices.len(),
        0 <= i < devices.len() ==> device_lines(devices)[i] == device_line(devices[i]@),
{
}

/// What is typed is no number that fits in a byte, or no device has it: only then is nothing
/// chosen; and what is chosen is the first device with the number that was typed.
pub proof fn law_choice_fails_only_for_a_reason(
    devices: Seq<DeviceInfo>,
    answer: Seq<char>,
    r: Result<(String, String), AppError>,
)
    requires
        chooses(devices, answer, r),
    ensures
        ({
            let typed = text::parsed_up_to(text::trimmed(answer), 255);
            &&& typed is None <==> (r is Err && r->Err_0 is InvalidInput)
            &&& typed is None ==> r->Err_0->InvalidInput_0@ == "Invalid number"@
            &&& (r is Err && r->Err_0 is ServerNotFound) <==> (typed is Some && forall|k: int|
                0 <= k < devices.len() ==> (#[trigger] devices[k]).index != typed->0)
            &&& r is Ok ==> typed is Some && exists|i: int|
                0 <= i < devices.len() && (#[trigger] devices[i]).index == typed->0
                    && r->Ok_0.0@ == devices[i].name@ && r->Ok_0.1@ == devices[i].ip@ && (forall|
                    k: int,
                |
                    0 <= k < i ==> (#[trigger] devices[k]).index != typed->0)
        }),
{
    let typed = text::parsed_up_to(text::trimmed(answer), 255);
    if r is Ok {
        let i = choose|i: int| #[trigger]
            is_first_indexed(devices, typed->0, i) && r->Ok_0.0@ == devices[i].name@ && r->Ok_0.1@
                == devices[i].ip@;
        assert(devices[i].index == typed->0);
    }
}

/// Whoever answers is kept with the whole text and address, under the next number; where the
/// search ends, all who answered are there to be chosen, or the client stops if nobody did.
pub proof fn law_client_keeps_every_answer(
    session: DiscoverySession,
    text: String,
    from: String,
    heard: ClientStep,
    ended: ClientStep,
)
    requires
        (Client::Searching { session }).steps_to(ClientEvent::Message { text, from }, heard),
        (Client::Searching { session }).steps_to(ClientEvent::Silence, ended),
        session.devices().len() < 254,
    ensures
        heard is Ok,
        heard->Ok_0.0 is Searching,
        heard->Ok_0.1 is Listen,
        ({
            let before = session.devices();
            let after = heard->Ok_0.0->session.devices();
            &&& after.len() == before.len() + 1
            &&& after.drop_last() == before
            &&& after.last().name == text@
            &&& after.last().ip == from@
            &&& after.last().index == before.len() + 1
        }),
        ended is Ok,
        session.devices().len() == 0 ==> ended->Ok_0.0 is Done && ended->Ok_0.1 is Stop,
        session.devices().len() > 0 ==> ended->Ok_0.0 is Choosing && ended->Ok_0.1 is Choose
            && discovery::view_devices(ended->Ok_0.0->devices@) == session.devices()
            && ended->Ok_0.1->lines@.len() == session.devices().len(),
{
    let before = session.devices();
    assert(before.push(heard->Ok_0.0->session.devices().last()).drop_last() =~= before);
    if before.len() > 0 {
        assert(view_paths(ended->Ok_0.1->lines@).len() == ended->Ok_0.1->lines@.len());
        assert(device_lines(ended->Ok_0.0->devices@).len() == ended->Ok_0.0->devices@.len());
    }
}

/// From a choice on, the client connects to the chosen device, shows its index, asks, and downloads
/// the numbers that were typed.
pub proof fn law_client_goes_on(
    devices: Vec<DeviceInfo>,
    line: String,
    chosen: ClientStep,
    connected: ClientStep,
    shown: ClientStep,
    asked: ClientStep,
    selected: ClientStep,
    loaded: ClientStep,
)
    requires
        (Client::Choosing { devices }).steps_to(ClientEvent::Line(line), chosen),
        Client::Connecting.steps_to(ClientEvent::Done, connected),
        Client::Showing.steps_to(ClientEvent::Done, shown),
        Client::Asking.steps_to(ClientEvent::Line(line), asked),
        Client::Selecting.steps_to(ClientEvent::Line(line), selected),
        Client::Downloading.steps_to(ClientEvent::Done, loaded),
    ensures
        chosen is Ok ==> chosen->Ok_0.0 is Connecting && chosen->Ok_0.1 is Connect && chooses(
            devices@,
            line@,
            Ok((chosen->Ok_0.1->name, chosen->Ok_0.1->ip)),
        ),
        chosen is Err ==> chooses(devices@, line@, Err(chosen->Err_0)),
        connected is Ok && connected->Ok_0.0 is Showing && connected->Ok_0.1 is ShowIndex,
        shown is Ok && shown->Ok_0.0 is Asking && shown->Ok_0.1 is Ask,
        line@ == "y"@ || line@ == "Y"@ <==> asked is Ok && asked->Ok_0.0 is Selecting
            && asked->Ok_0.1 is Ask,
        !(line@ == "y"@ || line@ == "Y"@) <==> asked is Ok && asked->Ok_0.0 is Done
            && asked->Ok_0.1 is Finish,
        selected is Ok && selected->Ok_0.0 is Downloading && selected->Ok_0.1 is Download,
        selected->Ok_0.1->ids@.map_values(|n: usize| n as nat) == console::numbers(
            text::pieces(line@, ','),
        ),
        loaded is Ok && loaded->Ok_0.0 is Done && loaded->Ok_0.1 is Stop,
{
}

/// The header of a file, read piece by piece as a phone asks for it, gives back the whole name; the
/// phone then asks about that name in its download folder, and stores the file there unless
/// something is there already.
pub proof fn law_phone_stores_under_the_sent_name(
    name: Seq<char>,
    size: u64,
    b1: Vec<u8>,
    b2: Vec<u8>,
    b3: Vec<u8>,
    r1: Stepped,
    r2: Stepped,
    r3: Stepped,
    free: Stepped,
    taken: Stepped,
)
    requires
        vstd::utf8::encode_utf8(name).len() <= 0xffff,
        b1@ + b2@ + b3@ == wire::file_header(vstd::utf8::encode_utf8(name), size),
        b1@.len() == 2,
        b3@.len() == 8,
        Receive::NameLength.steps_to(ReceiveEvent::Bytes(b1), r1),
        r1 is Ok ==> r1->Ok_0.0.steps_to(ReceiveEvent::Bytes(b2), r2),
        r2 is Ok ==> r2->Ok_0.0.steps_to(ReceiveEvent::Bytes(b3), r3),
        r3 is Ok ==> r3->Ok_0.0.steps_to(ReceiveEvent::Exists(false), free),
        r3 is Ok ==> r3->Ok_0.0.steps_to(ReceiveEvent::Exists(true), taken),
    ensures
        r1 is Ok && r1->Ok_0.1 == ReceiveAction::Read(b2@.len() as usize),
        r2 is Ok && r2->Ok_0.1 == ReceiveAction::Read(8),
        r3 is Ok && r3->Ok_0.1 is Probe,
        paths::joins_to("/sdcard/Download/"@, name, r3->Ok_0.1->Probe_0@),
        free is Ok && free->Ok_0.1 is Store && free->Ok_0.1->Store_0@ == r3->Ok_0.1->Probe_0@,
        taken is Ok && taken->Ok_0.1 is Reply && taken->Ok_0.1->Reply_0@
            == vstd::utf8::encode_utf8("ALREADY_EXISTS"@),
{
    let bytes = vstd::utf8::encode_utf8(name);
    let header = wire::file_header(bytes, size);
    wire::law_file_header_round_trip(bytes, size);
    assert(b1@ =~= header.take(2));
    assert(b2@ =~= header.subrange(2, 2 + bytes.len() as int));
    vstd::utf8::encode_utf8_valid_utf8(name);
    vstd::utf8::encode_utf8_decode_utf8(name);
}

/// Files and lists of them say all that they hold.
pub proof fn law_phone_files_say_what_they_hold(
    f: FileIndexing,
    files: Seq<FileIndexing>,
    dirs: Seq<String>,
    i: int,
)
    ensures
        f@.id == f.id,
        f@.name == f.name@,
        f@.size == f.size,
        f@.path == f.path@,
        f@.is_dir == f.is_dir,
        f.parent_dir is None <==> f@.parent_dir is None,
        f.parent_dir is Some ==> f@.parent_dir == Some(f.parent_dir->0@),
        view_files(files).len() == files.len(),
        0 <= i < files.len() ==> view_files(files)[i] == files[i]@,
        view_paths(dirs).len() == dirs.len(),
        0 <= i < dirs.len() ==> view_paths(dirs)[i] == dirs[i]@,
{
}

/// What a phone sends is its encrypted index, then the salt, then the nonce, each behind its
/// length.
pub proof fn law_bundle_order(sealed: Sealed)
    ensures
        bundle(sealed) == wire::blob(sealed.bytes@) + wire::blob(sealed.salt@) + wire::blob(
            sealed.nonce@,
        ),
{
    let a = Seq::<Seq<u8>>::empty();
    let b = a.push(sealed.bytes@);
    let c = b.push(sealed.salt@);
    let d = c.push(sealed.nonce@);
    wire::law_blobs_stand_in_order(a, sealed.bytes@);
    wire::law_blobs_stand_in_order(b, sealed.salt@);
    wire::law_blobs_stand_in_order(c, sealed.nonce@);
    assert(d =~= seq![sealed.bytes@, sealed.salt@, sealed.nonce@]);
    assert(bundle(sealed) =~= wire::blob(sealed.bytes@) + wire::blob(sealed.salt@) + wire::blob(
        sealed.nonce@,
    ));
}

/// An index of a phone starts with its folder and no file; folders are handed out as long as there
/// are any, and none is lost.
pub proof fn law_indexer_hands_out_folders(
    root: String,
    first: FlatIndexer,
    indexer: &mut FlatIndexer,
    r: Option<String>,
)
    requires
        call_ensures(FlatIndexer::new, (root,), first),
        call_ensures(FlatIndexer::next_folder, (indexer,), r),
    ensures
        first.dirs() == seq![root@],
        first.files().len() == 0,
        final(indexer).files() == old(indexer).files(),
        r is None <==> old(indexer).dirs().len() == 0,
        r is None ==> final(indexer).dirs() == old(indexer).dirs(),
        r is Some ==> final(indexer).dirs().push(r->0@) == old(indexer).dirs(),
{
    if r is Some {
        let dirs = old(indexer).dirs();
        assert(dirs.drop_last().push(dirs.last()) =~= dirs);
    }
}

/// A phone takes in every entry of a listing: each that the file system calls a folder is to be
/// listed, and each other is a file with the next number.
pub proof fn law_indexer_takes_in_listings(
    indexer: &mut FlatIndexer,
    dir: &str,
    entries: Vec<FolderEntry>,
)
    requires
        call_ensures(FlatIndexer::file_indexing, (indexer, dir, entries), ()),
    ensures
        final(indexer).dirs() == old(indexer).dirs() + folders_in(index::view_entries(entries@)),
        exists|parent: Option<Seq<char>>| #[trigger]
            paths::names_file(dir@, parent) && final(indexer).files() == with_files(
                old(indexer).files(),
                index::view_entries(entries@),
                parent,
            ),
{
}

/// A phone that is done gives the files that it found, all of them and in order.
pub proof fn law_finished_indexer_gives_what_was_found(
    indexer: FlatIndexer,
    n: usize,
    r: DeviceIndex,
    i: int,
)
    requires
        call_ensures(FlatIndexer::count, (&indexer,), n),
        call_ensures(FlatIndexer::finish, (indexer,), r),
    ensures
        r.files@.len() == indexer.files().len(),
        n == r.files@.len(),
        0 <= i < r.files@.len() ==> r.files@[i]@ == indexer.files()[i],
{
    assert(view_files(r.files@).len() == r.files@.len());
    if 0 <= i < r.files@.len() {
        assert(view_files(r.files@)[i] == r.files@[i]@);
    }
}

/// The index of a phone, encrypted, sent, read, and decrypted with the same PIN, comes out as it
/// went in, unless the derivation of the key fails.
pub proof fn law_index_of_a_phone_arrives(
    json: &[u8],
    sealed: Sealed,
    sent: Vec<u8>,
    parts: Vec<Vec<u8>>,
    got: Sealed,
    bytes: &[u8],
    salt: &[u8],
    nonce: &[u8],
    pin: &str,
    r: Result<Vec<u8>, crate::vault::VaultError>,
)
    requires
        call_ensures(
            crate::vault::encrypting_json,
            (json,),
            Ok::<Sealed, crate::vault::VaultError>(sealed),
        ),
        call_ensures(handle_sending_json, (&sealed,), sent),
        wire::read_blobs(sent@, 3) == Some(
            (parts@.map_values(|p: Vec<u8>| p@), Seq::<u8>::empty()),
        ),
        parts@.len() == 3,
        call_ensures(received_bundle, (parts,), got),
        bytes@ == got.bytes@,
        salt@ == got.salt@,
        nonce@ == got.nonce@,
        pin@ == "1234"@,
        call_ensures(crate::vault::decrypt_json, (bytes, salt, nonce, pin), r),
    ensures
        r is Ok ==> r->Ok_0@ == json@,
        r is Err ==> r->Err_0 is KeyDerivation && crate::vault::is_refused(
            vstd::utf8::encode_utf8("1234"@),
            sealed.salt@,
            r->Err_0->KeyDerivation_0,
        ),
{
    law_bundle_is_understood(sealed);
    let read = parts@.map_values(|p: Vec<u8>| p@);
    let put = seq![sealed.bytes@, sealed.salt@, sealed.nonce@];
    assert(read == put);
    assert(read[0] == parts@[0]@ && read[1] == parts@[1]@ && read[2] == parts@[2]@);
    assert(put[0] == sealed.bytes@ && put[1] == sealed.salt@ && put[2] == sealed.nonce@);
}

/// What is shown as the folder of a file is its parent, or `Root` where it has none.
pub proof fn law_shown_folder(file: &FileIndexing, r: String)
    requires
        call_ensures(parent_label, (file,), r),
    ensures
        file.parent_dir is Some ==> r@ == file.parent_dir->0@,
        file.parent_dir is None ==> r@ == "Root"@,
{
}

/// Whether `next` takes all that can come of doing `action`.
pub open spec fn takes_all(next: Receive, action: ReceiveAction) -> bool {
    &&& action is Read ==> forall|b: Vec<u8>|
        b@.len() == action->Read_0 ==> #[trigger] next.expects(ReceiveEvent::Bytes(b))
    &&& action is Probe ==> forall|there: bool| #[trigger]
        next.expects(ReceiveEvent::Exists(there))
}

/// A phone takes whatever can come of what it asked for when it receives a file.
pub proof fn law_phone_takes_what_can_come(
    before: Receive,
    event: ReceiveEvent,
    r: Stepped,
    first: (Receive, ReceiveAction),
)
    requires
        before.steps_to(event, r),
        call_ensures(Receive::begin, (), first),
    ensures
        takes_all(first.0, first.1),
        first.1 == ReceiveAction::Read(2),
        r is Ok ==> takes_all(r->Ok_0.0, r->Ok_0.1),
{
}

/// A phone that receives a name takes it whole if it is text, and refuses it otherwise; a file
/// that is there already is left alone, and any other is stored where it was asked about.
pub proof fn law_phone_takes_names_as_sent(
    len: usize,
    name: String,
    path: String,
    b: Vec<u8>,
    there: bool,
    length: Stepped,
    named: Stepped,
    sized: Stepped,
    probed: Stepped,
)
    requires
        Receive::NameLength.steps_to(ReceiveEvent::Bytes(b), length),
        (Receive::Name { len }).steps_to(ReceiveEvent::Bytes(b), named),
        (Receive::Size { name }).steps_to(ReceiveEvent::Bytes(b), sized),
        (Receive::Target { path }).steps_to(ReceiveEvent::Exists(there), probed),
    ensures
        length is Ok && length->Ok_0.0 is Name && length->Ok_0.0->len == wire::be_value(b@)
            && length->Ok_0.1 == ReceiveAction::Read(length->Ok_0.0->len),
        vstd::utf8::valid_utf8(b@) <==> named is Ok,
        named is Ok ==> named->Ok_0.0 is Size && vstd::utf8::encode_utf8(named->Ok_0.0->name@)
            == b@ && named->Ok_0.1 == ReceiveAction::Read(8),
        named is Err ==> named->Err_0 is Utf8Error && named->Err_0->Utf8Error_0@
            == text::utf8_error_text(b@),
        sized is Ok && sized->Ok_0.0 is Target && sized->Ok_0.1 is Probe && paths::joins_to(
            "/sdcard/Download/"@,
            name@,
            sized->Ok_0.1->Probe_0@,
        ) && sized->Ok_0.0->path@ == sized->Ok_0.1->Probe_0@,
        there ==> probed is Ok && probed->Ok_0.1 is Reply && probed->Ok_0.1->Reply_0@
            == vstd::utf8::encode_utf8("ALREADY_EXISTS"@),
        !there ==> probed is Ok && probed->Ok_0.1 is Store && probed->Ok_0.1->Store_0@ == path@,
{
    if vstd::utf8::valid_utf8(b@) {
        vstd::utf8::decode_utf8_encode_utf8(b@);
    }
}

/// A client takes whatever can come of what it does.
pub proof fn law_client_takes_what_can_come(
    before: Client,
    event: ClientEvent,
    r: ClientStep,
    text: String,
    from: String,
)
    requires
        before.steps_to(event, r),
        r is Ok,
    ensures
        r->Ok_0.1 is Listen ==> r->Ok_0.0.expects(ClientEvent::Silence) && r->Ok_0.0.expects(
            ClientEvent::Message { text, from },
        ),
        r->Ok_0.1 is Choose || r->Ok_0.1 is Ask ==> r->Ok_0.0.expects(ClientEvent::Line(text)),
        r->Ok_0.1 is Connect || r->Ok_0.1 is ShowIndex || r->Ok_0.1 is Download
            ==> r->Ok_0.0.expects(ClientEvent::Done),
{
}

/// What a client says and asks; and that it gives up where more answer than can be counted.
pub proof fn law_client_says_what_it_does(
    session: DiscoverySession,
    event: ClientEvent,
    searching: ClientStep,
    shown: ClientStep,
    line: String,
    asked: ClientStep,
    loaded: ClientStep,
)
    requires
        (Client::Searching { session }).expects(event),
        (Client::Searching { session }).steps_to(event, searching),
        Client::Showing.steps_to(ClientEvent::Done, shown),
        Client::Asking.steps_to(ClientEvent::Line(line), asked),
        Client::Downloading.steps_to(ClientEvent::Done, loaded),
    ensures
        searching is Err <==> event is Message && session.devices().len() >= 254,
        searching is Err ==> searching->Err_0 is InvalidInput && searching->Err_0->InvalidInput_0@
            == "Too many devices"@,
        event is Silence && session.devices().len() == 0 ==> searching->Ok_0.1->Stop_message@
            == "No servers found on the network."@,
        event is Silence && session.devices().len() > 0 ==> searching->Ok_0.1->Choose_prompt@
            == "Choose a server (num): "@,
        shown->Ok_0.1->Ask_prompt@ == "Do you want to request/download a file? (y/n)"@,
        asked->Ok_0.0 is Selecting ==> asked->Ok_0.1->Ask_prompt@
            == "Enter the file/s number (split with a comma): "@,
        loaded->Ok_0.1->Stop_message@ == "Finished all requests successfully."@,
{
}

/// Each line that is shown to choose from is that of the device at its place.
pub proof fn law_client_shows_every_device(session: DiscoverySession, r: ClientStep, i: int)
    requires
        (Client::Searching { session }).steps_to(ClientEvent::Silence, r),
        0 <= i < session.devices().len(),
    ensures
        r is Ok && r->Ok_0.1 is Choose,
        r->Ok_0.1->lines@.len() == session.devices().len(),
        r->Ok_0.1->lines@[i]@ == text::decimal(session.devices()[i].index) + " - Device: "@
            + session.devices()[i].name + ", IP: "@ + session.devices()[i].ip,
{
    let lines = r->Ok_0.1->lines@;
    let devices = r->Ok_0.0->devices@;
    assert(view_paths(lines).len() == lines.len());
    assert(device_lines(devices).len() == devices.len());
    assert(discovery::view_devices(devices).len() == devices.len());
    assert(view_paths(lines)[i] == lines[i]@);
    assert(device_lines(devices)[i] == device_line(devices[i]@));
    assert(discovery::view_devices(devices)[i] == devices[i]@);
}

/// A datagram is heard whole, with the address that it came from.
pub proof fn law_datagrams_are_heard(datagram: &[u8], from: String, r: ClientEvent)
    requires
        call_ensures(heard, (datagram, from), r),
    ensures
        r is Message,
        r->from@ == from@,
        r->Message_text@ == text::utf8_lossy(datagram@),
        vstd::utf8::valid_utf8(datagram@) ==> vstd::utf8::encode_utf8(r->Message_text@)
            == datagram@,
{
    if vstd::utf8::valid_utf8(datagram@) {
        vstd::utf8::decode_utf8_encode_utf8(datagram@);
    }
}

} // verus!
