//! The index of shared files: what is listed, under which id, and in which order.
use crate::digest;
use crate::paths;
use crate::sort;
use crate::text;
use vstd::prelude::*;

verus! {

/// One shared file or folder.
#[derive(Debug)]
pub struct FileIndexing {
    pub id: u64,
    pub name: String,
    pub size: u64,
    pub path: String,
    pub is_dir: bool,
    pub parent_dir: Option<String>,
}

/// What a [`FileIndexing`] says.
#[verifier::ext_equal]
pub struct FileView {
    pub id: nat,
    pub name: Seq<char>,
    pub size: nat,
    pub path: Seq<char>,
    pub is_dir: bool,
    pub parent_dir: Option<Seq<char>>,
}

/// The text of an optional string.
pub open spec fn view_option(s: Option<String>) -> Option<Seq<char>> {
    match s {
        Some(t) => Some(t@),
        None => None,
    }
}

/// A copy of an optional text.
pub fn copy_option(s: &Option<String>) -> (r: Option<String>)
    ensures
        view_option(r) == view_option(*s),
{
    match s {
        Some(t) => Some(t.clone()),
        None => None,
    }
}

impl View for FileIndexing {
    type V = FileView;

    open spec fn view(&self) -> FileView {
        FileView {
            id: self.id as nat,
            name: self.name@,
            size: self.size as nat,
            path: self.path@,
            is_dir: self.is_dir,
            parent_dir: view_option(self.parent_dir),
        }
    }
}

impl Clone for FileIndexing {
    fn clone(&self) -> (r: Self)
        ensures
            r@ == self@,
    {
        FileIndexing {
            id: self.id,
            name: self.name.clone(),
            size: self.size,
            path: self.path.clone(),
            is_dir: self.is_dir,
            parent_dir: copy_option(&self.parent_dir),
        }
    }
}

/// What a list of entries says.
pub open spec fn view_files(files: Seq<FileIndexing>) -> Seq<FileView> {
    files.map_values(|f: FileIndexing| f@)
}

/// The shared files of a device.
#[derive(Debug)]
pub struct DeviceIndex {
    pub files: Vec<FileIndexing>,
}

impl Default for DeviceIndex {
    fn default() -> (r: Self)
        ensures
            r.files@ == Seq::<FileIndexing>::empty(),
    {
        DeviceIndex { files: Vec::new() }
    }
}

impl Clone for DeviceIndex {
    fn clone(&self) -> (r: Self)
        ensures
            view_files(r.files@) == view_files(self.files@),
    {
        let mut files: Vec<FileIndexing> = Vec::new();
        let mut i: usize = 0;
        while i < self.files.len()
            invariant
                i <= self.files@.len(),
                files@.len() == i,
                forall|k: int| 0 <= k < i ==> (#[trigger] files@[k])@ == self.files@[k]@,
            decreases self.files@.len() - i,
        {
            files.push(self.files[i].clone());
            i += 1;
        }
        assert(view_files(files@) =~= view_files(self.files@));
        DeviceIndex { files }
    }
}

/// What a file system says of one entry of a folder. The kind and the size are missing where
/// they could not be read.
#[derive(Debug)]
pub struct FolderEntry {
    pub name: String,
    pub path: String,
    pub is_dir: Option<bool>,
    pub size: Option<u64>,
}

/// What a [`FolderEntry`] says.
#[verifier::ext_equal]
pub struct EntryView {
    pub name: Seq<char>,
    pub path: Seq<char>,
    pub is_dir: Option<bool>,
    pub size: Option<u64>,
}

impl View for FolderEntry {
    type V = EntryView;

    open spec fn view(&self) -> EntryView {
        EntryView { name: self.name@, path: self.path@, is_dir: self.is_dir, size: self.size }
    }
}

/// What the listing of a folder says.
pub open spec fn view_entries(entries: Seq<FolderEntry>) -> Seq<EntryView> {
    entries.map_values(|e: FolderEntry| e@)
}

/// A folder that is still to be listed: its path, and the name that its entries give as their
/// parent.
pub open spec fn view_folder(f: (String, String)) -> (Seq<char>, Seq<char>) {
    (f.0@, f.1@)
}

/// A list of folders.
pub open spec fn view_folders(fs: Seq<(String, String)>) -> Seq<(Seq<char>, Seq<char>)> {
    fs.map_values(|f: (String, String)| view_folder(f))
}

/// The names that are never shared: the keys and settings of the application itself, and
/// files that are still being received.
pub open spec fn is_private_name(name: Seq<char>) -> bool {
    ||| name == "key.der"@
    ||| name == "cert.der"@
    ||| name == "peers.json"@
    ||| name == "config.json"@
    ||| text::has_suffix(name, ".part"@)
}

/// Whether a file or folder with this name is kept out of the index.
pub fn is_private(name: &str) -> (r: bool)
    ensures
        r == is_private_name(name@),
{
    text::text_eq(name, "key.der") || text::text_eq(name, "cert.der") || text::text_eq(
        name,
        "peers.json",
    ) || text::text_eq(name, "config.json") || text::ends_with(name, ".part")
}

/// A file that is still being received is never shared.
pub proof fn law_part_files_are_private(name: Seq<char>, tag: nat)
    ensures
        is_private_name(paths::part_name(name, tag)),
{
    let whole = paths::part_name(name, tag);
    let tail = ".part"@;
    assert(whole.subrange(whole.len() - tail.len(), whole.len() as int) =~= tail);
}

impl EntryView {
    /// Whether the entry counts as a folder: what could not be read does not.
    pub open spec fn is_folder(self) -> bool {
        self.is_dir == Some(true)
    }

    /// The index entry of a folder's entry.
    pub open spec fn indexed(self, parent: Seq<char>) -> FileView {
        FileView {
            id: digest::stable_file_id(self.path),
            name: self.name,
            size: match self.size {
                Some(n) => if self.is_folder() {
                    0
                } else {
                    n as nat
                },
                None => 0,
            },
            path: self.path,
            is_dir: self.is_folder(),
            parent_dir: Some(parent),
        }
    }
}

/// The entries of a folder that may be shared.
pub open spec fn listed(entries: Seq<EntryView>) -> Seq<EntryView> {
    entries.filter(|e: EntryView| !is_private_name(e.name))
}

/// The index entries that the listing of a folder gives.
pub open spec fn indexed_entries(parent: Seq<char>, entries: Seq<EntryView>) -> Seq<FileView> {
    listed(entries).map_values(|e: EntryView| e.indexed(parent))
}

/// The folders that the listing of a folder adds to the work.
pub open spec fn found_folders(entries: Seq<EntryView>) -> Seq<(Seq<char>, Seq<char>)> {
    listed(entries).filter(|e: EntryView| e.is_folder()).map_values(
        |e: EntryView| (e.path, e.name),
    )
}

/// What was made of the listing of one folder.
pub struct ScannedFolder {
    pub items: Vec<FileIndexing>,
    pub folders: Vec<(String, String)>,
}

proof fn lemma_scan_step(parent: Seq<char>, front: Seq<EntryView>, e: EntryView)
    ensures
        is_private_name(e.name) ==> {
            &&& indexed_entries(parent, front.push(e)) == indexed_entries(parent, front)
            &&& found_folders(front.push(e)) == found_folders(front)
        },
        !is_private_name(e.name) ==> {
            &&& indexed_entries(parent, front.push(e)) == indexed_entries(parent, front).push(
                e.indexed(parent),
            )
            &&& found_folders(front.push(e)) == if e.is_folder() {
                found_folders(front).push((e.path, e.name))
            } else {
                found_folders(front)
            }
        },
{
    reveal(Seq::filter);
    assert(front.push(e).drop_last() =~= front);
    if !is_private_name(e.name) {
        assert(listed(front.push(e)) =~= listed(front).push(e));
        assert(listed(front).push(e).drop_last() =~= listed(front));
        assert(indexed_entries(parent, front.push(e)) =~= indexed_entries(parent, front).push(
            e.indexed(parent),
        ));
        let folder = |x: EntryView| x.is_folder();
        assert(listed(front).push(e).filter(folder) =~= if e.is_folder() {
            listed(front).filter(folder).push(e)
        } else {
            listed(front).filter(folder)
        });
        assert(found_folders(front.push(e)) =~= if e.is_folder() {
            found_folders(front).push((e.path, e.name))
        } else {
            found_folders(front)
        });
    }
}

/// Makes index entries of the listing of a folder, and says which folders it leads to.
pub fn scan_folder(parent_name: &str, entries: Vec<FolderEntry>) -> (r: ScannedFolder)
    ensures
        view_files(r.items@) == indexed_entries(parent_name@, view_entries(entries@)),
        view_folders(r.folders@) == found_folders(view_entries(entries@)),
        forall|i: int|
            0 <= i < entries@.len() && !is_private_name((#[trigger] entries@[i]).name@)
                ==> lists_entry(r, entries@[i]@, parent_name@),
{
    let mut items: Vec<FileIndexing> = Vec::new();
    let mut folders: Vec<(String, String)> = Vec::new();
    let ghost all = view_entries(entries@);
    let mut i: usize = 0;
    proof {
        reveal(Seq::filter);
        assert(all.take(0) =~= Seq::<EntryView>::empty());
        assert(view_files(items@) =~= indexed_entries(parent_name@, all.take(0)));
        assert(view_folders(folders@) =~= found_folders(all.take(0)));
    }
    while i < entries.len()
        invariant
            i <= entries@.len(),
            all == view_entries(entries@),
            view_files(items@) == indexed_entries(parent_name@, all.take(i as int)),
            view_folders(folders@) == found_folders(all.take(i as int)),
        decreases entries@.len() - i,
    {
        let e: &FolderEntry = &entries[i];
        proof {
            assert(all[i as int] == e@);
            assert(all.take(i + 1) =~= all.take(i as int).push(e@));
            lemma_scan_step(parent_name@, all.take(i as int), e@);
        }
        if !is_private(e.name.as_str()) {
            let is_dir: bool = match e.is_dir {
                Some(d) => d,
                None => false,
            };
            let size: u64 = if is_dir {
                0
            } else {
                match e.size {
                    Some(n) => n,
                    None => 0,
                }
            };
            let ghost before_items = items@;
            let ghost before_folders = folders@;
            let item = FileIndexing {
                id: digest::compute_stable_file_id(e.path.as_str()),
                name: e.name.clone(),
                size,
                path: e.path.clone(),
                is_dir,
                parent_dir: Some(parent_name.to_owned()),
            };
            assert(item@ =~= e@.indexed(parent_name@));
            items.push(item);
            assert(view_files(items@) =~= view_files(before_items).push(e@.indexed(parent_name@)));
            if is_dir {
                folders.push((e.path.clone(), e.name.clone()));
                assert(view_folders(folders@) =~= view_folders(before_folders).push(
                    (e.path@, e.name@),
                ));
            }
        }
        i += 1;
    }
    assert(all.take(i as int) =~= all);
    let r = ScannedFolder { items, folders };
    proof {
        assert forall|k: int|
            0 <= k < entries@.len() && !is_private_name(
                (#[trigger] entries@[k]).name@,
            ) implies lists_entry(r, entries@[k]@, parent_name@) by {
            assert(all[k] == entries@[k]@);
            lemma_entry_is_listed(r, all, parent_name@, k);
        }
    }
    r
}

/// The index entry of a shared root called `name`.
pub open spec fn root_entry(path: Seq<char>, name: Seq<char>) -> FileView {
    FileView {
        id: digest::stable_file_id(path),
        name,
        size: 0,
        path,
        is_dir: true,
        parent_dir: None,
    }
}

/// Whether a root at `path` is shown under `name`: under its last component, or under the
/// whole path where it has none.
pub open spec fn is_root_name(path: Seq<char>, name: Seq<char>) -> bool {
    ||| paths::names_file(path, Some(name))
    ||| paths::names_file(path, None) && name == path
}

/// An index in the making: the folders that are still to be listed, and the entries found.
pub struct IndexBuilder {
    queue: Vec<(String, String)>,
    results: Vec<FileIndexing>,
}

impl IndexBuilder {
    /// The folders that are still to be listed.
    pub closed spec fn queue(&self) -> Seq<(Seq<char>, Seq<char>)> {
        view_folders(self.queue@)
    }

    /// The entries found so far.
    pub closed spec fn results(&self) -> Seq<FileIndexing> {
        self.results@
    }

    /// What the entries found so far say.
    pub open spec fn found(&self) -> Seq<FileView> {
        view_files(self.results())
    }

    /// An index with nothing in it and nothing to do.
    pub fn new() -> (r: IndexBuilder)
        ensures
            r.queue() == Seq::<(Seq<char>, Seq<char>)>::empty(),
            r.results() == Seq::<FileIndexing>::empty(),
    {
        let r = IndexBuilder { queue: Vec::new(), results: Vec::new() };
        assert(r.queue() =~= Seq::<(Seq<char>, Seq<char>)>::empty());
        r
    }

    /// Adds a shared root: it is listed itself, and its contents are to be.
    pub fn add_root(&mut self, root: &str)
        ensures
            exists|name: Seq<char>|
                {
                    &&& #[trigger] is_root_name(root@, name)
                    &&& final(self).queue() == old(self).queue().push((root@, name))
                    &&& final(self).found() == old(self).found().push(root_entry(root@, name))
                },
    {
        let name: String = match paths::file_name(root) {
            Some(n) => n,
            None => root.to_owned(),
        };
        let item = FileIndexing {
            id: digest::compute_stable_file_id(root),
            name: name.clone(),
            size: 0,
            path: root.to_owned(),
            is_dir: true,
            parent_dir: None,
        };
        assert(item@ =~= root_entry(root@, name@));
        let ghost shown = name@;
        self.results.push(item);
        self.queue.push((root.to_owned(), name));
        proof {
            assert(is_root_name(root@, shown));
            assert(self.queue() =~= old(self).queue().push((root@, shown)));
            assert(self.found() =~= old(self).found().push(root_entry(root@, shown)));
        }
    }

    /// Hands out the folder that was found last, to be listed.
    pub fn take_folder(&mut self) -> (r: Option<(String, String)>)
        ensures
            final(self).results() == old(self).results(),
            match r {
                Some(f) => {
                    &&& old(self).queue().len() > 0
                    &&& view_folder(f) == old(self).queue().last()
                    &&& final(self).queue() == old(self).queue().drop_last()
                },
                None => old(self).queue().len() == 0 && final(self).queue() == old(self).queue(),
            },
    {
        let r = self.queue.pop();
        assert(r is Some ==> self.queue() =~= old(self).queue().drop_last());
        r
    }

    /// Adds what was made of the listing of a folder.
    pub fn absorb(&mut self, scanned: ScannedFolder)
        ensures
            final(self).results() == old(self).results() + scanned.items@,
            final(self).queue() == old(self).queue() + view_folders(scanned.folders@),
    {
        let mut items = scanned.items;
        let mut folders = scanned.folders;
        self.results.append(&mut items);
        self.queue.append(&mut folders);
        assert(self.queue() =~= old(self).queue() + view_folders(scanned.folders@));
    }

    /// The index of everything found, in order.
    pub fn finish(self) -> (r: DeviceIndex)
        ensures
            sort::is_sort_of(r.files@, self.results()),
    {
        DeviceIndex { files: sort::sort_entries(self.results) }
    }
}

/// The folders among the entries of an index.
pub open spec fn folders_of(found: Seq<FileView>) -> Seq<(Seq<char>, Seq<char>)> {
    found.filter(|f: FileView| f.is_dir).map_values(|f: FileView| (f.path, f.name))
}

/// Whether every folder in the index was handed out or is still to be, each as often as it
/// was found.
pub open spec fn accounted(
    taken: vstd::multiset::Multiset<(Seq<char>, Seq<char>)>,
    queue: Seq<(Seq<char>, Seq<char>)>,
    found: Seq<FileView>,
) -> bool {
    taken.add(queue.to_multiset()) == folders_of(found).to_multiset()
}

/// At the start nothing was found and nothing is missing.
pub proof fn law_accounting_starts()
    ensures
        accounted(
            vstd::multiset::Multiset::empty(),
            Seq::empty(),
            Seq::empty(),
        ),
{
    reveal(Seq::filter);
    let none = Seq::<(Seq<char>, Seq<char>)>::empty();
    assert(folders_of(Seq::empty()) =~= none);
    assert(vstd::multiset::Multiset::<(Seq<char>, Seq<char>)>::empty().add(none.to_multiset())
        =~= none.to_multiset());
}

/// A root that is added will be listed.
pub proof fn law_root_is_accounted(
    taken: vstd::multiset::Multiset<(Seq<char>, Seq<char>)>,
    queue: Seq<(Seq<char>, Seq<char>)>,
    found: Seq<FileView>,
    path: Seq<char>,
    name: Seq<char>,
)
    requires
        accounted(taken, queue, found),
    ensures
        accounted(taken, queue.push((path, name)), found.push(root_entry(path, name))),
{
    broadcast use vstd::seq_lib::group_to_multiset_ensures;

    lemma_folders_push(found, root_entry(path, name));
    assert(taken.add(queue.push((path, name)).to_multiset()) =~= taken.add(
        queue.to_multiset(),
    ).insert((path, name)));
}

/// Handing out a folder loses none.
pub proof fn law_taken_folder_is_accounted(
    taken: vstd::multiset::Multiset<(Seq<char>, Seq<char>)>,
    queue: Seq<(Seq<char>, Seq<char>)>,
    found: Seq<FileView>,
)
    requires
        accounted(taken, queue, found),
        queue.len() > 0,
    ensures
        accounted(taken.insert(queue.last()), queue.drop_last(), found),
{
    broadcast use vstd::seq_lib::group_to_multiset_ensures;

    assert(queue.drop_last().push(queue.last()) =~= queue);
    assert(taken.insert(queue.last()).add(queue.drop_last().to_multiset()) =~= taken.add(
        queue.to_multiset(),
    ));
}

/// Every folder that a listing shows will be listed too, and no other.
pub proof fn law_listed_folders_are_accounted(
    taken: vstd::multiset::Multiset<(Seq<char>, Seq<char>)>,
    queue: Seq<(Seq<char>, Seq<char>)>,
    found: Seq<FileView>,
    parent: Seq<char>,
    entries: Seq<EntryView>,
)
    requires
        accounted(taken, queue, found),
    ensures
        accounted(
            taken,
            queue + found_folders(entries),
            found + indexed_entries(parent, entries),
        ),
{
    let new = indexed_entries(parent, entries);
    lemma_folders_of_listing(parent, entries);
    let folder = |f: FileView| f.is_dir;
    Seq::filter_distributes_over_add(found, new, folder);
    assert(folders_of(found + new) =~= folders_of(found) + folders_of(new));
    vstd::seq_lib::lemma_multiset_commutative(folders_of(found), folders_of(new));
    vstd::seq_lib::lemma_multiset_commutative(queue, found_folders(entries));
    assert(taken.add((queue + found_folders(entries)).to_multiset()) =~= taken.add(
        queue.to_multiset(),
    ).add(found_folders(entries).to_multiset()));
}

/// When no folder is left to hand out, each folder of the index has been handed out, as
/// often as it was found.
pub proof fn law_every_folder_is_visited(
    taken: vstd::multiset::Multiset<(Seq<char>, Seq<char>)>,
    found: Seq<FileView>,
)
    requires
        accounted(taken, Seq::empty(), found),
    ensures
        taken == folders_of(found).to_multiset(),
{
    broadcast use vstd::seq_lib::group_to_multiset_ensures;

    let none = Seq::<(Seq<char>, Seq<char>)>::empty();
    assert(none.to_multiset() =~= vstd::multiset::Multiset::empty()) by {
        assert(none.to_multiset().len() == 0);
    }
    assert(taken.add(none.to_multiset()) =~= taken);
}

proof fn lemma_folders_push(found: Seq<FileView>, f: FileView)
    requires
        f.is_dir,
    ensures
        folders_of(found.push(f)) == folders_of(found).push((f.path, f.name)),
{
    reveal(Seq::filter);
    assert(found.push(f).drop_last() =~= found);
    assert(folders_of(found.push(f)) =~= folders_of(found).push((f.path, f.name)));
}

pub(crate) proof fn lemma_folders_of_listing(parent: Seq<char>, entries: Seq<EntryView>)
    ensures
        folders_of(indexed_entries(parent, entries)) == found_folders(entries),
    decreases entries.len(),
{
    reveal(Seq::filter);
    if entries.len() == 0 {
        assert(folders_of(indexed_entries(parent, entries)) =~= found_folders(entries));
    } else {
        let front = entries.drop_last();
        let e = entries.last();
        lemma_folders_of_listing(parent, front);
        lemma_scan_step(parent, front, e);
        assert(entries =~= front.push(e));
        if !is_private_name(e.name) {
            let known = indexed_entries(parent, front);
            let f = e.indexed(parent);
            assert(known.push(f).drop_last() =~= known);
            if e.is_folder() {
                lemma_folders_push(known, f);
            } else {
                assert(folders_of(known.push(f)) =~= folders_of(known));
            }
        }
    }
}

/// What the listing of a folder adds to an index is never private, carries the id of its
/// path and names the folder as its parent; folders have size zero.
pub proof fn law_indexed_entries(parent: Seq<char>, entries: Seq<EntryView>, i: int)
    requires
        0 <= i < indexed_entries(parent, entries).len(),
    ensures
        ({
            let f = indexed_entries(parent, entries)[i];
            &&& !is_private_name(f.name)
            &&& f.id == digest::stable_file_id(f.path)
            &&& f.parent_dir == Some(parent)
            &&& f.is_dir ==> f.size == 0
        }),
{
    broadcast use vstd::seq_lib::group_filter_ensures;

    let e = listed(entries)[i];
    assert(indexed_entries(parent, entries)[i] == e.indexed(parent));
}

/// Whether an entry may stand in an index: it carries the id of its path, and below a root
/// its name is not private.
pub open spec fn is_sharable(f: FileView) -> bool {
    &&& f.id == digest::stable_file_id(f.path)
    &&& f.parent_dir is Some ==> !is_private_name(f.name)
    &&& f.is_dir ==> f.size == 0
}

/// Whether all entries may stand in an index.
pub open spec fn all_sharable(found: Seq<FileView>) -> bool {
    forall|i: int| 0 <= i < found.len() ==> is_sharable(#[trigger] found[i])
}

/// No step of building an index adds an entry that may not stand in it.
pub proof fn law_index_stays_sharable(
    found: Seq<FileView>,
    root: Seq<char>,
    name: Seq<char>,
    parent: Seq<char>,
    entries: Seq<EntryView>,
)
    requires
        all_sharable(found),
    ensures
        all_sharable(found.push(root_entry(root, name))),
        all_sharable(found + indexed_entries(parent, entries)),
{
    let new = indexed_entries(parent, entries);
    assert forall|i: int| 0 <= i < (found + new).len() implies is_sharable(
        #[trigger] (found + new)[i],
    ) by {
        if i >= found.len() {
            law_indexed_entries(parent, entries, i - found.len());
        } else {
            assert((found + new)[i] == found[i]);
        }
    }
    assert forall|i: int|
        0 <= i < found.push(root_entry(root, name)).len() implies is_sharable(
        #[trigger] found.push(root_entry(root, name))[i],
    ) by {
        if i < found.len() {
            assert(found.push(root_entry(root, name))[i] == found[i]);
        }
    }
}

/// Sorting an index neither loses nor adds an entry, so only sharable ones stand in it.
pub proof fn law_sorted_index_is_sharable(out: Seq<FileIndexing>, inp: Seq<FileIndexing>)
    requires
        sort::is_sort_of(out, inp),
        all_sharable(view_files(inp)),
    ensures
        out.len() == inp.len(),
        all_sharable(view_files(out)),
{
    broadcast use vstd::seq_lib::group_to_multiset_ensures;

    assert(out.to_multiset().len() == inp.to_multiset().len());
    assert forall|i: int| 0 <= i < view_files(out).len() implies is_sharable(
        #[trigger] view_files(out)[i],
    ) by {
        assert(out.contains(out[i]));
        assert(inp.to_multiset().count(out[i]) > 0);
        let k = choose|k: int| 0 <= k < inp.len() && inp[k] == out[i];
        assert(view_files(inp)[k] == out[i]@);
    }
}

/// The first entry with the given id.
pub open spec fn is_first_with_id(files: Seq<FileIndexing>, id: u64, i: int) -> bool {
    &&& 0 <= i < files.len()
    &&& files[i].id == id
    &&& forall|k: int| 0 <= k < i ==> (#[trigger] files[k]).id != id
}

/// The first entry of the index with the given id.
pub fn find_file_flat(index: DeviceIndex, target_id: u64) -> (r: Option<FileIndexing>)
    ensures
        match r {
            Some(f) => exists|i: int| #[trigger]
                is_first_with_id(index.files@, target_id, i) && f == index.files@[i],
            None => forall|k: int|
                0 <= k < index.files@.len() ==> (#[trigger] index.files@[k]).id != target_id,
        },
{
    let mut files = index.files;
    let ghost all = files@;
    let mut i: usize = 0;
    while i < files.len()
        invariant
            i <= files@.len(),
            files@ == all,
            all == index.files@,
            forall|k: int| 0 <= k < i ==> (#[trigger] all[k]).id != target_id,
        decreases files@.len() - i,
    {
        if files[i].id == target_id {
            assert(is_first_with_id(all, target_id, i as int));
            return Some(files.swap_remove(i));
        }
        i += 1;
    }
    None
}

/// How many threads list folders: on Android at most two; elsewhere three quarters of more
/// than eight, and otherwise all of them but at least two. Four are taken to be there where
/// their number is not known.
pub open spec fn optimal_workers(available: Option<usize>, android: bool) -> int {
    let total: int = match available {
        Some(n) => n as int,
        None => 4,
    };
    if android {
        if total >= 2 {
            2
        } else {
            1
        }
    } else if total > 8 {
        total * 3 / 4
    } else if total >= 2 {
        total
    } else {
        2
    }
}

/// How many threads list folders, given how many the machine runs at once.
pub fn get_optimal_worker_count(available: Option<usize>, android: bool) -> (r: usize)
    requires
        !android ==> (available matches Some(n) ==> n <= usize::MAX / 3),
    ensures
        r == optimal_workers(available, android),
{
    let total: usize = match available {
        Some(n) => n,
        None => 4,
    };
    if android {
        if total >= 2 {
            2
        } else {
            1
        }
    } else if total > 8 {
        (total * 3) / 4
    } else if total >= 2 {
        total
    } else {
        2
    }
}

/// There is always a thread that lists folders; beyond two, never more than the machine runs.
pub proof fn law_worker_count(available: Option<usize>, android: bool)
    ensures
        optimal_workers(available, android) >= 1,
        available matches Some(n) ==> optimal_workers(available, android) <= if n >= 2 {
            n as int
        } else {
            2
        },
{
}

/// The names that are never shared are the four of the application's own files and those that end
/// in `.part`.
pub proof fn law_private_names(name: Seq<char>)
    ensures
        is_private_name(name) <==> {
            ||| name == "key.der"@
            ||| name == "cert.der"@
            ||| name == "peers.json"@
            ||| name == "config.json"@
            ||| exists|stem: Seq<char>| name == #[trigger] (stem + ".part"@)
        },
{
    text::law_suffix(name, ".part"@);
}

/// What an index says of an entry and what a file system says of it are one and the same: the
/// name, the path, whether it is a folder, and the size of what is none.
pub open spec fn is_item_of(f: FileView, e: EntryView, parent: Seq<char>) -> bool {
    &&& f.name == e.name
    &&& f.path == e.path
    &&& f.is_dir <==> e.is_dir == Some(true)
    &&& e.is_dir == Some(true) ==> f.size == 0
    &&& e.is_dir != Some(true) ==> f.size == match e.size {
        Some(n) => n as nat,
        None => 0,
    }
    &&& f.parent_dir == Some(parent)
    &&& f.id == digest::stable_file_id(e.path)
}

/// Whether a scanned folder lists this entry as what it is, and hands it on if the file system
/// calls it a folder.
pub open spec fn lists_entry(r: ScannedFolder, e: EntryView, parent: Seq<char>) -> bool {
    &&& exists|k: int|
        0 <= k < r.items@.len() && is_item_of((#[trigger] r.items@[k])@, e, parent)
    &&& e.is_dir == Some(true) ==> exists|k: int|
        0 <= k < r.folders@.len() && (#[trigger] r.folders@[k]).0@ == e.path && r.folders@[k].1@
            == e.name
}

proof fn lemma_entry_is_listed(r: ScannedFolder, entries: Seq<EntryView>, parent: Seq<char>, i: int)
    requires
        view_files(r.items@) == indexed_entries(parent, entries),
        view_folders(r.folders@) == found_folders(entries),
        0 <= i < entries.len(),
        !is_private_name(entries[i].name),
    ensures
        lists_entry(r, entries[i], parent),
{
    let e = entries[i];
    law_every_entry_is_listed(parent, entries, i);
    let items = indexed_entries(parent, entries);
    let k = choose|k: int| 0 <= k < items.len() && is_item_of(#[trigger] items[k], e, parent);
    assert(view_files(r.items@)[k] == r.items@[k]@);
    assert(is_item_of(r.items@[k]@, e, parent));
    if e.is_dir == Some(true) {
        let folders = found_folders(entries);
        let m = choose|m: int| 0 <= m < folders.len() && folders[m] == (e.path, e.name);
        assert(view_folders(r.folders@)[m] == (r.folders@[m].0@, r.folders@[m].1@));
        assert(r.folders@[m].0@ == e.path);
    }
}

/// An entry that is not private gives just one item, which says what the entry says; it leads to
/// its folder exactly if the file system calls it one. A private entry gives nothing.
pub proof fn law_scanning_one_entry(parent: Seq<char>, e: EntryView)
    ensures
        is_private_name(e.name) ==> indexed_entries(parent, seq![e]).len() == 0 && found_folders(
            seq![e],
        ).len() == 0,
        !is_private_name(e.name) ==> {
            &&& indexed_entries(parent, seq![e]).len() == 1
            &&& is_item_of(indexed_entries(parent, seq![e])[0], e, parent)
        },
        !is_private_name(e.name) && e.is_dir == Some(true) ==> found_folders(seq![e]) == seq![
            (e.path, e.name),
        ],
        e.is_dir != Some(true) ==> found_folders(seq![e]).len() == 0,
{
    reveal(Seq::filter);
    let none = Seq::<EntryView>::empty();
    lemma_scan_step(parent, none, e);
    assert(none.push(e) =~= seq![e]);
    assert(indexed_entries(parent, none).len() == 0);
    assert(found_folders(none) =~= Seq::empty());
    assert(!is_private_name(e.name) && e.is_dir == Some(true) ==> found_folders(seq![e])
        =~= seq![(e.path, e.name)]);
}

/// A listing is scanned entry by entry, in order: two listings one after the other give the items
/// and the folders of the first, and then those of the second.
pub proof fn law_scanning_goes_entry_by_entry(
    parent: Seq<char>,
    a: Seq<EntryView>,
    b: Seq<EntryView>,
)
    ensures
        indexed_entries(parent, a + b) == indexed_entries(parent, a) + indexed_entries(parent, b),
        found_folders(a + b) == found_folders(a) + found_folders(b),
        indexed_entries(parent, Seq::empty()).len() == 0,
        found_folders(Seq::empty()).len() == 0,
    decreases b.len(),
{
    reveal(Seq::filter);
    if b.len() == 0 {
        assert(a + b =~= a);
        assert(indexed_entries(parent, a) =~= indexed_entries(parent, a) + indexed_entries(
            parent,
            b,
        ));
        assert(found_folders(a) =~= found_folders(a) + found_folders(b));
    } else {
        let front = b.drop_last();
        let e = b.last();
        law_scanning_goes_entry_by_entry(parent, a, front);
        lemma_scan_step(parent, a + front, e);
        lemma_scan_step(parent, front, e);
        assert((a + front).push(e) =~= a + b);
        assert(front.push(e) =~= b);
        assert(indexed_entries(parent, a + b) =~= indexed_entries(parent, a) + indexed_entries(
            parent,
            b,
        ));
        assert(found_folders(a + b) =~= found_folders(a) + found_folders(b));
    }
}

/// Every entry of a listing that is not private is listed as what it is, and if the file system
/// calls it a folder it is handed on to be listed itself.
pub proof fn law_every_entry_is_listed(parent: Seq<char>, entries: Seq<EntryView>, i: int)
    requires
        0 <= i < entries.len(),
        !is_private_name(entries[i].name),
    ensures
        exists|k: int|
            0 <= k < indexed_entries(parent, entries).len() && is_item_of(
                #[trigger] indexed_entries(parent, entries)[k],
                entries[i],
                parent,
            ),
        entries[i].is_dir == Some(true) ==> found_folders(entries).contains(
            (entries[i].path, entries[i].name),
        ),
{
    let a = entries.take(i);
    let one = seq![entries[i]];
    let b = entries.skip(i + 1);
    assert(entries =~= (a + one) + b);
    law_scanning_goes_entry_by_entry(parent, a + one, b);
    law_scanning_goes_entry_by_entry(parent, a, one);
    law_scanning_one_entry(parent, entries[i]);
    let k = indexed_entries(parent, a).len() as int;
    assert(indexed_entries(parent, entries)[k] == indexed_entries(parent, one)[0]);
    if entries[i].is_dir == Some(true) {
        let j = found_folders(a).len() as int;
        assert(found_folders(entries)[j] == found_folders(one)[0]);
    }
}

/// A folder that is handed on is the one of an entry that the file system calls a folder, under
/// its path and its name.
pub open spec fn leads_into(folder: (Seq<char>, Seq<char>), e: EntryView) -> bool {
    &&& e.is_dir == Some(true)
    &&& folder.0 == e.path
    &&& folder.1 == e.name
}

/// Nothing is listed that no entry of the listing gives.
pub proof fn law_only_entries_are_listed(parent: Seq<char>, entries: Seq<EntryView>, k: int)
    requires
        0 <= k < indexed_entries(parent, entries).len(),
    ensures
        exists|i: int|
            0 <= i < entries.len() && !is_private_name((#[trigger] entries[i]).name) && is_item_of(
                indexed_entries(parent, entries)[k],
                entries[i],
                parent,
            ),
    decreases entries.len(),
{
    let none = Seq::<EntryView>::empty();
    law_scanning_goes_entry_by_entry(parent, none, none);
    if entries.len() == 0 {
        assert(entries =~= none);
    } else {
        let a = entries.drop_last();
        let e = entries.last();
        assert(entries =~= a + seq![e]);
        law_scanning_goes_entry_by_entry(parent, a, seq![e]);
        law_scanning_one_entry(parent, e);
        let items = indexed_entries(parent, entries);
        let before = indexed_entries(parent, a);
        if k < before.len() {
            law_only_entries_are_listed(parent, a, k);
            let i = choose|i: int|
                0 <= i < a.len() && !is_private_name((#[trigger] a[i]).name) && is_item_of(
                    before[k],
                    a[i],
                    parent,
                );
            assert(items[k] == before[k]);
            assert(is_item_of(items[k], entries[i], parent));
        } else {
            assert(items[k] == indexed_entries(parent, seq![e])[0]);
            assert(is_item_of(items[k], entries[entries.len() - 1], parent));
        }
    }
}

/// No folder is handed on but those of entries that the file system calls folders.
pub proof fn law_only_folders_are_handed_on(entries: Seq<EntryView>, k: int)
    requires
        0 <= k < found_folders(entries).len(),
    ensures
        exists|i: int|
            0 <= i < entries.len() && !is_private_name((#[trigger] entries[i]).name) && leads_into(
                found_folders(entries)[k],
                entries[i],
            ),
    decreases entries.len(),
{
    let none = Seq::<EntryView>::empty();
    let root = Seq::<char>::empty();
    law_scanning_goes_entry_by_entry(root, none, none);
    if entries.len() == 0 {
        assert(entries =~= none);
    } else {
        let a = entries.drop_last();
        let e = entries.last();
        assert(entries =~= a + seq![e]);
        law_scanning_goes_entry_by_entry(root, a, seq![e]);
        law_scanning_one_entry(root, e);
        let folders = found_folders(entries);
        let before = found_folders(a);
        if k < before.len() {
            law_only_folders_are_handed_on(a, k);
            let i = choose|i: int|
                0 <= i < a.len() && !is_private_name((#[trigger] a[i]).name) && leads_into(
                    before[k],
                    a[i],
                );
            assert(folders[k] == before[k]);
            assert(leads_into(folders[k], entries[i]));
        } else {
            assert(folders[k] == found_folders(seq![e])[0]);
            assert(leads_into(folders[k], entries[entries.len() - 1]));
        }
    }
}

/// A shared root is listed with its own path, as a folder without a parent.
pub proof fn law_root_is_listed_as_it_is(path: Seq<char>, name: Seq<char>)
    ensures
        root_entry(path, name).path == path,
        root_entry(path, name).name == name,
        root_entry(path, name).is_dir,
        root_entry(path, name).size == 0,
        root_entry(path, name).parent_dir is None,
        root_entry(path, name).id == digest::stable_file_id(path),
{
}

/// A root that is a folder, a slash and a plain name is shown under that name, where the path is
/// read alike everywhere; a root without a last name is shown under its whole path.
pub proof fn law_root_is_shown_under_its_last_name(path: Seq<char>, name: Seq<char>)
    requires
        is_root_name(path, name),
        paths::is_portable(path),
    ensures
        paths::final_name(path) is Some ==> name == paths::final_name(path)->0,
        paths::final_name(path) is None ==> name == path,
{
}

/// Entries say all that they hold.
pub proof fn law_entries_say_what_they_hold(f: FileIndexing, e: FolderEntry)
    ensures
        f@.id == f.id,
        f@.name == f.name@,
        f@.size == f.size,
        f@.path == f.path@,
        f@.is_dir == f.is_dir,
        f.parent_dir is None <==> f@.parent_dir is None,
        f.parent_dir is Some ==> f@.parent_dir == Some(f.parent_dir->0@),
        e@.name == e.name@,
        e@.path == e.path@,
        e@.is_dir == e.is_dir,
        e@.size == e.size,
{
}

/// Lists say, place by place, what their members say.
pub proof fn law_lists_say_what_they_hold(
    files: Seq<FileIndexing>,
    entries: Seq<FolderEntry>,
    folders: Seq<(String, String)>,
    i: int,
)
    ensures
        view_files(files).len() == files.len(),
        view_entries(entries).len() == entries.len(),
        view_folders(folders).len() == folders.len(),
        0 <= i < files.len() ==> view_files(files)[i] == files[i]@,
        0 <= i < entries.len() ==> view_entries(entries)[i] == entries[i]@,
        0 <= i < folders.len() ==> view_folders(folders)[i] == (folders[i].0@, folders[i].1@),
{
}

/// The first entry with an id has the id, and none before it has.
pub proof fn law_first_with_id(files: Seq<FileIndexing>, id: u64, i: int)
    ensures
        is_first_with_id(files, id, i) <==> {
            &&& 0 <= i < files.len()
            &&& files[i].id == id
            &&& forall|k: int| 0 <= k < i ==> (#[trigger] files[k]).id != id
        },
{
}

/// On Android one thread or two list folders; elsewhere, of more than eight that the machine runs,
/// three quarters, rounded down, and of fewer all, but two at least. Four are taken to be there
/// where the number is not known.
pub proof fn law_worker_count_by_machine(n: usize)
    ensures
        optimal_workers(Some(n), true) == if n <= 1 {
            1int
        } else {
            2int
        },
        n <= 1 ==> optimal_workers(Some(n), false) == 2,
        2 <= n <= 8 ==> optimal_workers(Some(n), false) == n,
        n > 8 ==> 4 * optimal_workers(Some(n), false) <= 3 * n < 4 * optimal_workers(
            Some(n),
            false,
        ) + 4,
        optimal_workers(None, true) == 2,
        optimal_workers(None, false) == 4,
{
}

/// Looking up an id finds the first entry with that id, and nothing exactly if there is none.
pub proof fn law_lookup_finds_the_first(
    files: DeviceIndex,
    id: u64,
    r: Option<FileIndexing>,
    i: int,
)
    requires
        call_ensures(find_file_flat, (files, id), r),
    ensures
        0 <= i < files.files@.len() && files.files@[i].id == id && (forall|k: int|
            0 <= k < i ==> (#[trigger] files.files@[k]).id != id) ==> r == Some(files.files@[i]),
        r is None <==> forall|k: int|
            0 <= k < files.files@.len() ==> (#[trigger] files.files@[k]).id != id,
{
    if r is Some {
        let j = choose|j: int| #[trigger]
            is_first_with_id(files.files@, id, j) && r->0 == files.files@[j];
        assert(files.files@[j].id == id);
        if 0 <= i < files.files@.len() && files.files@[i].id == id && (forall|k: int|
            0 <= k < i ==> (#[trigger] files.files@[k]).id != id) {
            if j < i {
                assert(files.files@[j].id != id);
            }
            if i < j {
                assert(files.files@[i].id != id);
            }
        }
    }
}

} // verus!
