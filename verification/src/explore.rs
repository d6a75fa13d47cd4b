//! Why an index is complete: how building one explores the shared folders.
use crate::index;
use crate::index::{EntryView, FileIndexing, FileView, IndexBuilder, ScannedFolder};
use crate::sort;
use vstd::prelude::*;

verus! {

/// What a file system lists in each folder that can be read, by its path.
pub type Listings = Map<Seq<char>, Seq<EntryView>>;

/// A folder: its path, and the name that its entries give as their parent.
pub type Folder = (Seq<char>, Seq<char>);

/// How far the exploration of the shared folders has come.
#[verifier::ext_equal]
pub struct Exploration {
    /// The folders whose listing was added to the index, or that could not be read.
    pub done: Set<Folder>,
    /// The folders that were handed out and not yet dealt with, each as often as it was.
    pub pending: Seq<Folder>,
    /// The folders that are still to be handed out.
    pub queue: Seq<Folder>,
    /// The entries found.
    pub found: Seq<FileView>,
}

/// Whether an index holds a folder.
pub open spec fn holds_folder(found: Seq<FileView>, folder: Folder) -> bool {
    exists|i: int|
        0 <= i < found.len() && (#[trigger] found[i]).is_dir && (found[i].path, found[i].name)
            == folder
}

/// Whether an index holds everything that is listed in a folder and may be shared.
pub open spec fn holds_listing(found: Seq<FileView>, listings: Listings, folder: Folder) -> bool {
    listings.dom().contains(folder.0) ==> forall|f: FileView|
        index::indexed_entries(folder.1, listings[folder.0]).contains(f) ==> #[trigger]
            found.contains(f)
}

/// Whether an entry is listed in a folder that an index holds.
pub open spec fn is_listed(found: Seq<FileView>, listings: Listings, f: FileView) -> bool {
    exists|folder: Folder| #[trigger]
        holds_folder(found, folder) && listings.dom().contains(folder.0) && index::indexed_entries(
            folder.1,
            listings[folder.0],
        ).contains(f)
}

/// Whether an index holds all that may be shared in each of its folders, and, but for the
/// shared roots, nothing else.
pub open spec fn is_complete(found: Seq<FileView>, listings: Listings) -> bool {
    &&& forall|folder: Folder| #[trigger]
        holds_folder(found, folder) ==> holds_listing(found, listings, folder)
    &&& forall|i: int|
        0 <= i < found.len() ==> (#[trigger] found[i]).parent_dir is None || is_listed(
            found,
            listings,
            found[i],
        )
}

impl Exploration {
    /// Whether a folder is known to the exploration.
    pub open spec fn knows(self, folder: Folder) -> bool {
        self.done.contains(folder) || self.pending.contains(folder) || self.queue.contains(folder)
    }

    /// What every step keeps: the known folders are those of the index, what is done is in the
    /// index, and the index holds nothing but roots and what folders list.
    pub open spec fn wf(self, listings: Listings) -> bool {
        &&& forall|folder: Folder| #[trigger]
            self.knows(folder) <==> holds_folder(self.found, folder)
        &&& forall|folder: Folder| #[trigger]
            self.done.contains(folder) ==> holds_listing(self.found, listings, folder)
        &&& forall|i: int|
            0 <= i < self.found.len() ==> (#[trigger] self.found[i]).parent_dir is None
                || is_listed(self.found, listings, self.found[i])
    }

    /// Nothing was found, and there is nothing to do.
    pub open spec fn start() -> Exploration {
        Exploration {
            done: Set::empty(),
            pending: Seq::empty(),
            queue: Seq::empty(),
            found: Seq::empty(),
        }
    }

    /// Once a shared root was added.
    pub open spec fn with_root(self, path: Seq<char>, name: Seq<char>) -> Exploration {
        Exploration {
            queue: self.queue.push((path, name)),
            found: self.found.push(index::root_entry(path, name)),
            ..self
        }
    }

    /// Once the last folder of the queue was handed out.
    pub open spec fn with_taken(self) -> Exploration {
        Exploration {
            pending: self.pending.push(self.queue.last()),
            queue: self.queue.drop_last(),
            ..self
        }
    }

    /// Once the listing of the folder at place `k` of those handed out was added to the index.
    pub open spec fn with_listing(self, k: int, entries: Seq<EntryView>) -> Exploration {
        Exploration {
            done: self.done.insert(self.pending[k]),
            pending: self.pending.remove(k),
            queue: self.queue + index::found_folders(entries),
            found: self.found + index::indexed_entries(self.pending[k].1, entries),
        }
    }

    /// Once the folder at place `k` of those handed out turned out to be unreadable.
    pub open spec fn with_unreadable(self, k: int) -> Exploration {
        Exploration {
            done: self.done.insert(self.pending[k]),
            pending: self.pending.remove(k),
            ..self
        }
    }
}

proof fn lemma_holds_more(a: Seq<FileView>, b: Seq<FileView>, listings: Listings)
    ensures
        forall|folder: Folder| #[trigger]
            holds_folder(a + b, folder) <==> holds_folder(a, folder) || holds_folder(b, folder),
        forall|folder: Folder|
            holds_listing(a, listings, folder) ==> #[trigger] holds_listing(
                a + b,
                listings,
                folder,
            ),
        forall|f: FileView|
            is_listed(a, listings, f) ==> #[trigger] is_listed(a + b, listings, f),
{
    let c = a + b;
    assert forall|folder: Folder| #[trigger] holds_folder(c, folder) <==> holds_folder(a, folder)
        || holds_folder(b, folder) by {
        if holds_folder(c, folder) {
            let i = choose|i: int|
                0 <= i < c.len() && (#[trigger] c[i]).is_dir && (c[i].path, c[i].name) == folder;
            if i < a.len() {
                assert(a[i] == c[i]);
            } else {
                assert(b[i - a.len()] == c[i]);
            }
        }
        if holds_folder(a, folder) {
            let i = choose|i: int|
                0 <= i < a.len() && (#[trigger] a[i]).is_dir && (a[i].path, a[i].name) == folder;
            assert(c[i] == a[i]);
        }
        if holds_folder(b, folder) {
            let i = choose|i: int|
                0 <= i < b.len() && (#[trigger] b[i]).is_dir && (b[i].path, b[i].name) == folder;
            assert(c[a.len() + i] == b[i]);
        }
    }
    assert forall|f: FileView| a.contains(f) implies #[trigger] c.contains(f) by {
        let i = choose|i: int| 0 <= i < a.len() && a[i] == f;
        assert(c[i] == f);
    }
    assert forall|folder: Folder|
        holds_listing(a, listings, folder) implies #[trigger] holds_listing(c, listings, folder) by {
        if listings.dom().contains(folder.0) {
            assert forall|f: FileView|
                index::indexed_entries(
                    folder.1,
                    listings[folder.0],
                ).contains(f) implies #[trigger] c.contains(f) by {
                assert(a.contains(f));
            }
        }
    }
    assert forall|f: FileView| is_listed(a, listings, f) implies #[trigger] is_listed(
        c,
        listings,
        f,
    ) by {
        let folder = choose|folder: Folder| #[trigger]
            holds_folder(a, folder) && listings.dom().contains(folder.0)
                && index::indexed_entries(folder.1, listings[folder.0]).contains(f);
        assert(holds_folder(c, folder));
    }
}

proof fn lemma_folders_are_held(parent: Seq<char>, entries: Seq<EntryView>)
    ensures
        forall|folder: Folder| #[trigger]
            holds_folder(index::indexed_entries(parent, entries), folder)
                <==> index::found_folders(entries).contains(folder),
{
    broadcast use vstd::seq_lib::group_filter_ensures;

    let new = index::indexed_entries(parent, entries);
    let is_dir = |f: FileView| f.is_dir;
    let dirs = new.filter(is_dir);
    let folders = index::found_folders(entries);
    index::lemma_folders_of_listing(parent, entries);
    assert(folders == index::folders_of(new));
    assert forall|folder: Folder| #[trigger] holds_folder(new, folder) <==> folders.contains(
        folder,
    ) by {
        if holds_folder(new, folder) {
            let i = choose|i: int|
                0 <= i < new.len() && (#[trigger] new[i]).is_dir && (new[i].path, new[i].name)
                    == folder;
            assert(is_dir(new[i]));
            assert(dirs.contains(new[i]));
            let k = choose|k: int| 0 <= k < dirs.len() && dirs[k] == new[i];
            assert(folders[k] == folder);
        }
        if folders.contains(folder) {
            let k = choose|k: int| 0 <= k < folders.len() && folders[k] == folder;
            assert(dirs.contains(dirs[k]));
            assert(is_dir(dirs[k]));
            new.lemma_filter_contains_rev(is_dir, dirs[k]);
            let i = choose|i: int| 0 <= i < new.len() && new[i] == dirs[k];
            assert(new[i].is_dir);
        }
    }
}

/// At the start nothing is missing.
pub proof fn law_exploration_starts(listings: Listings)
    ensures
        Exploration::start().wf(listings),
{
    let s = Exploration::start();
    assert forall|folder: Folder| #[trigger] s.knows(folder) <==> holds_folder(
        s.found,
        folder,
    ) by {}
}

/// Adding a root keeps the exploration in order.
pub proof fn law_root_is_explored(
    s: Exploration,
    listings: Listings,
    path: Seq<char>,
    name: Seq<char>,
)
    requires
        s.wf(listings),
    ensures
        s.with_root(path, name).wf(listings),
{
    let t = s.with_root(path, name);
    let new = seq![index::root_entry(path, name)];
    assert(t.found =~= s.found + new);
    lemma_holds_more(s.found, new, listings);
    assert forall|folder: Folder| #[trigger] t.knows(folder) <==> holds_folder(
        t.found,
        folder,
    ) by {
        assert(t.queue.contains(folder) <==> s.queue.contains(folder) || folder == (path, name))
            by {
            lemma_push_contains(s.queue, (path, name), folder);
        }
        assert(holds_folder(new, folder) <==> folder == (path, name)) by {
            assert(new[0] == index::root_entry(path, name));
        }
        assert(s.knows(folder) <==> holds_folder(s.found, folder));
    }
    assert forall|i: int| 0 <= i < t.found.len() implies (#[trigger] t.found[i]).parent_dir is None
        || is_listed(t.found, listings, t.found[i]) by {
        if i < s.found.len() {
            assert(t.found[i] == s.found[i]);
        }
    }
}

proof fn lemma_push_contains(s: Seq<Folder>, a: Folder, x: Folder)
    ensures
        s.push(a).contains(x) <==> s.contains(x) || x == a,
{
    let t = s.push(a);
    if s.contains(x) {
        let i = choose|i: int| 0 <= i < s.len() && s[i] == x;
        assert(t[i] == x);
    }
    if x == a {
        assert(t[s.len() as int] == x);
    }
    if t.contains(x) {
        let i = choose|i: int| 0 <= i < t.len() && t[i] == x;
        if i < s.len() {
            assert(s[i] == x);
        }
    }
}

/// Handing out a folder keeps the exploration in order.
pub proof fn law_taken_folder_is_explored(s: Exploration, listings: Listings)
    requires
        s.wf(listings),
        s.queue.len() > 0,
    ensures
        s.with_taken().wf(listings),
{
    let t = s.with_taken();
    assert forall|folder: Folder| #[trigger] t.knows(folder) <==> holds_folder(
        t.found,
        folder,
    ) by {
        assert(s.queue =~= t.queue.push(s.queue.last()));
        lemma_push_contains(t.queue, s.queue.last(), folder);
        lemma_push_contains(s.pending, s.queue.last(), folder);
        assert(s.knows(folder) <==> holds_folder(s.found, folder));
    }
}

/// Adding the listing of a folder that was handed out keeps the exploration in order.
pub proof fn law_listed_folder_is_explored(s: Exploration, listings: Listings, k: int)
    requires
        s.wf(listings),
        0 <= k < s.pending.len(),
        listings.dom().contains(s.pending[k].0),
    ensures
        s.with_listing(k, listings[s.pending[k].0]).wf(listings),
{
    let folder = s.pending[k];
    let entries = listings[folder.0];
    let new = index::indexed_entries(folder.1, entries);
    let t = s.with_listing(k, entries);
    lemma_holds_more(s.found, new, listings);
    lemma_folders_are_held(folder.1, entries);
    assert(s.knows(folder));
    assert forall|f: Folder| #[trigger] t.knows(f) <==> holds_folder(t.found, f) by {
        lemma_sum_contains(s.queue, index::found_folders(entries), f);
        lemma_remove_contains(s.pending, k, f);
        assert(s.knows(f) <==> holds_folder(s.found, f));
        assert(holds_folder(new, f) <==> index::found_folders(entries).contains(f));
    }
    assert forall|f: Folder| #[trigger] t.done.contains(f) implies holds_listing(
        t.found,
        listings,
        f,
    ) by {
        if f == folder {
            assert forall|e: FileView|
                index::indexed_entries(f.1, listings[f.0]).contains(
                    e,
                ) implies #[trigger] t.found.contains(e) by {
                let i = choose|i: int| 0 <= i < new.len() && new[i] == e;
                assert(t.found[s.found.len() + i] == e);
            }
        } else {
            assert(s.done.contains(f));
        }
    }
    assert forall|i: int| 0 <= i < t.found.len() implies (#[trigger] t.found[i]).parent_dir is None
        || is_listed(t.found, listings, t.found[i]) by {
        if i < s.found.len() {
            assert(t.found[i] == s.found[i]);
        } else {
            assert(t.found[i] == new[i - s.found.len()]);
            assert(new.contains(t.found[i]));
            assert(holds_folder(t.found, folder));
        }
    }
}

proof fn lemma_sum_contains(a: Seq<Folder>, b: Seq<Folder>, x: Folder)
    ensures
        (a + b).contains(x) <==> a.contains(x) || b.contains(x),
{
    let c = a + b;
    if a.contains(x) {
        let i = choose|i: int| 0 <= i < a.len() && a[i] == x;
        assert(c[i] == x);
    }
    if b.contains(x) {
        let i = choose|i: int| 0 <= i < b.len() && b[i] == x;
        assert(c[a.len() + i] == x);
    }
    if c.contains(x) {
        let i = choose|i: int| 0 <= i < c.len() && c[i] == x;
        if i < a.len() {
            assert(a[i] == x);
        } else {
            assert(b[i - a.len()] == x);
        }
    }
}

proof fn lemma_remove_contains(s: Seq<Folder>, k: int, x: Folder)
    requires
        0 <= k < s.len(),
    ensures
        s.contains(x) <==> s.remove(k).contains(x) || x == s[k],
{
    let t = s.remove(k);
    if s.contains(x) && x != s[k] {
        let i = choose|i: int| 0 <= i < s.len() && s[i] == x;
        if i < k {
            assert(t[i] == x);
        } else {
            assert(t[i - 1] == x);
        }
    }
    if t.contains(x) {
        let i = choose|i: int| 0 <= i < t.len() && t[i] == x;
        if i < k {
            assert(s[i] == x);
        } else {
            assert(s[i + 1] == x);
        }
    }
}

/// Passing over a folder that cannot be read keeps the exploration in order.
pub proof fn law_unreadable_folder_is_explored(s: Exploration, listings: Listings, k: int)
    requires
        s.wf(listings),
        0 <= k < s.pending.len(),
        !listings.dom().contains(s.pending[k].0),
    ensures
        s.with_unreadable(k).wf(listings),
{
    let t = s.with_unreadable(k);
    assert(s.knows(s.pending[k]));
    assert forall|f: Folder| #[trigger] t.knows(f) <==> holds_folder(t.found, f) by {
        lemma_remove_contains(s.pending, k, f);
        assert(s.knows(f) <==> holds_folder(s.found, f));
    }
}

/// When no folder is left, the index is complete: it holds all that may be shared in the shared
/// roots and in every folder below them, and nothing else.
pub proof fn law_finished_index_is_complete(s: Exploration, listings: Listings)
    requires
        s.wf(listings),
        s.queue.len() == 0,
        s.pending.len() == 0,
    ensures
        is_complete(s.found, listings),
{
    assert forall|folder: Folder| #[trigger] holds_folder(s.found, folder) implies holds_listing(
        s.found,
        listings,
        folder,
    ) by {
        assert(s.knows(folder));
    }
}

proof fn lemma_same_members(out: Seq<FileIndexing>, inp: Seq<FileIndexing>)
    requires
        out.to_multiset() == inp.to_multiset(),
    ensures
        forall|f: FileView| #[trigger]
            index::view_files(inp).contains(f) ==> index::view_files(out).contains(f),
{
    broadcast use vstd::seq_lib::group_to_multiset_ensures;

    assert forall|f: FileView| #[trigger] index::view_files(inp).contains(f) implies index::view_files(
        out,
    ).contains(f) by {
        let i = choose|i: int| 0 <= i < inp.len() && index::view_files(inp)[i] == f;
        assert(inp.contains(inp[i]));
        assert(out.to_multiset().count(inp[i]) > 0);
        let k = choose|k: int| 0 <= k < out.len() && out[k] == inp[i];
        assert(index::view_files(out)[k] == f);
    }
}

proof fn lemma_complete_by_members(a: Seq<FileView>, b: Seq<FileView>, listings: Listings)
    requires
        is_complete(a, listings),
        forall|f: FileView| #[trigger] a.contains(f) ==> b.contains(f),
        forall|f: FileView| #[trigger] b.contains(f) ==> a.contains(f),
    ensures
        is_complete(b, listings),
{
    assert forall|folder: Folder| holds_folder(a, folder) <==> #[trigger] holds_folder(
        b,
        folder,
    ) by {
        if holds_folder(a, folder) {
            let i = choose|i: int|
                0 <= i < a.len() && (#[trigger] a[i]).is_dir && (a[i].path, a[i].name) == folder;
            assert(a.contains(a[i]));
            let k = choose|k: int| 0 <= k < b.len() && b[k] == a[i];
            assert(b[k].is_dir);
        }
        if holds_folder(b, folder) {
            let i = choose|i: int|
                0 <= i < b.len() && (#[trigger] b[i]).is_dir && (b[i].path, b[i].name) == folder;
            assert(b.contains(b[i]));
            let k = choose|k: int| 0 <= k < a.len() && a[k] == b[i];
            assert(a[k].is_dir);
        }
    }
    assert forall|folder: Folder| #[trigger] holds_folder(b, folder) implies holds_listing(
        b,
        listings,
        folder,
    ) by {
        assert(holds_folder(a, folder));
        assert(holds_listing(a, listings, folder));
        if listings.dom().contains(folder.0) {
            assert forall|f: FileView|
                index::indexed_entries(
                    folder.1,
                    listings[folder.0],
                ).contains(f) implies #[trigger] b.contains(f) by {
                assert(a.contains(f));
            }
        }
    }
    assert forall|i: int| 0 <= i < b.len() implies (#[trigger] b[i]).parent_dir is None
        || is_listed(b, listings, b[i]) by {
        assert(b.contains(b[i]));
        let k = choose|k: int| 0 <= k < a.len() && a[k] == b[i];
        assert(a[k].parent_dir is None || is_listed(a, listings, a[k]));
        if is_listed(a, listings, a[k]) {
            let folder = choose|folder: Folder| #[trigger]
                holds_folder(a, folder) && listings.dom().contains(folder.0)
                    && index::indexed_entries(folder.1, listings[folder.0]).contains(a[k]);
            assert(holds_folder(b, folder));
        }
    }
}

/// Sorting keeps an index complete.
pub proof fn law_sorted_index_is_complete(
    out: Seq<FileIndexing>,
    inp: Seq<FileIndexing>,
    listings: Listings,
)
    requires
        sort::is_sort_of(out, inp),
        is_complete(index::view_files(inp), listings),
    ensures
        is_complete(index::view_files(out), listings),
{
    lemma_same_members(out, inp);
    lemma_same_members(inp, out);
    lemma_complete_by_members(index::view_files(inp), index::view_files(out), listings);
}

/// How far the exploration has come when the builder of an index is in this state.
pub open spec fn stage(
    builder: IndexBuilder,
    done: Set<Folder>,
    pending: Seq<Folder>,
) -> Exploration {
    Exploration { done, pending, queue: builder.queue(), found: builder.found() }
}

/// A new builder is at the start of an exploration.
pub proof fn law_new_builder_starts(builder: IndexBuilder)
    requires
        builder.queue() == Seq::<Folder>::empty(),
        builder.results() == Seq::<FileIndexing>::empty(),
    ensures
        stage(builder, Set::empty(), Seq::empty()) == Exploration::start(),
{
    assert(stage(builder, Set::empty(), Seq::empty()) =~= Exploration::start());
}

/// When a builder adds a root, the exploration takes the step for that root.
pub proof fn law_adding_a_root_is_a_step(
    before: IndexBuilder,
    after: IndexBuilder,
    path: Seq<char>,
    name: Seq<char>,
    done: Set<Folder>,
    pending: Seq<Folder>,
)
    requires
        after.queue() == before.queue().push((path, name)),
        after.found() == before.found().push(index::root_entry(path, name)),
    ensures
        stage(after, done, pending) == stage(before, done, pending).with_root(path, name),
{
}

/// When a builder hands out a folder, the exploration takes the step for that.
pub proof fn law_taking_is_a_step(
    before: IndexBuilder,
    after: IndexBuilder,
    done: Set<Folder>,
    pending: Seq<Folder>,
)
    requires
        before.queue().len() > 0,
        after.results() == before.results(),
        after.queue() == before.queue().drop_last(),
    ensures
        stage(after, done, pending.push(before.queue().last())) == stage(
            before,
            done,
            pending,
        ).with_taken(),
{
}

/// When a builder takes in what was made of the listing of a folder, the exploration takes the
/// step for that folder.
pub proof fn law_absorbing_is_a_step(
    before: IndexBuilder,
    after: IndexBuilder,
    scanned: ScannedFolder,
    k: int,
    entries: Seq<EntryView>,
    done: Set<Folder>,
    pending: Seq<Folder>,
)
    requires
        0 <= k < pending.len(),
        index::view_files(scanned.items@) == index::indexed_entries(pending[k].1, entries),
        index::view_folders(scanned.folders@) == index::found_folders(entries),
        after.results() == before.results() + scanned.items@,
        after.queue() == before.queue() + index::view_folders(scanned.folders@),
    ensures
        stage(after, done.insert(pending[k]), pending.remove(k)) == stage(
            before,
            done,
            pending,
        ).with_listing(k, entries),
{
    assert(after.found() =~= before.found() + index::view_files(scanned.items@));
}

/// A complete index goes into every folder: whatever the file system lists in a folder of the
/// index and is not private stands in the index as what it is, and what the file system calls a
/// folder stands there as a folder.
pub proof fn law_complete_index_goes_into_every_folder(
    found: Seq<FileView>,
    listings: Listings,
    k: int,
    i: int,
)
    requires
        is_complete(found, listings),
        0 <= k < found.len(),
        found[k].is_dir,
        listings.dom().contains(found[k].path),
        0 <= i < listings[found[k].path].len(),
        !index::is_private_name(listings[found[k].path][i].name),
    ensures
        ({
            let e = listings[found[k].path][i];
            exists|j: int|
                0 <= j < found.len() && (#[trigger] found[j]).path == e.path && found[j].name
                    == e.name && (found[j].is_dir <==> e.is_dir == Some(true))
                    && found[j].parent_dir == Some(found[k].name)
        }),
{
    let folder = (found[k].path, found[k].name);
    let entries = listings[found[k].path];
    assert(holds_folder(found, folder));
    index::law_every_entry_is_listed(found[k].name, entries, i);
    let items = index::indexed_entries(found[k].name, entries);
    let m = choose|m: int|
        0 <= m < items.len() && index::is_item_of(
            #[trigger] items[m],
            entries[i],
            found[k].name,
        );
    assert(items.contains(items[m]));
    assert(found.contains(items[m]));
    let j = choose|j: int| 0 <= j < found.len() && found[j] == items[m];
    assert(found[j].path == entries[i].path);
}

/// A complete index holds nothing but roots and entries that some folder of it lists.
pub proof fn law_complete_index_holds_nothing_else(
    found: Seq<FileView>,
    listings: Listings,
    j: int,
)
    requires
        is_complete(found, listings),
        0 <= j < found.len(),
        found[j].parent_dir is Some,
    ensures
        exists|k: int, i: int|
            0 <= k < found.len() && (#[trigger] found[k]).is_dir && listings.dom().contains(
                found[k].path,
            ) && 0 <= i < listings[found[k].path].len() && !index::is_private_name(
                (#[trigger] listings[found[k].path][i]).name,
            ) && index::is_item_of(found[j], listings[found[k].path][i], found[k].name),
{
    let folder = choose|folder: Folder| #[trigger]
        holds_folder(found, folder) && listings.dom().contains(folder.0) && index::indexed_entries(
            folder.1,
            listings[folder.0],
        ).contains(found[j]);
    let k = choose|k: int|
        0 <= k < found.len() && (#[trigger] found[k]).is_dir && (found[k].path, found[k].name)
            == folder;
    let entries = listings[folder.0];
    let items = index::indexed_entries(folder.1, entries);
    let m = choose|m: int| 0 <= m < items.len() && items[m] == found[j];
    index::law_only_entries_are_listed(folder.1, entries, m);
    let i = choose|i: int|
        0 <= i < entries.len() && !index::is_private_name((#[trigger] entries[i]).name)
            && index::is_item_of(items[m], entries[i], folder.1);
    assert(listings[found[k].path][i] == entries[i]);
}

/// A builder that adds a root lists it, under its name, and will go into it.
pub proof fn law_builder_adds_roots(
    builder: &mut IndexBuilder,
    root: &str,
    done: Set<Folder>,
    pending: Seq<Folder>,
)
    requires
        call_ensures(IndexBuilder::add_root, (builder, root), ()),
    ensures
        exists|name: Seq<char>| #[trigger]
            index::is_root_name(root@, name) && stage(*final(builder), done, pending) == stage(
                *old(builder),
                done,
                pending,
            ).with_root(root@, name),
{
    let name = choose|name: Seq<char>| #[trigger]
        index::is_root_name(root@, name) && final(builder).queue() == old(builder).queue().push(
            (root@, name),
        ) && final(builder).found() == old(builder).found().push(
            index::root_entry(root@, name),
        );
    law_adding_a_root_is_a_step(*old(builder), *final(builder), root@, name, done, pending);
}

/// A builder hands out a folder as long as there is one, loses none, and forgets nothing.
pub proof fn law_builder_hands_out_folders(
    builder: &mut IndexBuilder,
    r: Option<(String, String)>,
    done: Set<Folder>,
    pending: Seq<Folder>,
)
    requires
        call_ensures(IndexBuilder::take_folder, (builder,), r),
    ensures
        r is None <==> old(builder).queue().len() == 0,
        r is None ==> stage(*final(builder), done, pending) == stage(*old(builder), done, pending),
        r is Some ==> stage(*final(builder), done, pending.push(((r->0).0@, (r->0).1@))) == stage(
            *old(builder),
            done,
            pending,
        ).with_taken(),
{
    if r is Some {
        law_taking_is_a_step(*old(builder), *final(builder), done, pending);
    }
}

/// A builder that takes in the listing of a folder takes the step for the whole listing.
pub proof fn law_builder_takes_in_listings(
    builder: &mut IndexBuilder,
    parent: &str,
    entries: Vec<index::FolderEntry>,
    scanned: ScannedFolder,
    k: int,
    done: Set<Folder>,
    pending: Seq<Folder>,
)
    requires
        0 <= k < pending.len(),
        pending[k].1 == parent@,
        call_ensures(index::scan_folder, (parent, entries), scanned),
        call_ensures(IndexBuilder::absorb, (builder, scanned), ()),
    ensures
        stage(*final(builder), done.insert(pending[k]), pending.remove(k)) == stage(
            *old(builder),
            done,
            pending,
        ).with_listing(k, index::view_entries(entries@)),
{
    law_absorbing_is_a_step(
        *old(builder),
        *final(builder),
        scanned,
        k,
        index::view_entries(entries@),
        done,
        pending,
    );
}

/// A builder that is done gives an index of everything that it found: complete if that is.
pub proof fn law_finished_builder_gives_what_was_found(
    builder: IndexBuilder,
    r: index::DeviceIndex,
    listings: Listings,
)
    requires
        call_ensures(IndexBuilder::finish, (builder,), r),
        is_complete(builder.found(), listings),
    ensures
        is_complete(index::view_files(r.files@), listings),
        r.files@.to_multiset() == builder.results().to_multiset(),
        r.files@.len() == builder.results().len(),
{
    law_sorted_index_is_complete(r.files@, builder.results(), listings);
    broadcast use vstd::seq_lib::group_to_multiset_ensures;

    assert(r.files@.to_multiset().len() == r.files@.len());
    assert(builder.results().to_multiset().len() == builder.results().len());
}

} // verus!
