//! Why the index of a phone is complete: it holds each file below the shared folder once.
use crate::android;
use crate::explore::Listings;
use crate::index::{EntryView, FileView};
use vstd::multiset::Multiset;
use vstd::prelude::*;

verus! {

/// The name that the files of a folder give as their parent, by the path of the folder.
pub type Parents = spec_fn(Seq<char>) -> Option<Seq<char>>;

/// The files among the entries of a folder, without their numbers.
pub open spec fn files_in(entries: Seq<EntryView>, parent: Option<Seq<char>>) -> Seq<FileView> {
    entries.filter(|e: EntryView| !e.is_folder()).map_values(
        |e: EntryView| android::numbered(e, 0, parent),
    )
}

/// Files without their numbers.
pub open spec fn unnumbered(files: Seq<FileView>) -> Seq<FileView> {
    files.map_values(|f: FileView| FileView { id: 0, ..f })
}

/// The files in a folder; one that cannot be read has none.
pub open spec fn own_files(
    listings: Listings,
    parents: Parents,
    dir: Seq<char>,
) -> Seq<FileView> {
    if listings.dom().contains(dir) {
        files_in(listings[dir], parents(dir))
    } else {
        Seq::empty()
    }
}

/// The folders that a folder leads to.
pub open spec fn own_folders(listings: Listings, dir: Seq<char>) -> Seq<Seq<char>> {
    if listings.dom().contains(dir) {
        android::folders_in(listings[dir])
    } else {
        Seq::empty()
    }
}

/// The files below some folders, as far as `n` folders deep.
pub open spec fn files_below(
    listings: Listings,
    parents: Parents,
    dirs: Seq<Seq<char>>,
    n: nat,
) -> Multiset<FileView>
    decreases n, dirs.len(),
{
    if dirs.len() == 0 || n == 0 {
        Multiset::empty()
    } else {
        files_below(listings, parents, dirs.drop_last(), n).add(
            own_files(listings, parents, dirs.last()).to_multiset(),
        ).add(files_below(listings, parents, own_folders(listings, dirs.last()), (n - 1) as nat))
    }
}

/// Whether nothing below some folders is more than `n` folders deep.
pub open spec fn is_shallow(listings: Listings, dirs: Seq<Seq<char>>, n: nat) -> bool
    decreases n, dirs.len(),
{
    if dirs.len() == 0 {
        true
    } else if n == 0 {
        false
    } else {
        &&& is_shallow(listings, dirs.drop_last(), n)
        &&& is_shallow(listings, own_folders(listings, dirs.last()), (n - 1) as nat)
    }
}

/// Whether the files found and those below the folders that are still to be listed come to all
/// files below `root`.
pub open spec fn comes_to(
    files: Seq<FileView>,
    dirs: Seq<Seq<char>>,
    listings: Listings,
    parents: Parents,
    root: Seq<char>,
    n: nat,
) -> bool {
    &&& is_shallow(listings, dirs, n)
    &&& unnumbered(files).to_multiset().add(files_below(listings, parents, dirs, n))
        == files_below(listings, parents, seq![root], n)
}

proof fn lemma_below_sum(
    listings: Listings,
    parents: Parents,
    a: Seq<Seq<char>>,
    b: Seq<Seq<char>>,
    n: nat,
)
    ensures
        files_below(listings, parents, a + b, n) == files_below(listings, parents, a, n).add(
            files_below(listings, parents, b, n),
        ),
        is_shallow(listings, a + b, n) <==> is_shallow(listings, a, n) && is_shallow(
            listings,
            b,
            n,
        ),
    decreases b.len(),
{
    let sum = files_below(listings, parents, a, n).add(files_below(listings, parents, b, n));
    if b.len() == 0 {
        assert(a + b =~= a);
        assert(sum =~= files_below(listings, parents, a, n));
    } else if n == 0 {
        assert(sum =~= Multiset::empty());
    } else {
        lemma_below_sum(listings, parents, a, b.drop_last(), n);
        assert((a + b).drop_last() =~= a + b.drop_last());
        assert((a + b).last() == b.last());
        assert(files_below(listings, parents, a + b, n) =~= sum);
    }
}

proof fn lemma_deeper(listings: Listings, parents: Parents, dirs: Seq<Seq<char>>, n: nat)
    requires
        is_shallow(listings, dirs, n),
    ensures
        is_shallow(listings, dirs, n + 1),
        files_below(listings, parents, dirs, n + 1) == files_below(listings, parents, dirs, n),
    decreases n, dirs.len(),
{
    if dirs.len() > 0 {
        lemma_deeper(listings, parents, dirs.drop_last(), n);
        lemma_deeper(listings, parents, own_folders(listings, dirs.last()), (n - 1) as nat);
    }
}

/// What is below some folders: what is below all but the last, the files of the last, and what
/// is below the folders that it leads to.
proof fn lemma_below_last(listings: Listings, parents: Parents, dirs: Seq<Seq<char>>, n: nat)
    requires
        dirs.len() > 0,
        is_shallow(listings, dirs, n),
    ensures
        is_shallow(listings, dirs.drop_last() + own_folders(listings, dirs.last()), n),
        files_below(listings, parents, dirs, n) == own_files(
            listings,
            parents,
            dirs.last(),
        ).to_multiset().add(
            files_below(
                listings,
                parents,
                dirs.drop_last() + own_folders(listings, dirs.last()),
                n,
            ),
        ),
{
    let rest = dirs.drop_last();
    let kids = own_folders(listings, dirs.last());
    lemma_deeper(listings, parents, kids, (n - 1) as nat);
    lemma_below_sum(listings, parents, rest, kids, n);
    assert(files_below(listings, parents, dirs, n) =~= own_files(
        listings,
        parents,
        dirs.last(),
    ).to_multiset().add(files_below(listings, parents, rest + kids, n)));
}

proof fn lemma_with_files(
    files: Seq<FileView>,
    entries: Seq<EntryView>,
    parent: Option<Seq<char>>,
)
    ensures
        unnumbered(android::with_files(files, entries, parent)) == unnumbered(files) + files_in(
            entries,
            parent,
        ),
    decreases entries.len(),
{
    reveal(Seq::filter);
    let all = android::with_files(files, entries, parent);
    if entries.len() == 0 {
        assert(unnumbered(all) =~= unnumbered(files) + files_in(entries, parent));
    } else {
        let front = entries.drop_last();
        let e = entries.last();
        let before = android::with_files(files, front, parent);
        lemma_with_files(files, front, parent);
        if e.is_folder() {
            assert(files_in(entries, parent) =~= files_in(front, parent));
        } else {
            assert(files_in(entries, parent) =~= files_in(front, parent).push(
                android::numbered(e, 0, parent),
            ));
            assert(unnumbered(all) =~= unnumbered(before).push(android::numbered(e, 0, parent)));
            assert(unnumbered(all) =~= unnumbered(files) + files_in(entries, parent));
        }
    }
}

/// At the start all files below the shared folder are still to be found.
pub proof fn law_gathering_starts(listings: Listings, parents: Parents, root: Seq<char>, n: nat)
    requires
        is_shallow(listings, seq![root], n),
    ensures
        comes_to(Seq::empty(), seq![root], listings, parents, root, n),
{
    let all = files_below(listings, parents, seq![root], n);
    let none = unnumbered(Seq::empty());
    assert(none =~= Seq::<FileView>::empty());
    assert(none.to_multiset() =~= Multiset::empty()) by {
        vstd::seq_lib::to_multiset_len(none);
    }
    assert(none.to_multiset().add(all) =~= all);
}

/// Handing out a folder and adding its listing loses no file and adds none.
pub proof fn law_listed_folder_is_gathered(
    files: Seq<FileView>,
    dirs: Seq<Seq<char>>,
    listings: Listings,
    parents: Parents,
    root: Seq<char>,
    n: nat,
)
    requires
        comes_to(files, dirs, listings, parents, root, n),
        dirs.len() > 0,
        listings.dom().contains(dirs.last()),
    ensures
        comes_to(
            android::with_files(files, listings[dirs.last()], parents(dirs.last())),
            dirs.drop_last() + android::folders_in(listings[dirs.last()]),
            listings,
            parents,
            root,
            n,
        ),
{
    let entries = listings[dirs.last()];
    let parent = parents(dirs.last());
    let left = dirs.drop_last() + android::folders_in(entries);
    let after = android::with_files(files, entries, parent);
    let new = own_files(listings, parents, dirs.last());
    lemma_with_files(files, entries, parent);
    lemma_below_last(listings, parents, dirs, n);
    vstd::seq_lib::lemma_multiset_commutative(unnumbered(files), new);
    assert(unnumbered(after).to_multiset().add(files_below(listings, parents, left, n))
        =~= unnumbered(files).to_multiset().add(files_below(listings, parents, dirs, n)));
}

/// Passing over a folder that cannot be read loses no file.
pub proof fn law_unreadable_folder_is_gathered(
    files: Seq<FileView>,
    dirs: Seq<Seq<char>>,
    listings: Listings,
    parents: Parents,
    root: Seq<char>,
    n: nat,
)
    requires
        comes_to(files, dirs, listings, parents, root, n),
        dirs.len() > 0,
        !listings.dom().contains(dirs.last()),
    ensures
        comes_to(files, dirs.drop_last(), listings, parents, root, n),
{
    let none = own_files(listings, parents, dirs.last());
    let left = dirs.drop_last();
    lemma_below_last(listings, parents, dirs, n);
    assert(left + own_folders(listings, dirs.last()) =~= left);
    assert(none.to_multiset() =~= Multiset::empty()) by {
        vstd::seq_lib::to_multiset_len(none);
    }
    assert(unnumbered(files).to_multiset().add(files_below(listings, parents, left, n))
        =~= unnumbered(files).to_multiset().add(files_below(listings, parents, dirs, n)));
}

/// When no folder is left, the files found are those below the shared folder, each as often as
/// it is listed there.
pub proof fn law_finished_gathering_is_complete(
    files: Seq<FileView>,
    listings: Listings,
    parents: Parents,
    root: Seq<char>,
    n: nat,
)
    requires
        comes_to(files, Seq::empty(), listings, parents, root, n),
    ensures
        unnumbered(files).to_multiset() == files_below(listings, parents, seq![root], n),
{
    assert(unnumbered(files).to_multiset().add(Multiset::empty())
        =~= unnumbered(files).to_multiset());
}

/// A folder adds no file, and all else adds one, with its own name, size and path; the files of a
/// listing are those of its entries, in order.
pub proof fn law_files_are_the_entries_that_are_no_folders(
    e: EntryView,
    a: Seq<EntryView>,
    b: Seq<EntryView>,
    parent: Option<Seq<char>>,
)
    ensures
        files_in(a + b, parent) == files_in(a, parent) + files_in(b, parent),
        e.is_dir == Some(true) ==> files_in(seq![e], parent).len() == 0,
        e.is_dir != Some(true) ==> {
            let files = files_in(seq![e], parent);
            &&& files.len() == 1
            &&& files[0].name == e.name
            &&& files[0].path == e.path
            &&& files[0].size == match e.size {
                Some(n) => n as nat,
                None => 0,
            }
            &&& !files[0].is_dir
            &&& files[0].parent_dir == parent
        },
{
    reveal(Seq::filter);
    let file = |x: EntryView| !x.is_folder();
    Seq::filter_distributes_over_add(a, b, file);
    assert(files_in(a + b, parent) =~= files_in(a, parent) + files_in(b, parent));
    let one = seq![e];
    assert(one.drop_last() =~= Seq::<EntryView>::empty());
    assert(one.drop_last().filter(file) =~= Seq::<EntryView>::empty());
    assert(one.last() == e);
    if e.is_dir == Some(true) {
        assert(one.filter(file) =~= Seq::<EntryView>::empty());
    } else {
        assert(one.filter(file) =~= seq![e]);
    }
}

/// What a folder holds is what its listing says, and nothing where it cannot be read.
pub proof fn law_folder_holds_what_is_listed(listings: Listings, parents: Parents, dir: Seq<char>)
    ensures
        listings.dom().contains(dir) ==> own_files(listings, parents, dir) == files_in(
            listings[dir],
            parents(dir),
        ) && own_folders(listings, dir) == android::folders_in(listings[dir]),
        !listings.dom().contains(dir) ==> own_files(listings, parents, dir).len() == 0
            && own_folders(listings, dir).len() == 0,
{
}

} // verus!
