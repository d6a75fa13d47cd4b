//! How often an index holds each entry: once for each way to it from a shared root.
use crate::explore::{Exploration, Folder, Listings};
use crate::index;
use crate::index::{FileIndexing, FileView};
use crate::sort;
use vstd::multiset::Multiset;
use vstd::prelude::*;

verus! {

/// The entries that a folder adds to an index; one that cannot be read adds none.
pub open spec fn own_entries(listings: Listings, folder: Folder) -> Seq<FileView> {
    if listings.dom().contains(folder.0) {
        index::indexed_entries(folder.1, listings[folder.0])
    } else {
        Seq::empty()
    }
}

/// The folders that a folder leads to.
pub open spec fn own_folders(listings: Listings, folder: Folder) -> Seq<Folder> {
    if listings.dom().contains(folder.0) {
        index::found_folders(listings[folder.0])
    } else {
        Seq::empty()
    }
}

/// The entries below some folders, as far as `n` folders deep.
pub open spec fn below(listings: Listings, folders: Seq<Folder>, n: nat) -> Multiset<FileView>
    decreases n, folders.len(),
{
    if folders.len() == 0 || n == 0 {
        Multiset::empty()
    } else {
        below(listings, folders.drop_last(), n).add(
            own_entries(listings, folders.last()).to_multiset(),
        ).add(below(listings, own_folders(listings, folders.last()), (n - 1) as nat))
    }
}

/// Whether nothing below some folders is more than `n` folders deep.
pub open spec fn is_shallow(listings: Listings, folders: Seq<Folder>, n: nat) -> bool
    decreases n, folders.len(),
{
    if folders.len() == 0 {
        true
    } else if n == 0 {
        false
    } else {
        &&& is_shallow(listings, folders.drop_last(), n)
        &&& is_shallow(listings, own_folders(listings, folders.last()), (n - 1) as nat)
    }
}

/// The entries of some roots themselves.
pub open spec fn root_entries(roots: Seq<Folder>) -> Seq<FileView> {
    roots.map_values(|root: Folder| index::root_entry(root.0, root.1))
}

/// The entries of some roots and of all that is below them.
pub open spec fn total(listings: Listings, roots: Seq<Folder>, n: nat) -> Multiset<FileView> {
    root_entries(roots).to_multiset().add(below(listings, roots, n))
}

/// Whether what was found and what is still to be found come to all that is below the roots.
pub open spec fn comes_to(s: Exploration, listings: Listings, roots: Seq<Folder>, n: nat) -> bool {
    &&& is_shallow(listings, s.queue, n)
    &&& is_shallow(listings, s.pending, n)
    &&& s.found.to_multiset().add(below(listings, s.queue, n)).add(below(listings, s.pending, n))
        == total(listings, roots, n)
}

proof fn lemma_below_sum(listings: Listings, a: Seq<Folder>, b: Seq<Folder>, n: nat)
    ensures
        below(listings, a + b, n) == below(listings, a, n).add(below(listings, b, n)),
        is_shallow(listings, a + b, n) <==> is_shallow(listings, a, n) && is_shallow(
            listings,
            b,
            n,
        ),
    decreases b.len(),
{
    if b.len() == 0 {
        assert(a + b =~= a);
        assert(below(listings, a, n).add(Multiset::empty()) =~= below(listings, a, n));
    } else if n == 0 {
        assert(Multiset::<FileView>::empty().add(Multiset::empty()) =~= Multiset::empty());
    } else {
        lemma_below_sum(listings, a, b.drop_last(), n);
        assert((a + b).drop_last() =~= a + b.drop_last());
        assert((a + b).last() == b.last());
        assert(below(listings, a + b, n) =~= below(listings, a, n).add(below(listings, b, n)));
    }
}

proof fn lemma_deeper(listings: Listings, folders: Seq<Folder>, n: nat)
    requires
        is_shallow(listings, folders, n),
    ensures
        is_shallow(listings, folders, n + 1),
        below(listings, folders, n + 1) == below(listings, folders, n),
    decreases n, folders.len(),
{
    if folders.len() > 0 {
        lemma_deeper(listings, folders.drop_last(), n);
        lemma_deeper(listings, own_folders(listings, folders.last()), (n - 1) as nat);
    }
}

/// What is below one folder: its own entries, and what is below the folders that it leads to.
proof fn lemma_below_one(listings: Listings, folder: Folder, n: nat)
    requires
        is_shallow(listings, seq![folder], n),
    ensures
        is_shallow(listings, own_folders(listings, folder), n),
        below(listings, seq![folder], n) == own_entries(listings, folder).to_multiset().add(
            below(listings, own_folders(listings, folder), n),
        ),
{
    let one = seq![folder];
    assert(one.drop_last() =~= Seq::<Folder>::empty());
    assert(one.last() == folder);
    lemma_deeper(listings, own_folders(listings, folder), (n - 1) as nat);
    assert(below(listings, one.drop_last(), n) =~= Multiset::empty());
    assert(below(listings, one, n) == below(listings, one.drop_last(), n).add(
        own_entries(listings, one.last()).to_multiset(),
    ).add(below(listings, own_folders(listings, one.last()), (n - 1) as nat)));
    assert(below(listings, one, n) =~= own_entries(listings, folder).to_multiset().add(
        below(listings, own_folders(listings, folder), n),
    ));
}

/// At the start nothing was found, and without roots there is nothing to find.
pub proof fn law_tally_starts(listings: Listings, n: nat)
    ensures
        comes_to(Exploration::start(), listings, Seq::empty(), n),
{
    let s = Exploration::start();
    let none = Seq::<Folder>::empty();
    assert(root_entries(none) =~= s.found);
    assert(below(listings, none, n) =~= Multiset::empty());
    assert(s.found.to_multiset().add(below(listings, none, n)).add(below(listings, none, n))
        =~= total(listings, none, n));
}

/// A root that is added adds itself and all that is below it.
pub proof fn law_root_is_tallied(
    s: Exploration,
    listings: Listings,
    roots: Seq<Folder>,
    root: Folder,
    n: nat,
)
    requires
        comes_to(s, listings, roots, n),
        is_shallow(listings, seq![root], n),
    ensures
        comes_to(s.with_root(root.0, root.1), listings, roots.push(root), n),
{
    broadcast use vstd::seq_lib::group_to_multiset_ensures;

    let t = s.with_root(root.0, root.1);
    let e = index::root_entry(root.0, root.1);
    assert(roots.push(root) =~= roots + seq![root]);
    assert(t.queue =~= s.queue + seq![root]);
    lemma_below_sum(listings, roots, seq![root], n);
    lemma_below_sum(listings, s.queue, seq![root], n);
    assert(root_entries(roots.push(root)) =~= root_entries(roots).push(e));
    assert(t.found.to_multiset().add(below(listings, t.queue, n)).add(
        below(listings, t.pending, n),
    ) =~= s.found.to_multiset().add(below(listings, s.queue, n)).add(
        below(listings, s.pending, n),
    ).insert(e).add(below(listings, seq![root], n)));
    assert(total(listings, roots.push(root), n) =~= total(listings, roots, n).insert(e).add(
        below(listings, seq![root], n),
    ));
}

/// Handing out a folder changes nothing in what there is to find.
pub proof fn law_taken_folder_is_tallied(
    s: Exploration,
    listings: Listings,
    roots: Seq<Folder>,
    n: nat,
)
    requires
        comes_to(s, listings, roots, n),
        s.queue.len() > 0,
    ensures
        comes_to(s.with_taken(), listings, roots, n),
{
    let t = s.with_taken();
    let one = seq![s.queue.last()];
    assert(s.queue =~= t.queue + one);
    assert(t.pending =~= s.pending + one);
    lemma_below_sum(listings, t.queue, one, n);
    lemma_below_sum(listings, s.pending, one, n);
    assert(t.found.to_multiset().add(below(listings, t.queue, n)).add(
        below(listings, t.pending, n),
    ) =~= s.found.to_multiset().add(below(listings, s.queue, n)).add(
        below(listings, s.pending, n),
    ));
}

proof fn lemma_without_one(listings: Listings, folders: Seq<Folder>, k: int, n: nat)
    requires
        0 <= k < folders.len(),
        is_shallow(listings, folders, n),
    ensures
        is_shallow(listings, folders.remove(k), n),
        is_shallow(listings, seq![folders[k]], n),
        below(listings, folders, n) == below(listings, folders.remove(k), n).add(
            below(listings, seq![folders[k]], n),
        ),
{
    let a = folders.take(k);
    let one = seq![folders[k]];
    let b = folders.skip(k + 1);
    assert(folders =~= (a + one) + b);
    assert(folders.remove(k) =~= a + b);
    lemma_below_sum(listings, a + one, b, n);
    lemma_below_sum(listings, a, one, n);
    lemma_below_sum(listings, a, b, n);
    assert(below(listings, folders, n) =~= below(listings, folders.remove(k), n).add(
        below(listings, one, n),
    ));
}

/// Adding the listing of a folder turns what was to be found there into what was found and
/// what is to be found below.
pub proof fn law_listed_folder_is_tallied(
    s: Exploration,
    listings: Listings,
    roots: Seq<Folder>,
    k: int,
    n: nat,
)
    requires
        comes_to(s, listings, roots, n),
        0 <= k < s.pending.len(),
        listings.dom().contains(s.pending[k].0),
    ensures
        comes_to(s.with_listing(k, listings[s.pending[k].0]), listings, roots, n),
{
    let folder = s.pending[k];
    let t = s.with_listing(k, listings[folder.0]);
    let new = own_entries(listings, folder);
    let kids = own_folders(listings, folder);
    lemma_without_one(listings, s.pending, k, n);
    lemma_below_one(listings, folder, n);
    lemma_below_sum(listings, s.queue, kids, n);
    vstd::seq_lib::lemma_multiset_commutative(s.found, new);
    assert(t.found.to_multiset().add(below(listings, t.queue, n)).add(
        below(listings, t.pending, n),
    ) =~= s.found.to_multiset().add(below(listings, s.queue, n)).add(
        below(listings, s.pending, n),
    ));
}

/// In a folder that cannot be read there was nothing to find.
pub proof fn law_unreadable_folder_is_tallied(
    s: Exploration,
    listings: Listings,
    roots: Seq<Folder>,
    k: int,
    n: nat,
)
    requires
        comes_to(s, listings, roots, n),
        0 <= k < s.pending.len(),
        !listings.dom().contains(s.pending[k].0),
    ensures
        comes_to(s.with_unreadable(k), listings, roots, n),
{
    broadcast use vstd::seq_lib::group_to_multiset_ensures;

    let t = s.with_unreadable(k);
    lemma_without_one(listings, s.pending, k, n);
    lemma_below_one(listings, s.pending[k], n);
    assert(own_entries(listings, s.pending[k]).to_multiset() =~= Multiset::empty()) by {
        assert(own_entries(listings, s.pending[k]).to_multiset().len() == 0);
    }
    assert(t.found.to_multiset().add(below(listings, t.queue, n)).add(
        below(listings, t.pending, n),
    ) =~= s.found.to_multiset().add(below(listings, s.queue, n)).add(
        below(listings, s.pending, n),
    ));
}

/// When no folder is left, the index holds the roots and all that is below them, each entry as
/// often as a root leads to it.
pub proof fn law_finished_index_is_the_total(
    s: Exploration,
    listings: Listings,
    roots: Seq<Folder>,
    n: nat,
)
    requires
        comes_to(s, listings, roots, n),
        s.queue.len() == 0,
        s.pending.len() == 0,
    ensures
        s.found.to_multiset() == total(listings, roots, n),
{
    assert(s.found.to_multiset().add(Multiset::empty()).add(Multiset::empty())
        =~= s.found.to_multiset());
}

/// The index of two lists of roots holds the entries of both indices together, whatever the
/// order in which folders were listed; a root that is given twice has each of its entries
/// twice.
pub proof fn law_indices_add_up(
    both: Exploration,
    first: Exploration,
    second: Exploration,
    listings: Listings,
    a: Seq<Folder>,
    b: Seq<Folder>,
    n: nat,
)
    requires
        comes_to(both, listings, a + b, n),
        comes_to(first, listings, a, n),
        comes_to(second, listings, b, n),
        both.queue.len() == 0 && both.pending.len() == 0,
        first.queue.len() == 0 && first.pending.len() == 0,
        second.queue.len() == 0 && second.pending.len() == 0,
    ensures
        both.found.to_multiset() == first.found.to_multiset().add(second.found.to_multiset()),
{
    law_finished_index_is_the_total(both, listings, a + b, n);
    law_finished_index_is_the_total(first, listings, a, n);
    law_finished_index_is_the_total(second, listings, b, n);
    lemma_below_sum(listings, a, b, n);
    assert(root_entries(a + b) =~= root_entries(a) + root_entries(b));
    vstd::seq_lib::lemma_multiset_commutative(root_entries(a), root_entries(b));
    assert(total(listings, a + b, n) =~= total(listings, a, n).add(total(listings, b, n)));
}

/// Sorting an index changes nothing in how often it holds each entry.
pub proof fn law_sorted_index_has_the_same_tally(out: Seq<FileIndexing>, inp: Seq<FileIndexing>)
    requires
        sort::is_sort_of(out, inp),
    ensures
        index::view_files(out).to_multiset() == index::view_files(inp).to_multiset(),
{
    lemma_same_views(out, inp);
}

proof fn lemma_same_views(out: Seq<FileIndexing>, inp: Seq<FileIndexing>)
    requires
        out.to_multiset() == inp.to_multiset(),
    ensures
        index::view_files(out).to_multiset() == index::view_files(inp).to_multiset(),
    decreases inp.len(),
{
    broadcast use vstd::seq_lib::group_to_multiset_ensures;

    assert(out.len() == out.to_multiset().len());
    assert(inp.len() == inp.to_multiset().len());
    if inp.len() == 0 {
        assert(index::view_files(out) =~= index::view_files(inp));
    } else {
        let x = inp.last();
        let front = inp.drop_last();
        assert(inp =~= front.push(x));
        assert(inp.contains(x));
        assert(out.to_multiset().count(x) > 0);
        let k = choose|k: int| 0 <= k < out.len() && out[k] == x;
        let rest = out.remove(k);
        assert(rest.to_multiset() =~= front.to_multiset());
        lemma_same_views(rest, front);
        assert(index::view_files(inp) =~= index::view_files(front).push(x@));
        assert(index::view_files(rest) =~= index::view_files(out).remove(k));
        assert(index::view_files(out)[k] == x@);
        assert(index::view_files(out).contains(x@));
        assert(index::view_files(out).to_multiset() =~= index::view_files(
            rest,
        ).to_multiset().insert(x@));
    }
}

} // verus!
