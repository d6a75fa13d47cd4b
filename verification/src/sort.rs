//! The order of an index: folders first, then by name.
use crate::index::FileIndexing;
use crate::text;
use vstd::prelude::*;

verus! {

/// Whether `a` comes before `b` in the order of dictionaries, or equals it.
pub open spec fn lex_le(a: Seq<u8>, b: Seq<u8>) -> bool
    decreases a.len(),
{
    if a.len() == 0 {
        true
    } else if b.len() == 0 {
        false
    } else if a[0] != b[0] {
        a[0] < b[0]
    } else {
        lex_le(a.drop_first(), b.drop_first())
    }
}

/// Whether name `a` comes before name `b` or equals it: names are ordered by the bytes of
/// their UTF-8 encoding.
pub open spec fn name_le(a: Seq<char>, b: Seq<char>) -> bool {
    lex_le(vstd::utf8::encode_utf8(a), vstd::utf8::encode_utf8(b))
}

/// Whether `a` may stand before `b` in an index.
pub open spec fn entry_le(a: FileIndexing, b: FileIndexing) -> bool {
    if a.is_dir != b.is_dir {
        a.is_dir
    } else {
        name_le(a.name@, b.name@)
    }
}

/// Whether each entry may stand before all those that follow it.
pub open spec fn is_sorted(s: Seq<FileIndexing>) -> bool {
    forall|i: int, j: int| 0 <= i < j < s.len() ==> entry_le(#[trigger] s[i], #[trigger] s[j])
}

/// The entries that are folders or not, as `is_dir` says, and have the given name.
pub open spec fn with_key(is_dir: bool, name: Seq<char>) -> spec_fn(FileIndexing) -> bool {
    |e: FileIndexing| e.is_dir == is_dir && e.name@ == name
}

/// Whether `out` holds the entries of `inp`, sorted, with those of equal rank left in the
/// order that they had.
pub open spec fn is_sort_of(out: Seq<FileIndexing>, inp: Seq<FileIndexing>) -> bool {
    &&& is_sorted(out)
    &&& out.to_multiset() == inp.to_multiset()
    &&& forall|d: bool, n: Seq<char>|
        out.filter(#[trigger] with_key(d, n)) == inp.filter(with_key(d, n))
}

proof fn lemma_lex_le_refl(a: Seq<u8>)
    ensures
        lex_le(a, a),
    decreases a.len(),
{
    if a.len() > 0 {
        lemma_lex_le_refl(a.drop_first());
    }
}

proof fn lemma_lex_le_total(a: Seq<u8>, b: Seq<u8>)
    ensures
        lex_le(a, b) || lex_le(b, a),
    decreases a.len(),
{
    if a.len() > 0 && b.len() > 0 && a[0] == b[0] {
        lemma_lex_le_total(a.drop_first(), b.drop_first());
    }
}

proof fn lemma_lex_le_trans(a: Seq<u8>, b: Seq<u8>, c: Seq<u8>)
    requires
        lex_le(a, b),
        lex_le(b, c),
    ensures
        lex_le(a, c),
    decreases a.len(),
{
    if a.len() > 0 && b.len() > 0 && c.len() > 0 && a[0] == b[0] && b[0] == c[0] {
        lemma_lex_le_trans(a.drop_first(), b.drop_first(), c.drop_first());
    }
}

proof fn lemma_lex_le_antisym(a: Seq<u8>, b: Seq<u8>)
    requires
        lex_le(a, b),
        lex_le(b, a),
    ensures
        a == b,
    decreases a.len(),
{
    if a.len() > 0 && b.len() > 0 {
        lemma_lex_le_antisym(a.drop_first(), b.drop_first());
        assert(a =~= seq![a[0]] + a.drop_first());
        assert(b =~= seq![b[0]] + b.drop_first());
    } else {
        assert(a =~= b);
    }
}

/// The order of entries is total and transitive, and entries of equal rank agree in kind and
/// name.
pub proof fn law_entry_order(a: FileIndexing, b: FileIndexing, c: FileIndexing)
    ensures
        entry_le(a, a),
        entry_le(a, b) || entry_le(b, a),
        entry_le(a, b) && entry_le(b, c) ==> entry_le(a, c),
        entry_le(a, b) && entry_le(b, a) ==> a.is_dir == b.is_dir && a.name@ == b.name@,
{
    let x = vstd::utf8::encode_utf8(a.name@);
    let y = vstd::utf8::encode_utf8(b.name@);
    let z = vstd::utf8::encode_utf8(c.name@);
    lemma_lex_le_refl(x);
    lemma_lex_le_total(x, y);
    if lex_le(x, y) && lex_le(y, z) {
        lemma_lex_le_trans(x, y, z);
    }
    if lex_le(x, y) && lex_le(y, x) {
        lemma_lex_le_antisym(x, y);
        text::lemma_encoding_is_injective(a.name@, b.name@);
    }
}

/// Whether `a` comes before `b` in the order of dictionaries, or equals it.
fn bytes_le(a: &[u8], b: &[u8]) -> (r: bool)
    ensures
        r == lex_le(a@, b@),
{
    let mut i: usize = 0;
    proof {
        assert(a@.skip(0) =~= a@);
        assert(b@.skip(0) =~= b@);
    }
    while i < a.len() && i < b.len() && a[i] == b[i]
        invariant
            i <= a@.len(),
            i <= b@.len(),
            lex_le(a@, b@) == lex_le(a@.skip(i as int), b@.skip(i as int)),
        decreases a@.len() - i,
    {
        proof {
            assert(a@.skip(i as int).drop_first() =~= a@.skip(i + 1));
            assert(b@.skip(i as int).drop_first() =~= b@.skip(i + 1));
        }
        i += 1;
    }
    if i == a.len() {
        true
    } else if i == b.len() {
        false
    } else {
        a[i] < b[i]
    }
}

/// Whether `a` may stand before `b` in an index.
pub fn may_precede(a: &FileIndexing, b: &FileIndexing) -> (r: bool)
    ensures
        r == entry_le(*a, *b),
{
    if a.is_dir != b.is_dir {
        a.is_dir
    } else {
        bytes_le(a.name.as_str().as_bytes(), b.name.as_str().as_bytes())
    }
}

/// Whether every entry of `s` may stand before every entry of `t`.
spec fn all_before(s: Seq<FileIndexing>, t: Seq<FileIndexing>) -> bool {
    forall|i: int, j: int|
        0 <= i < s.len() && 0 <= j < t.len() ==> entry_le(#[trigger] s[i], #[trigger] t[j])
}

/// What a merge keeps: the entries taken off the two ends stand sorted behind all that is
/// left, and those of equal rank keep their order.
spec fn merging(
    a0: Seq<FileIndexing>,
    b0: Seq<FileIndexing>,
    a: Seq<FileIndexing>,
    b: Seq<FileIndexing>,
    done: Seq<FileIndexing>,
) -> bool {
    &&& is_sorted(a)
    &&& is_sorted(b)
    &&& is_sorted(done)
    &&& all_before(a, done)
    &&& all_before(b, done)
    &&& (a + b + done).to_multiset() == (a0 + b0).to_multiset()
    &&& forall|d: bool, n: Seq<char>|
        a.filter(#[trigger] with_key(d, n)) + b.filter(with_key(d, n)) + done.filter(
            with_key(d, n),
        ) == a0.filter(with_key(d, n)) + b0.filter(with_key(d, n))
}

proof fn lemma_multiset_swap(a: Seq<FileIndexing>, b: Seq<FileIndexing>, x: FileIndexing, c: Seq<FileIndexing>)
    ensures
        (a + b + (seq![x] + c)).to_multiset() == (a.push(x) + b + c).to_multiset(),
        (a + b + (seq![x] + c)).to_multiset() == (a + b.push(x) + c).to_multiset(),
{
    broadcast use vstd::seq_lib::group_to_multiset_ensures;

    vstd::seq_lib::lemma_multiset_commutative(a + b, seq![x] + c);
    vstd::seq_lib::lemma_multiset_commutative(a, b);
    vstd::seq_lib::lemma_multiset_commutative(seq![x], c);
    vstd::seq_lib::lemma_multiset_commutative(a.push(x) + b, c);
    vstd::seq_lib::lemma_multiset_commutative(a.push(x), b);
    vstd::seq_lib::lemma_multiset_commutative(a + b.push(x), c);
    vstd::seq_lib::lemma_multiset_commutative(a, b.push(x));
    assert(seq![x] =~= Seq::<FileIndexing>::empty().push(x));
    assert((a + b + (seq![x] + c)).to_multiset() =~= (a.push(x) + b + c).to_multiset());
    assert((a + b + (seq![x] + c)).to_multiset() =~= (a + b.push(x) + c).to_multiset());
}

proof fn lemma_filter_last(s: Seq<FileIndexing>, p: spec_fn(FileIndexing) -> bool)
    requires
        s.len() > 0,
    ensures
        s.filter(p) == s.drop_last().filter(p) + seq![s.last()].filter(p),
{
    assert(s =~= s.drop_last() + seq![s.last()]);
    Seq::filter_distributes_over_add(s.drop_last(), seq![s.last()], p);
}

proof fn lemma_take_from_second(
    a0: Seq<FileIndexing>,
    b0: Seq<FileIndexing>,
    a: Seq<FileIndexing>,
    b: Seq<FileIndexing>,
    done: Seq<FileIndexing>,
)
    requires
        merging(a0, b0, a, b, done),
        b.len() > 0,
        a.len() > 0 ==> entry_le(a.last(), b.last()),
    ensures
        merging(a0, b0, a, b.drop_last(), seq![b.last()] + done),
{
    let x = b.last();
    let rest = b.drop_last();
    let next = seq![x] + done;
    assert(rest.push(x) =~= b);
    lemma_multiset_swap(a, rest, x, done);
    assert forall|i: int, j: int| 0 <= i < a.len() && 0 <= j < next.len() implies entry_le(
        #[trigger] a[i],
        #[trigger] next[j],
    ) by {
        if j == 0 {
            law_entry_order(a[i], a.last(), x);
            law_entry_order(a[i], a[i], a[i]);
        } else {
            assert(next[j] == done[j - 1]);
        }
    }
    assert forall|i: int, j: int| 0 <= i < rest.len() && 0 <= j < next.len() implies entry_le(
        #[trigger] rest[i],
        #[trigger] next[j],
    ) by {
        assert(rest[i] == b[i]);
        if j > 0 {
            assert(next[j] == done[j - 1]);
        }
    }
    assert forall|i: int, j: int| 0 <= i < j < next.len() implies entry_le(
        #[trigger] next[i],
        #[trigger] next[j],
    ) by {
        assert(next[j] == done[j - 1]);
        if i > 0 {
            assert(next[i] == done[i - 1]);
        } else {
            assert(next[i] == b[b.len() - 1]);
        }
    }
    assert forall|i: int, j: int| 0 <= i < j < rest.len() implies entry_le(
        #[trigger] rest[i],
        #[trigger] rest[j],
    ) by {
        assert(rest[i] == b[i] && rest[j] == b[j]);
    }
    assert forall|d: bool, n: Seq<char>|
        a.filter(#[trigger] with_key(d, n)) + rest.filter(with_key(d, n)) + next.filter(
            with_key(d, n),
        ) == a0.filter(with_key(d, n)) + b0.filter(with_key(d, n)) by {
        let p = with_key(d, n);
        lemma_filter_last(b, p);
        Seq::filter_distributes_over_add(seq![x], done, p);
        assert(a.filter(p) + rest.filter(p) + next.filter(p) =~= a.filter(p) + b.filter(p)
            + done.filter(p));
    }
}

proof fn lemma_take_from_first(
    a0: Seq<FileIndexing>,
    b0: Seq<FileIndexing>,
    a: Seq<FileIndexing>,
    b: Seq<FileIndexing>,
    done: Seq<FileIndexing>,
)
    requires
        merging(a0, b0, a, b, done),
        a.len() > 0,
        b.len() > 0 ==> !entry_le(a.last(), b.last()),
    ensures
        merging(a0, b0, a.drop_last(), b, seq![a.last()] + done),
{
    let x = a.last();
    let rest = a.drop_last();
    let next = seq![x] + done;
    assert(rest.push(x) =~= a);
    lemma_multiset_swap(rest, b, x, done);
    assert forall|i: int| 0 <= i < b.len() implies entry_le(#[trigger] b[i], x) && !entry_le(
        x,
        b[i],
    ) by {
        law_entry_order(x, b.last(), x);
        law_entry_order(b[i], b.last(), x);
        law_entry_order(x, b[i], b.last());
        law_entry_order(b[i], b[i], x);
    }
    assert forall|i: int, j: int| 0 <= i < b.len() && 0 <= j < next.len() implies entry_le(
        #[trigger] b[i],
        #[trigger] next[j],
    ) by {
        if j > 0 {
            assert(next[j] == done[j - 1]);
        }
    }
    assert forall|i: int, j: int| 0 <= i < rest.len() && 0 <= j < next.len() implies entry_le(
        #[trigger] rest[i],
        #[trigger] next[j],
    ) by {
        assert(rest[i] == a[i]);
        if j > 0 {
            assert(next[j] == done[j - 1]);
        }
    }
    assert forall|i: int, j: int| 0 <= i < j < next.len() implies entry_le(
        #[trigger] next[i],
        #[trigger] next[j],
    ) by {
        assert(next[j] == done[j - 1]);
        if i > 0 {
            assert(next[i] == done[i - 1]);
        } else {
            assert(next[i] == a[a.len() - 1]);
        }
    }
    assert forall|i: int, j: int| 0 <= i < j < rest.len() implies entry_le(
        #[trigger] rest[i],
        #[trigger] rest[j],
    ) by {
        assert(rest[i] == a[i] && rest[j] == a[j]);
    }
    assert forall|d: bool, n: Seq<char>|
        rest.filter(#[trigger] with_key(d, n)) + b.filter(with_key(d, n)) + next.filter(
            with_key(d, n),
        ) == a0.filter(with_key(d, n)) + b0.filter(with_key(d, n)) by {
        let p = with_key(d, n);
        lemma_filter_last(a, p);
        Seq::filter_distributes_over_add(seq![x], done, p);
        if p(x) {
            assert forall|i: int| 0 <= i < b.len() implies !p(#[trigger] b[i]) by {
                if p(b[i]) {
                    law_entry_order(x, x, x);
                    assert(entry_le(x, b[i]));
                }
            }
            b.lemma_all_neg_filter_empty(p);
        } else {
            assert forall|i: int| 0 <= i < seq![x].len() implies !p(#[trigger] seq![x][i]) by {}
            seq![x].lemma_all_neg_filter_empty(p);
        }
        assert(rest.filter(p) + b.filter(p) + next.filter(p) =~= a.filter(p) + b.filter(p)
            + done.filter(p));
    }
}

/// Merges two sorted lists into one; of entries of equal rank those of `a` come first.
fn merge(a: Vec<FileIndexing>, b: Vec<FileIndexing>) -> (r: Vec<FileIndexing>)
    requires
        is_sorted(a@),
        is_sorted(b@),
    ensures
        is_sort_of(r@, a@ + b@),
{
    let ghost a0 = a@;
    let ghost b0 = b@;
    let mut a = a;
    let mut b = b;
    let mut back: Vec<FileIndexing> = Vec::new();
    let ghost mut done: Seq<FileIndexing> = Seq::empty();
    proof {
        assert(a0 + b0 + done =~= a0 + b0);
        assert forall|d: bool, n: Seq<char>|
            a0.filter(#[trigger] with_key(d, n)) + b0.filter(with_key(d, n)) + done.filter(
                with_key(d, n),
            ) == a0.filter(with_key(d, n)) + b0.filter(with_key(d, n)) by {
            reveal(Seq::filter);
            assert(done.filter(with_key(d, n)) =~= Seq::<FileIndexing>::empty());
            assert(a0.filter(with_key(d, n)) + b0.filter(with_key(d, n)) + done.filter(
                with_key(d, n),
            ) =~= a0.filter(with_key(d, n)) + b0.filter(with_key(d, n)));
        }
    }
    while a.len() > 0 || b.len() > 0
        invariant
            merging(a0, b0, a@, b@, done),
            back@.reverse() == done,
        decreases a@.len() + b@.len(),
    {
        let second: bool = if a.len() == 0 {
            true
        } else if b.len() == 0 {
            false
        } else {
            may_precede(&a[a.len() - 1], &b[b.len() - 1])
        };
        let ghost old_back = back@;
        if second {
            proof {
                lemma_take_from_second(a0, b0, a@, b@, done);
                done = seq![b@.last()] + done;
            }
            if let Some(x) = b.pop() {
                back.push(x);
            }
        } else {
            proof {
                lemma_take_from_first(a0, b0, a@, b@, done);
                done = seq![a@.last()] + done;
            }
            if let Some(x) = a.pop() {
                back.push(x);
            }
        }
        assert(back@.reverse() =~= seq![back@.last()] + old_back.reverse());
    }
    let mut r: Vec<FileIndexing> = Vec::new();
    let ghost whole = back@;
    while back.len() > 0
        invariant
            back@ == whole.take(back@.len() as int),
            back@.len() <= whole.len(),
            r@ == whole.skip(back@.len() as int).reverse(),
        decreases back@.len(),
    {
        let ghost n = back@.len() as int;
        if let Some(x) = back.pop() {
            r.push(x);
        }
        proof {
            assert(back@ =~= whole.take(n - 1));
            assert(r@ =~= whole.skip(n - 1).reverse());
        }
    }
    proof {
        assert(whole.skip(0) =~= whole);
        assert(r@ == done);
        assert(a@ =~= Seq::<FileIndexing>::empty());
        assert(b@ =~= Seq::<FileIndexing>::empty());
        assert(a@ + b@ + done =~= done);
        assert forall|d: bool, n: Seq<char>|
            r@.filter(#[trigger] with_key(d, n)) == (a0 + b0).filter(with_key(d, n)) by {
            let p = with_key(d, n);
            Seq::filter_distributes_over_add(a0, b0, p);
            reveal(Seq::filter);
            assert(a@.filter(p) + b@.filter(p) + done.filter(p) =~= done.filter(p));
        }
    }
    r
}

/// Sorts entries: folders first, then by name, leaving entries of equal rank in their order.
pub fn sort_entries(entries: Vec<FileIndexing>) -> (r: Vec<FileIndexing>)
    ensures
        is_sort_of(r@, entries@),
    decreases entries@.len(),
{
    let mut left = entries;
    if left.len() < 2 {
        return left;
    }
    let ghost whole = left@;
    let mid: usize = left.len() / 2;
    let right = left.split_off(mid);
    let ghost l0 = left@;
    let ghost r0 = right@;
    assert(whole =~= l0 + r0);
    let l = sort_entries(left);
    let r = sort_entries(right);
    let ghost l1 = l@;
    let ghost r1 = r@;
    let out = merge(l, r);
    proof {
        vstd::seq_lib::lemma_multiset_commutative(l0, r0);
        vstd::seq_lib::lemma_multiset_commutative(l1, r1);
        assert forall|d: bool, n: Seq<char>|
            out@.filter(#[trigger] with_key(d, n)) == whole.filter(with_key(d, n)) by {
            let p = with_key(d, n);
            Seq::filter_distributes_over_add(l0, r0, p);
            Seq::filter_distributes_over_add(l1, r1, p);
        }
    }
    out
}

/// Folders stand before all else; of two folders, or of two that are none, the one whose name
/// comes first in the order of its bytes stands first.
pub proof fn law_folders_first_then_names(a: FileIndexing, b: FileIndexing)
    ensures
        a.is_dir && !b.is_dir ==> entry_le(a, b) && !entry_le(b, a),
        a.is_dir == b.is_dir ==> (entry_le(a, b) <==> name_le(a.name@, b.name@)),
{
}

/// Names are ordered by the first byte in which they differ; a name stands before every longer one
/// that starts with it.
pub proof fn law_names_are_ordered_by_bytes(a: Seq<char>, b: Seq<char>, k: int)
    requires
        0 <= k <= vstd::utf8::encode_utf8(a).len(),
        k <= vstd::utf8::encode_utf8(b).len(),
        forall|i: int|
            0 <= i < k ==> #[trigger] vstd::utf8::encode_utf8(a)[i] == vstd::utf8::encode_utf8(
                b,
            )[i],
    ensures
        k == vstd::utf8::encode_utf8(a).len() ==> name_le(a, b),
        k < vstd::utf8::encode_utf8(a).len() && k < vstd::utf8::encode_utf8(b).len()
            && vstd::utf8::encode_utf8(a)[k] < vstd::utf8::encode_utf8(b)[k] ==> name_le(a, b)
            && !name_le(b, a),
        k == vstd::utf8::encode_utf8(b).len() && k < vstd::utf8::encode_utf8(a).len()
            ==> !name_le(a, b),
{
    lemma_lex_at(vstd::utf8::encode_utf8(a), vstd::utf8::encode_utf8(b), k);
}

proof fn lemma_lex_at(x: Seq<u8>, y: Seq<u8>, k: int)
    requires
        0 <= k <= x.len(),
        k <= y.len(),
        forall|i: int| 0 <= i < k ==> #[trigger] x[i] == y[i],
    ensures
        k == x.len() ==> lex_le(x, y),
        k < x.len() && k < y.len() && x[k] < y[k] ==> lex_le(x, y) && !lex_le(y, x),
        k == y.len() && k < x.len() ==> !lex_le(x, y),
    decreases k,
{
    if k > 0 {
        let u = x.drop_first();
        let v = y.drop_first();
        assert forall|i: int| 0 <= i < k - 1 implies #[trigger] u[i] == v[i] by {
            assert(x[i + 1] == y[i + 1]);
        }
        assert(x[0] == y[0]);
        lemma_lex_at(u, v, k - 1);
    }
}

/// A sorted list holds each entry as often as the list that was sorted, each stands before those
/// that it may stand before, and entries of one kind and name keep their order.
pub proof fn law_sorting(out: Seq<FileIndexing>, inp: Seq<FileIndexing>, i: int, j: int)
    requires
        is_sort_of(out, inp),
        0 <= i < j < out.len(),
    ensures
        out.to_multiset() == inp.to_multiset(),
        out[j].is_dir ==> out[i].is_dir,
        out[i].is_dir == out[j].is_dir ==> name_le(out[i].name@, out[j].name@),
        forall|d: bool, n: Seq<char>|
            out.filter(#[trigger] with_key(d, n)) == inp.filter(with_key(d, n)),
{
    assert(entry_le(out[i], out[j]));
}

/// Entries of one kind and name are those that have just that kind and that name.
pub proof fn law_rank(e: FileIndexing, d: bool, n: Seq<char>)
    ensures
        with_key(d, n)(e) <==> e.is_dir == d && e.name@ == n,
{
}

} // verus!
