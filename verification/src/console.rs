//! What is typed at a console.
use crate::text;
use vstd::prelude::*;

verus! {

/// A line without the white space around it.
pub fn answer(line: &str) -> (r: String)
    ensures
        r@ == text::trimmed(line@),
{
    text::trim(line)
}

/// Whether an answer asks to stop.
pub fn wants_to_quit(answer: &str) -> (r: bool)
    ensures
        r == (answer@ == "q"@ || answer@ == "Q"@),
{
    text::text_eq(answer, "q") || text::text_eq(answer, "Q")
}

/// Whether an answer agrees.
pub fn agrees(answer: &str) -> (r: bool)
    ensures
        r == (answer@ == "y"@ || answer@ == "Y"@),
{
    text::text_eq(answer, "y") || text::text_eq(answer, "Y")
}

/// The number of a device that an answer gives.
pub fn device_number(answer: &str) -> (r: Option<u8>)
    ensures
        match text::parsed_up_to(text::trimmed(answer@), 255) {
            Some(n) => r is Some && r->0 == n,
            None => r is None,
        },
{
    let trimmed = text::trim(answer);
    match text::parse_decimal(trimmed.as_str(), 255) {
        Some(n) => Some(n as u8),
        None => None,
    }
}

/// The numbers in a list of pieces; what is no number is left out.
pub open spec fn numbers(pieces: Seq<Seq<char>>) -> Seq<nat>
    decreases pieces.len(),
{
    if pieces.len() == 0 {
        Seq::empty()
    } else {
        match text::parsed_up_to(text::trimmed(pieces.last()), usize::MAX as nat) {
            Some(n) => numbers(pieces.drop_last()).push(n),
            None => numbers(pieces.drop_last()),
        }
    }
}

/// The numbers of files that an answer gives, split by commas.
pub fn file_numbers(answer: &str) -> (r: Vec<usize>)
    ensures
        r@.map_values(|n: usize| n as nat) == numbers(text::pieces(answer@, ',')),
{
    let parts = text::split(answer, ',');
    let ghost all = text::pieces(answer@, ',');
    let mut r: Vec<usize> = Vec::new();
    let mut i: usize = 0;
    proof {
        assert(all.take(0) =~= Seq::<Seq<char>>::empty());
        assert(r@.map_values(|n: usize| n as nat) =~= numbers(all.take(0)));
    }
    while i < parts.len()
        invariant
            i <= parts@.len(),
            all == parts@.map_values(|p: String| p@),
            r@.map_values(|n: usize| n as nat) == numbers(all.take(i as int)),
        decreases parts@.len() - i,
    {
        let piece = text::trim(parts[i].as_str());
        let ghost before = r@;
        proof {
            assert(all.take(i + 1).drop_last() =~= all.take(i as int));
            assert(all.take(i + 1).last() == parts@[i as int]@);
        }
        match text::parse_decimal(piece.as_str(), usize::MAX as u64) {
            Some(n) => {
                r.push(n as usize);
                assert(r@.map_values(|n: usize| n as nat) =~= before.map_values(
                    |n: usize| n as nat,
                ).push(n as nat));
            },
            None => {},
        }
        i += 1;
    }
    assert(all.take(i as int) =~= all);
    r
}

/// Pieces are read one by one, in order.
pub proof fn law_pieces_are_read_one_by_one(a: Seq<Seq<char>>, b: Seq<Seq<char>>)
    ensures
        numbers(a + b) == numbers(a) + numbers(b),
        numbers(Seq::empty()).len() == 0,
    decreases b.len(),
{
    if b.len() == 0 {
        assert(a + b =~= a);
        assert(numbers(a) + numbers(b) =~= numbers(a));
    } else {
        assert((a + b).drop_last() =~= a + b.drop_last());
        assert((a + b).last() == b.last());
        law_pieces_are_read_one_by_one(a, b.drop_last());
        assert(numbers(a + b) =~= numbers(a) + numbers(b));
    }
}

/// A piece that is the numeral of a number, with white space around it or not, gives that number;
/// a piece that is no numeral gives nothing.
pub proof fn law_one_piece(piece: Seq<char>, n: usize)
    ensures
        text::trimmed(piece) == text::decimal(n as nat) ==> numbers(seq![piece]) == seq![n as nat],
        text::parsed_up_to(text::trimmed(piece), usize::MAX as nat) is None ==> numbers(
            seq![piece],
        ).len() == 0,
        text::parsed_up_to(text::trimmed(piece), usize::MAX as nat) is Some ==> numbers(
            seq![piece],
        ) == seq![text::parsed_up_to(text::trimmed(piece), usize::MAX as nat)->0],
{
    assert(seq![piece].drop_last() =~= Seq::<Seq<char>>::empty());
    assert(numbers(Seq::empty()) =~= Seq::<nat>::empty());
    text::law_decimal_reads_back(n as nat);
    assert(text::parsed_up_to(text::trimmed(piece), usize::MAX as nat) is Some ==> numbers(
        seq![piece],
    ) =~= seq![text::parsed_up_to(text::trimmed(piece), usize::MAX as nat)->0]);
}

/// Numerals that are typed with commas between them are read as their numbers, in order.
pub proof fn law_typed_numbers_are_read(typed: Seq<usize>, answer: &str, r: Vec<usize>)
    requires
        typed.len() > 0,
        text::pieces(answer@, ',') == typed.map_values(|n: usize| text::decimal(n as nat)),
        call_ensures(file_numbers, (answer,), r),
    ensures
        r@ == typed,
{
    let all = typed.map_values(|n: usize| text::decimal(n as nat));
    lemma_numerals(typed);
    let read = r@.map_values(|n: usize| n as nat);
    let wanted = typed.map_values(|n: usize| n as nat);
    assert(read == wanted);
    assert(r@.len() == read.len());
    assert forall|i: int| 0 <= i < typed.len() implies r@[i] == typed[i] by {
        assert(read[i] == wanted[i]);
    }
    assert(r@ =~= typed);
}

proof fn lemma_numerals(typed: Seq<usize>)
    ensures
        numbers(typed.map_values(|n: usize| text::decimal(n as nat))) == typed.map_values(
            |n: usize| n as nat,
        ),
    decreases typed.len(),
{
    let all = typed.map_values(|n: usize| text::decimal(n as nat));
    if typed.len() == 0 {
        assert(numbers(all) =~= typed.map_values(|n: usize| n as nat));
    } else {
        let front = typed.drop_last();
        let last = typed.last();
        lemma_numerals(front);
        assert(all.drop_last() =~= front.map_values(|n: usize| text::decimal(n as nat)));
        assert(all.last() == text::decimal(last as nat));
        lemma_numeral_is_trim(last as nat);
        text::law_decimal_reads_back(last as nat);
        assert(numbers(all) =~= typed.map_values(|n: usize| n as nat));
    }
}

proof fn lemma_numeral_is_trim(n: nat)
    ensures
        text::trimmed(text::decimal(n)) == text::decimal(n),
{
    let none = Seq::<char>::empty();
    let t = text::decimal(n);
    text::law_decimal_is_short(n);
    assert('0' <= t[0] <= '9');
    assert('0' <= t[t.len() - 1] <= '9');
    assert(!text::is_white(t[0]));
    assert(!text::is_white(t.last()));
}

/// The number of a device is read from its numeral, with white space around it or not; a numeral
/// of a number above 255 is no number of a device.
pub proof fn law_device_number_is_read(n: nat, answer: &str, r: Option<u8>)
    requires
        text::trimmed(answer@) == text::decimal(n),
        call_ensures(device_number, (answer,), r),
    ensures
        n <= 255 ==> r is Some && r->0 == n,
        n > 255 ==> r is None,
{
    text::law_decimal_reads_back(n);
}

/// One can stop with `q` or `Q`, and agree with `y` or `Y`; no answer does both.
pub proof fn law_answers_are_told_apart(answer: &str, quit: bool, agreed: bool)
    requires
        call_ensures(wants_to_quit, (answer,), quit),
        call_ensures(agrees, (answer,), agreed),
    ensures
        quit ==> answer@ == seq!['q'] || answer@ == seq!['Q'],
        answer@ == seq!['q'] || answer@ == seq!['Q'] ==> quit,
        agreed ==> answer@ == seq!['y'] || answer@ == seq!['Y'],
        answer@ == seq!['y'] || answer@ == seq!['Y'] ==> agreed,
        !(quit && agreed),
{
    reveal_strlit("q");
    reveal_strlit("Q");
    reveal_strlit("y");
    reveal_strlit("Y");
    assert("q"@ =~= seq!['q']);
    assert("Q"@ =~= seq!['Q']);
    assert("y"@ =~= seq!['y']);
    assert("Y"@ =~= seq!['Y']);
    assert(seq!['q'][0] != seq!['y'][0]);
    assert(seq!['q'][0] != seq!['Y'][0]);
    assert(seq!['Q'][0] != seq!['y'][0]);
    assert(seq!['Q'][0] != seq!['Y'][0]);
}

/// An answer is the line without white space around it, and nothing else is cut off.
pub proof fn law_answer_is_the_line(line: &str, r: String)
    requires
        call_ensures(answer, (line,), r),
    ensures
        exists|a: int, b: int| #[trigger] text::is_cut(line@, r@, a, b),
{
    text::law_trimming_cuts_white_space_only(line@);
}

} // verus!
