//! File paths, held as text.
use crate::calls;
use crate::text;
use vstd::prelude::*;

verus! {

/// Whether `c` separates the components of a path on Windows.
pub open spec fn is_separator(c: char) -> bool {
    c == '/' || c == '\\'
}

/// Whether `p` starts with a drive, a letter and a colon.
pub open spec fn has_drive(p: Seq<char>) -> bool {
    &&& p.len() >= 2
    &&& ('a' <= p[0] <= 'z' || 'A' <= p[0] <= 'Z')
    &&& p[1] == ':'
}

/// Whether `p` starts with two separators, as the path of a share does on Windows.
pub open spec fn has_double_start(p: Seq<char>) -> bool {
    p.len() >= 2 && is_separator(p[0]) && is_separator(p[1])
}

/// Whether `p` starts like the path of a device on Windows, or like a verbatim path.
pub open spec fn is_device(p: Seq<char>) -> bool {
    has_double_start(p) && p.len() >= 3 && (p[2] == '?' || p[2] == '.')
}

/// Whether `p` has the verbatim prefix, behind which Windows reads slashes literally.
pub open spec fn is_verbatim(p: Seq<char>) -> bool {
    p.len() >= 4 && p[0] == '\\' && p[1] == '\\' && p[2] == '?' && p[3] == '\\'
}

/// Whether every platform reads `p` alike: no backslash, no drive, no leading pair of slashes.
pub open spec fn is_portable(p: Seq<char>) -> bool {
    &&& !p.contains('\\')
    &&& !has_drive(p)
    &&& !(p.len() >= 2 && p[0] == '/' && p[1] == '/')
}

/// What follows the last slash of `p`.
pub open spec fn last_part(p: Seq<char>) -> Seq<char>
    decreases p.len(),
{
    if p.len() == 0 || p.last() == '/' {
        Seq::empty()
    } else {
        last_part(p.drop_last()).push(p.last())
    }
}

/// The last component of `p`, if that is a name: trailing slashes and dots do not count, and
/// a path that ends in two dots has no name.
pub open spec fn final_name(p: Seq<char>) -> Option<Seq<char>>
    decreases p.len(),
{
    let tail = last_part(p);
    if tail == ""@ || tail == "."@ {
        if p.len() <= tail.len() {
            None
        } else {
            final_name(p.take(p.len() - tail.len() - 1))
        }
    } else if tail == ".."@ {
        None
    } else {
        Some(tail)
    }
}

/// Whether `part` stands somewhere in `whole`.
pub open spec fn is_part(part: Seq<char>, whole: Seq<char>) -> bool {
    exists|i: int|
        0 <= i && i + part.len() <= whole.len() && #[trigger] whole.subrange(i, i + part.len())
            == part
}

/// `p` as Windows reads it: without its drive, and with slashes for backslashes.
pub open spec fn windows_reading(p: Seq<char>) -> Seq<char> {
    let q = if has_drive(p) {
        p.skip(2)
    } else {
        p
    };
    q.map_values(
        |c: char|
            if c == '\\' {
                '/'
            } else {
                c
            },
    )
}

/// `p` with slashes for backslashes and backslashes for slashes.
pub open spec fn swapped(p: Seq<char>) -> Seq<char> {
    p.map_values(
        |c: char|
            if c == '\\' {
                '/'
            } else if c == '/' {
                '\\'
            } else {
                c
            },
    )
}

/// `p` from its first slash on.
pub open spec fn from_slash(p: Seq<char>) -> Seq<char>
    decreases p.len(),
{
    if p.len() == 0 || p[0] == '/' {
        p
    } else {
        from_slash(p.drop_first())
    }
}

/// What follows the server and the share in `p`, which starts with two slashes.
pub open spec fn below_share(p: Seq<char>) -> Seq<char> {
    let rest = from_slash(p.skip(2));
    if rest.len() == 0 {
        rest
    } else {
        from_slash(rest.skip(1))
    }
}

/// Whether `r` is the last component of `path` as Unix or as Windows reads it. The server and
/// the share that a path starts with on Windows are no names.
pub open spec fn is_last_name(path: Seq<char>, r: Option<Seq<char>>) -> bool {
    ||| r == final_name(path)
    ||| r == final_name(windows_reading(path))
    ||| has_double_start(path) && r == final_name(below_share(windows_reading(path)))
}

/// What is known of `r`, the file name in `path`, on Unix and on Windows: it is the last
/// component, as one of the two reads the path. Of paths that start like that of a device only
/// a name is described, not whether there is one; behind a verbatim prefix Windows takes only
/// backslashes for separators.
pub open spec fn is_file_name(path: Seq<char>, r: Option<Seq<char>>) -> bool {
    &&& is_portable(path) ==> r == final_name(path)
    &&& !is_device(path) ==> is_last_name(path, r)
    &&& r matches Some(n) ==> {
        &&& n != ""@
        &&& n != "."@
        &&& n != ".."@
        &&& is_part(n, path)
        &&& final_name(path) == Some(n) || if is_verbatim(path) {
            final_name(swapped(path)) == Some(swapped(n))
        } else {
            final_name(windows_reading(path)) == Some(n)
        }
    }
}

/// The last component of a path, if that is a name.
///
/// Calls `Path::file_name`. Which characters separate the components of a path, and which
/// prefix is no component, depends on the platform: `is_file_name` says what Unix and Windows
/// make of it.
#[verifier::external_body]
pub(crate) fn path_file_name(path: &str) -> (r: Option<String>)
    ensures
        match r {
            Some(n) => is_file_name(path@, Some(n@)),
            None => is_file_name(path@, None),
        },
{
    std::path::Path::new(path).file_name().map(|n| n.to_string_lossy().into_owned())
}

/// Whether the file name in `path` was asked for, and `r` came of it.
pub closed spec fn is_found_name(path: Seq<char>, r: Option<Seq<char>>) -> bool {
    exists|p: &str, n: Option<String>|
        p@ == path && text::view_text(n) == r && #[trigger] call_ensures(path_file_name, (p,), n)
}

/// A name counts as found only where it came of asking for the file name in this very path.
pub(crate) proof fn law_names_come_from_the_platform(path: Seq<char>, r: Option<Seq<char>>)
    requires
        is_found_name(path, r),
    ensures
        exists|p: &str, n: Option<String>|
            p@ == path && text::view_text(n) == r && #[trigger] call_ensures(
                path_file_name,
                (p,),
                n,
            ),
{
}

/// Whether `r` is the file name in `path`, as the platform that this runs on reads the path.
pub open spec fn names_file(path: Seq<char>, r: Option<Seq<char>>) -> bool {
    is_file_name(path, r) && is_found_name(path, r)
}

/// The last component of a path, if that is a name.
pub(crate) fn file_name(path: &str) -> (r: Option<String>)
    ensures
        names_file(path@, text::view_text(r)),
{
    let r = calls::call1(path_file_name, path);
    assert(is_found_name(path@, text::view_text(r)));
    r
}

/// Whether `n` is a single component on every platform.
pub open spec fn is_plain_name(n: Seq<char>) -> bool {
    &&& n.len() > 0
    &&& !n.contains('/')
    &&& !n.contains('\\')
    &&& !has_drive(n)
}

/// Whether every platform reads `n` as relative: it starts with no separator and no drive.
pub open spec fn is_relative_name(n: Seq<char>) -> bool {
    &&& !(n.len() > 0 && is_separator(n[0]))
    &&& !has_drive(n)
}

/// Whether `r` is `name` below `base`: behind a separator, unless `base` is empty or ends in
/// one. Windows puts none behind a bare drive, and Unix takes a backslash for none.
pub open spec fn is_below(base: Seq<char>, name: Seq<char>, r: Seq<char>) -> bool {
    if base.len() == 0 || base.last() == '/' {
        r == base + name
    } else if base.last() == '\\' || (has_drive(base) && base.len() == 2) {
        r == base + name || r == base.push('/') + name
    } else {
        r == base.push('/') + name || r == base.push('\\') + name
    }
}

/// Whether `r` is `name` in place of `base`; on Windows the drive or the share of `base` stays
/// where `name` starts with a separator.
pub open spec fn is_instead(base: Seq<char>, name: Seq<char>, r: Seq<char>) -> bool {
    ||| r == name
    ||| has_drive(base) && r == base.take(2) + name
    ||| has_double_start(base) && text::has_suffix(r, name)
}

/// What is known of `r`, the path that `base` and `name` are joined to, on Unix and on Windows:
/// a relative name is put below `base`, and one that starts with a slash replaces it. A name
/// that starts with a backslash or a drive is relative on Unix and not on Windows. Windows
/// normalises what is joined to a verbatim path: then only the last component is described.
pub open spec fn is_join(base: Seq<char>, name: Seq<char>, r: Seq<char>) -> bool {
    if is_verbatim(base) {
        is_plain_name(name) && name != "."@ && name != ".."@ ==> text::has_suffix(
            r,
            seq!['/'] + name,
        ) || text::has_suffix(r, seq!['\\'] + name)
    } else if is_relative_name(name) {
        is_below(base, name, r)
    } else {
        ||| is_instead(base, name, r)
        ||| name[0] != '/' && is_below(base, name, r)
    }
}

/// `base` and `name` joined to one path.
///
/// Calls `Path::join`. An absolute name replaces the base; any other is appended, behind the
/// platform's separator where one is needed. `is_join` says what Unix and Windows make of it.
#[verifier::external_body]
pub(crate) fn join(base: &str, name: &str) -> (r: String)
    ensures
        is_join(base@, name@, r@),
{
    std::path::Path::new(base).join(name).to_string_lossy().into_owned()
}

/// Whether `base` and `name` were joined, and `r` came of it.
pub closed spec fn is_made_path(base: Seq<char>, name: Seq<char>, r: Seq<char>) -> bool {
    exists|b: &str, n: &str, s: String|
        b@ == base && n@ == name && s@ == r && #[trigger] call_ensures(join, (b, n), s)
}

/// A path counts as made only where it came of joining this very base and name.
pub(crate) proof fn law_paths_come_from_the_platform(base: Seq<char>, name: Seq<char>, r: Seq<char>)
    requires
        is_made_path(base, name, r),
    ensures
        exists|b: &str, n: &str, s: String|
            b@ == base && n@ == name && s@ == r && #[trigger] call_ensures(join, (b, n), s),
{
}

/// Whether `r` is the path that the platform that this runs on joins `base` and `name` to.
pub open spec fn joins_to(base: Seq<char>, name: Seq<char>, r: Seq<char>) -> bool {
    is_join(base, name, r) && is_made_path(base, name, r)
}

/// `base` and `name` joined to one path.
pub(crate) fn joined_path(base: &str, name: &str) -> (r: String)
    ensures
        joins_to(base@, name@, r@),
{
    let r = calls::call2(join, base, name);
    assert(is_made_path(base@, name@, r@));
    r
}

/// Chooses the folder for the application's own files. Only the first choice counts.
pub fn set_app_data_dir(chosen: &mut Option<String>, path: String)
    ensures
        match *old(chosen) {
            Some(_) => *final(chosen) == *old(chosen),
            None => *final(chosen) == Some(path),
        },
{
    if chosen.is_none() {
        *chosen = Some(path);
    }
}

/// The folder for the application's own files: the chosen one, or `./data`.
pub open spec fn app_data_dir(chosen: Option<String>) -> Seq<char> {
    match chosen {
        Some(dir) => dir@,
        None => "./data"@,
    }
}

/// The path of one of the application's own files.
pub fn get_app_data_path(chosen: &Option<String>, filename: &str) -> (r: String)
    ensures
        joins_to(app_data_dir(*chosen), filename@, r@),
{
    match chosen {
        Some(dir) => joined_path(dir.as_str(), filename),
        None => joined_path("./data", filename),
    }
}

/// The name under which a file is kept while it is still being received.
pub open spec fn part_name(name: Seq<char>, tag: nat) -> Seq<char> {
    name + "."@ + text::decimal(tag) + ".part"@
}

/// The name under which `name` is kept while it is still being received; `tag` tells
/// concurrent transfers apart.
pub fn part_file_name(name: &str, tag: u128) -> (r: String)
    ensures
        r@ == part_name(name@, tag as nat),
{
    let mut r = text::concat3(name, ".", text::decimal_text(tag).as_str());
    r.append(".part");
    r
}

pub(crate) proof fn lemma_part_name(name: Seq<char>, tag: nat)
    requires
        name.len() > 0,
        !name.contains('/'),
    ensures
        part_name(name, tag) != "."@,
        part_name(name, tag) != ".."@,
        !part_name(name, tag).contains('/'),
        is_relative_name(name) ==> is_relative_name(part_name(name, tag)),
{
    reveal_strlit(".");
    reveal_strlit(".part");
    reveal_strlit("..");
    text::lemma_decimal_digits(tag);
    let digits = text::decimal(tag);
    let whole = part_name(name, tag);
    assert(whole.len() > 2);
    assert forall|i: int| 0 <= i < whole.len() implies whole[i] != '/' by {
        if i < name.len() {
            assert(name.contains(name[i]));
        } else if i > name.len() && i <= name.len() + digits.len() {
            assert(text::is_digit(digits[i - name.len() - 1]));
            assert(whole[i] == digits[i - name.len() - 1]);
        }
    }
    assert(whole[0] == name[0]);
    assert(name.len() >= 2 ==> whole[1] == name[1]);
    assert(name.len() == 1 ==> whole[1] == '.');
}

/// The name that a path ends in holds no slash.
pub proof fn law_final_name_is_one_component(p: Seq<char>)
    ensures
        final_name(p) matches Some(n) ==> n.len() > 0 && !n.contains('/') && n != "."@ && n
            != ".."@ && is_part(n, p),
    decreases p.len(),
{
    let tail = last_part(p);
    lemma_last_part(p);
    reveal_strlit("");
    if tail == ""@ || tail == "."@ {
        if p.len() > tail.len() {
            let front = p.take(p.len() - tail.len() - 1);
            law_final_name_is_one_component(front);
            if let Some(n) = final_name(front) {
                let i = choose|i: int|
                    0 <= i && i + n.len() <= front.len() && #[trigger] front.subrange(
                        i,
                        i + n.len(),
                    ) == n;
                assert(p.subrange(i, i + n.len()) =~= n);
            }
        }
    } else if tail != ".."@ {
        assert(p.subrange(p.len() - tail.len(), p.len() - tail.len() + tail.len()) =~= tail);
        assert(tail.len() > 0) by {
            if tail.len() == 0 {
                assert(tail =~= ""@);
            }
        }
    }
}

proof fn lemma_last_part(p: Seq<char>)
    ensures
        last_part(p).len() <= p.len(),
        !last_part(p).contains('/'),
        p.skip(p.len() - last_part(p).len()) == last_part(p),
    decreases p.len(),
{
    if p.len() == 0 || p.last() == '/' {
        assert(p.skip(p.len() as int) =~= last_part(p));
    } else {
        let q = p.drop_last();
        lemma_last_part(q);
        let t = last_part(q);
        assert(p.skip(p.len() - t.len() - 1) =~= q.skip(q.len() - t.len()).push(p.last()));
        assert forall|i: int| 0 <= i < last_part(p).len() implies last_part(p)[i] != '/' by {
            if i < t.len() {
                assert(last_part(p)[i] == t[i]);
                assert(t.contains(t[i]));
            }
        }
    }
}

/// On every path without the verbatim prefix, the file name is one component: it holds no slash.
pub proof fn law_file_name_is_one_component(path: Seq<char>, n: Seq<char>)
    requires
        is_file_name(path, Some(n)),
        !is_verbatim(path),
    ensures
        n.len() > 0,
        !n.contains('/'),
        n != "."@,
        n != ".."@,
{
    law_final_name_is_one_component(path);
    law_final_name_is_one_component(windows_reading(path));
}

/// A name without slashes, other than one dot or two, is its own last component.
pub proof fn law_plain_name_is_its_final_name(n: Seq<char>)
    requires
        n.len() > 0,
        !n.contains('/'),
        n != "."@,
        n != ".."@,
    ensures
        final_name(n) == Some(n),
{
    lemma_last_part_of_plain(n);
    reveal_strlit("");
}

proof fn lemma_last_part_of_plain(n: Seq<char>)
    requires
        !n.contains('/'),
    ensures
        last_part(n) == n,
    decreases n.len(),
{
    if n.len() == 0 {
        assert(last_part(n) =~= n);
    } else {
        assert(n.contains(n.last()));
        assert forall|i: int| 0 <= i < n.drop_last().len() implies n.drop_last()[i] != '/' by {
            assert(n.contains(n[i]));
        }
        lemma_last_part_of_plain(n.drop_last());
        assert(n.drop_last().push(n.last()) =~= n);
    }
}

/// The application's own files are in the chosen folder, and in `./data` where none is chosen.
pub proof fn law_own_folder(dir: String)
    ensures
        app_data_dir(Some(dir)) == dir@,
        app_data_dir(None) == "./data"@,
{
}

/// The name for an unfinished file starts with the whole name of the file, and ends in `.part`.
pub proof fn law_part_name_holds_the_name(name: Seq<char>, tag: nat)
    ensures
        part_name(name, tag).take(name.len() as int) == name,
        part_name(name, tag) == name + "."@ + text::decimal(tag) + ".part"@,
        exists|stem: Seq<char>| part_name(name, tag) == #[trigger] (stem + ".part"@),
{
    assert(part_name(name, tag).take(name.len() as int) =~= name);
    assert(part_name(name, tag) == (name + "."@ + text::decimal(tag)) + ".part"@);
}

/// Two unfinished files have the same name only if they are of the same file and have the same
/// tag.
pub proof fn law_part_names_tell_transfers_apart(a: Seq<char>, s: nat, b: Seq<char>, t: nat)
    requires
        part_name(a, s) == part_name(b, t),
    ensures
        a == b,
        s == t,
{
    reveal_strlit(".");
    reveal_strlit(".part");
    let x = text::decimal(s);
    let y = text::decimal(t);
    let whole = part_name(a, s);
    text::lemma_decimal_digits(s);
    text::lemma_decimal_digits(t);
    let n = whole.len() - 5;
    assert(whole[n - x.len() - 1] == '.');
    assert(whole[n - y.len() - 1] == '.');
    assert(n == a.len() + 1 + x.len());
    assert(n == b.len() + 1 + y.len());
    if x.len() < y.len() {
        let k = n - x.len() - 1;
        assert(whole[k] == y[k - b.len() - 1]);
        assert(text::is_digit(y[k - b.len() - 1]));
    }
    if y.len() < x.len() {
        let k = n - y.len() - 1;
        assert(whole[k] == x[k - a.len() - 1]);
        assert(text::is_digit(x[k - a.len() - 1]));
    }
    assert(a =~= whole.take(a.len() as int));
    assert(b =~= whole.take(b.len() as int));
    assert(x =~= whole.subrange(a.len() as int + 1, n));
    assert(y =~= whole.subrange(b.len() as int + 1, n));
    text::law_decimal_reads_back(s);
    text::law_decimal_reads_back(t);
}

/// A path that is a folder, a slash and a plain name ends in that name, and so does one with a
/// slash behind it.
pub proof fn law_name_behind_a_slash_is_the_last(dir: Seq<char>, n: Seq<char>)
    requires
        n.len() > 0,
        !n.contains('/'),
        n != "."@,
        n != ".."@,
    ensures
        final_name(dir.push('/') + n) == Some(n),
        final_name((dir.push('/') + n).push('/')) == Some(n),
{
    let p = dir.push('/') + n;
    lemma_last_part_behind(dir, n);
    reveal_strlit("");
    let q = p.push('/');
    assert(last_part(q) =~= Seq::<char>::empty());
    assert(last_part(q) =~= ""@);
    assert(q.take(q.len() - 0 - 1) =~= p);
}

proof fn lemma_last_part_behind(dir: Seq<char>, n: Seq<char>)
    requires
        !n.contains('/'),
    ensures
        last_part(dir.push('/') + n) == n,
    decreases n.len(),
{
    let p = dir.push('/') + n;
    if n.len() == 0 {
        assert(p =~= dir.push('/'));
        assert(last_part(p) =~= n);
    } else {
        let front = n.drop_last();
        assert(p.drop_last() =~= dir.push('/') + front);
        assert(n.contains(n.last()));
        assert forall|i: int| 0 <= i < front.len() implies front[i] != '/' by {
            assert(n.contains(n[i]));
        }
        lemma_last_part_behind(dir, front);
        assert(front.push(n.last()) =~= n);
    }
}

/// A path that ends in two dots has no last name, and neither has one of slashes and dots alone.
pub proof fn law_paths_without_a_name(dir: Seq<char>)
    ensures
        final_name(""@) is None,
        final_name("/"@) is None,
        final_name("."@) is None,
        final_name(".."@) is None,
        final_name(dir.push('/') + ".."@) is None,
{
    reveal_strlit("");
    reveal_strlit("/");
    reveal_strlit(".");
    reveal_strlit("..");
    lemma_last_part_behind(dir, ".."@);
    lemma_last_part_of_plain("."@);
    lemma_last_part_of_plain(".."@);
    assert(last_part(""@) =~= ""@);
    assert(last_part("/"@) =~= ""@);
    assert("/"@.take(0) =~= ""@);
    assert(".."@ != "."@);
    assert(".."@ != ""@);
}

/// Where Unix and Windows read a folder and a relative name alike, joining puts exactly one slash
/// or backslash between them, or none behind one.
pub proof fn law_joining_keeps_folder_and_name(base: Seq<char>, name: Seq<char>, r: Seq<char>)
    requires
        is_join(base, name, r),
        !is_verbatim(base),
        name.len() > 0,
        name[0] != '/' && name[0] != '\\',
        !(name.len() >= 2 && name[1] == ':'),
    ensures
        r.len() >= base.len() + name.len(),
        r.len() <= base.len() + name.len() + 1,
        r.take(base.len() as int) == base,
        r.skip(r.len() - name.len()) == name,
        base.len() > 0 && base.last() != '/' && base.last() != '\\' && base.len() != 2 ==> {
            &&& r.len() == base.len() + name.len() + 1
            &&& r[base.len() as int] == '/' || r[base.len() as int] == '\\'
        },
{
    assert(r.take(base.len() as int) =~= base);
    assert(r.skip(r.len() - name.len()) =~= name);
}

/// A name that starts with a slash is not put below a folder without a drive or a share.
pub proof fn law_absolute_name_stands_alone(base: Seq<char>, name: Seq<char>, r: Seq<char>)
    requires
        is_join(base, name, r),
        is_portable(base),
        name.len() > 0 && name[0] == '/',
    ensures
        r == name,
{
    if base.len() >= 2 {
        assert(base.contains(base[0]));
        assert(base.contains(base[1]));
    }
    if base.len() >= 1 {
        assert(base.contains(base[0]));
    }
}

/// What the platform joins and finds is what is known of it everywhere.
pub proof fn law_platform_is_one_of_the_known(
    base: Seq<char>,
    name: Seq<char>,
    r: Seq<char>,
    path: Seq<char>,
    found: Option<Seq<char>>,
)
    ensures
        joins_to(base, name, r) ==> is_join(base, name, r),
        names_file(path, found) ==> is_file_name(path, found),
{
}

/// The first folder that is chosen for the application's own files stays the chosen one.
pub proof fn law_first_choice_counts(chosen: &mut Option<String>, path: String)
    requires
        call_ensures(set_app_data_dir, (chosen, path), ()),
    ensures
        *old(chosen) is None ==> *final(chosen) is Some && (*final(chosen))->0@ == path@,
        *old(chosen) is Some ==> *final(chosen) == *old(chosen),
{
}

} // verus!
