//! The devices that were trusted, and the file in which they are kept.
use crate::error::AppError;
use crate::paths;
use crate::text;
use vstd::prelude::*;

verus! {

/// Names and fingerprints, as text.
pub open spec fn view_pairs(pairs: Seq<(String, String)>) -> Seq<(Seq<char>, Seq<char>)> {
    pairs.map_values(|p: (String, String)| (p.0@, p.1@))
}

/// Whether no name occurs twice.
pub open spec fn distinct_names(pairs: Seq<(Seq<char>, Seq<char>)>) -> bool {
    forall|i: int, j: int|
        0 <= i < j < pairs.len() ==> (#[trigger] pairs[i]).0 != (#[trigger] pairs[j]).0
}

/// The map from names to fingerprints.
pub open spec fn pairs_map(pairs: Seq<(Seq<char>, Seq<char>)>) -> Map<Seq<char>, Seq<char>>
    decreases pairs.len(),
{
    if pairs.len() == 0 {
        Map::empty()
    } else {
        pairs_map(pairs.drop_last()).insert(pairs.last().0, pairs.last().1)
    }
}

proof fn lemma_pairs_map(pairs: Seq<(Seq<char>, Seq<char>)>)
    requires
        distinct_names(pairs),
    ensures
        forall|i: int|
            0 <= i < pairs.len() ==> pairs_map(pairs).dom().contains((#[trigger] pairs[i]).0)
                && pairs_map(pairs)[pairs[i].0] == pairs[i].1,
        forall|n: Seq<char>| #[trigger]
            pairs_map(pairs).dom().contains(n) ==> exists|i: int|
                0 <= i < pairs.len() && (#[trigger] pairs[i]).0 == n,
    decreases pairs.len(),
{
    if pairs.len() > 0 {
        let front = pairs.drop_last();
        assert forall|i: int, j: int| 0 <= i < j < front.len() implies (#[trigger] front[i]).0 != (
        #[trigger] front[j]).0 by {
            assert(front[i] == pairs[i] && front[j] == pairs[j]);
        }
        lemma_pairs_map(front);
        assert forall|i: int| 0 <= i < pairs.len() implies pairs_map(pairs).dom().contains(
            (#[trigger] pairs[i]).0,
        ) && pairs_map(pairs)[pairs[i].0] == pairs[i].1 by {
            if i < front.len() {
                assert(front[i] == pairs[i]);
                assert(pairs[i].0 != pairs[pairs.len() - 1].0);
            }
        }
        assert forall|n: Seq<char>| #[trigger] pairs_map(pairs).dom().contains(n) implies exists|
            i: int,
        |
            0 <= i < pairs.len() && (#[trigger] pairs[i]).0 == n by {
            if n == pairs.last().0 {
                assert(pairs[pairs.len() - 1].0 == n);
            } else {
                assert(pairs_map(front).dom().contains(n));
                let i = choose|i: int| 0 <= i < front.len() && (#[trigger] front[i]).0 == n;
                assert(pairs[i] == front[i]);
            }
        }
    }
}

/// What the text of a peers file stands for: a JSON object of strings, read as a map, or the
/// message that says why it is none.
pub uninterp spec fn peers_json(text: Seq<char>) -> Result<Map<Seq<char>, Seq<char>>, Seq<char>>;

/// Whether `json` is the text of a peers file that holds `peers`.
pub open spec fn stands_for(json: Seq<char>, peers: Map<Seq<char>, Seq<char>>) -> bool {
    peers_json(json) is Ok && peers_json(json)->Ok_0 == peers
}

/// Reads a JSON object of strings, in any order.
///
/// Calls `serde_json::from_str` for a `HashMap<String, String>`, which depends on the text
/// alone, and lists the pairs of the map.
#[verifier::external_body]
fn parse_peers(json: &str) -> (r: Result<Vec<(String, String)>, String>)
    ensures
        match r {
            Ok(pairs) => {
                &&& distinct_names(view_pairs(pairs@))
                &&& stands_for(json@, pairs_map(view_pairs(pairs@)))
            },
            Err(message) => peers_json(json@) is Err && peers_json(json@)->Err_0 == message@,
        },
{
    serde_json::from_str::<std::collections::HashMap<String, String>>(json)
        .map(|peers| peers.into_iter().collect())
        .map_err(|e| e.to_string())
}

/// Writes names and fingerprints as a JSON object.
///
/// Calls `serde_json::to_string_pretty` on a `HashMap` of the pairs, which cannot fail on
/// strings. The order of the members is left open; read again, the text gives the same map.
#[verifier::external_body]
fn render_peers(pairs: &Vec<(String, String)>) -> (r: Result<String, String>)
    requires
        distinct_names(view_pairs(pairs@)),
    ensures
        r is Ok,
        stands_for(r->Ok_0@, pairs_map(view_pairs(pairs@))),
{
    let peers: std::collections::HashMap<&String, &String> =
        pairs.iter().map(|p| (&p.0, &p.1)).collect();
    serde_json::to_string_pretty(&peers).map_err(|e| e.to_string())
}

/// Gives `name` the fingerprint `fingerprint`, in place if the name is listed, else at the end.
fn put(pairs: &mut Vec<(String, String)>, name: String, fingerprint: String)
    requires
        distinct_names(view_pairs(old(pairs)@)),
    ensures
        distinct_names(view_pairs(final(pairs)@)),
        pairs_map(view_pairs(final(pairs)@)) == pairs_map(view_pairs(old(pairs)@)).insert(
            name@,
            fingerprint@,
        ),
{
    let ghost before = view_pairs(pairs@);
    let mut i: usize = 0;
    while i < pairs.len()
        invariant
            i <= pairs@.len(),
            pairs@ == old(pairs)@,
            before == view_pairs(pairs@),
            distinct_names(before),
            forall|k: int| 0 <= k < i ==> (#[trigger] before[k]).0 != name@,
        decreases pairs@.len() - i,
    {
        assert(before[i as int] == (pairs@[i as int].0@, pairs@[i as int].1@));
        if text::text_eq(pairs[i].0.as_str(), name.as_str()) {
            let ghost entry = (name@, fingerprint@);
            pairs.set(i, (name, fingerprint));
            proof {
                assert(view_pairs(pairs@) =~= before.update(i as int, entry));
                lemma_replace(before, i as int, entry.1);
            }
            return;
        }
        i += 1;
    }
    let ghost entry = (name@, fingerprint@);
    pairs.push((name, fingerprint));
    proof {
        let after = view_pairs(pairs@);
        assert(after =~= before.push(entry));
        assert(after.drop_last() =~= before);
        assert forall|a: int, b: int| 0 <= a < b < after.len() implies (#[trigger] after[a]).0 != (
        #[trigger] after[b]).0 by {
            assert(after[a] == before[a]);
            if b < before.len() {
                assert(after[b] == before[b]);
            }
        }
    }
}

proof fn lemma_replace(pairs: Seq<(Seq<char>, Seq<char>)>, i: int, fingerprint: Seq<char>)
    requires
        distinct_names(pairs),
        0 <= i < pairs.len(),
    ensures
        distinct_names(pairs.update(i, (pairs[i].0, fingerprint))),
        pairs_map(pairs.update(i, (pairs[i].0, fingerprint))) == pairs_map(pairs).insert(
            pairs[i].0,
            fingerprint,
        ),
{
    let name = pairs[i].0;
    let after = pairs.update(i, (name, fingerprint));
    assert forall|a: int, b: int| 0 <= a < b < after.len() implies (#[trigger] after[a]).0 != (
    #[trigger] after[b]).0 by {
        assert(after[a].0 == pairs[a].0 && after[b].0 == pairs[b].0);
    }
    lemma_pairs_map(pairs);
    lemma_pairs_map(after);
    let m = pairs_map(after);
    let n = pairs_map(pairs).insert(name, fingerprint);
    assert forall|k: Seq<char>| #[trigger] m.dom().contains(k) <==> n.dom().contains(k) by {
        if m.dom().contains(k) {
            let a = choose|a: int| 0 <= a < after.len() && (#[trigger] after[a]).0 == k;
            assert(pairs[a].0 == k);
        }
        if n.dom().contains(k) && k != name {
            let a = choose|a: int| 0 <= a < pairs.len() && (#[trigger] pairs[a]).0 == k;
            assert(after[a].0 == k);
        }
        assert(after[i].0 == name);
    }
    assert forall|k: Seq<char>| #[trigger] m.dom().contains(k) implies m[k] == n[k] by {
        let a = choose|a: int| 0 <= a < after.len() && (#[trigger] after[a]).0 == k;
        assert(m[after[a].0] == after[a].1);
        if a != i {
            assert(pairs[a] == after[a]);
            assert(k != name) by {
                if a < i {
                    assert(pairs[a].0 != pairs[i].0);
                } else {
                    assert(pairs[i].0 != pairs[a].0);
                }
            }
        }
    }
    assert(m =~= n);
}

/// Whether some trusted device has this fingerprint.
pub open spec fn is_known_fingerprint(
    peers: Map<Seq<char>, Seq<char>>,
    fingerprint: Seq<char>,
) -> bool {
    exists|n: Seq<char>| #[trigger] peers.dom().contains(n) && peers[n] == fingerprint
}

/// The trusted devices: for each name the fingerprint of its certificate.
#[derive(Debug)]
pub struct PeersStorage {
    pairs: Vec<(String, String)>,
}

impl View for PeersStorage {
    type V = Map<Seq<char>, Seq<char>>;

    closed spec fn view(&self) -> Map<Seq<char>, Seq<char>> {
        pairs_map(view_pairs(self.pairs@))
    }
}

/// What a peers file stands for: nothing is trusted where there is no file.
pub open spec fn stored_peers(file: Option<&str>) -> Result<Map<Seq<char>, Seq<char>>, Seq<char>> {
    match file {
        None => Ok(Map::empty()),
        Some(text) => peers_json(text@),
    }
}

/// What is known of the trusted devices once their file was read: the devices, or the message
/// of the failure.
pub open spec fn view_peers(known: Result<PeersStorage, AppError>) -> Result<
    Map<Seq<char>, Seq<char>>,
    Seq<char>,
> {
    match known {
        Ok(peers) => Ok(peers@),
        Err(e) => Err(e.spec_message()),
    }
}

impl PeersStorage {
    #[verifier::type_invariant]
    closed spec fn wf(&self) -> bool {
        distinct_names(view_pairs(self.pairs@))
    }

    /// The trusted names, in the order in which they are listed.
    pub closed spec fn names(&self) -> Seq<Seq<char>> {
        self.pairs@.map_values(|p: (String, String)| p.0@)
    }

    /// No device at all.
    pub fn empty() -> (r: PeersStorage)
        ensures
            r@ == Map::<Seq<char>, Seq<char>>::empty(),
            r.names() == Seq::<Seq<char>>::empty(),
    {
        let r = PeersStorage { pairs: Vec::new() };
        assert(r.names() =~= Seq::<Seq<char>>::empty());
        r
    }

    /// The path of the peers file.
    pub fn path(chosen: &Option<String>) -> (r: String)
        ensures
            paths::joins_to(paths::app_data_dir(*chosen), "peers.json"@, r@),
    {
        paths::get_app_data_path(chosen, "peers.json")
    }

    /// Reads the trusted devices from the text of their file, if there is one.
    pub fn load(file: Option<&str>) -> (r: Result<PeersStorage, AppError>)
        ensures
            match stored_peers(file) {
                Ok(peers) => r is Ok && r->Ok_0@ == peers,
                Err(message) => (r matches Err(AppError::JsonError(m)) && m@ == message),
            },
    {
        match file {
            None => Ok(PeersStorage::empty()),
            Some(json) => match parse_peers(json) {
                Ok(pairs) => Ok(PeersStorage { pairs }),
                Err(message) => Err(AppError::JsonError(message)),
            },
        }
    }

    /// The text of a file that holds the trusted devices.
    pub fn save(&self) -> (r: Result<String, AppError>)
        ensures
            r is Ok,
            stands_for(r->Ok_0@, self@),
    {
        proof {
            use_type_invariant(self);
        }
        match render_peers(&self.pairs) {
            Ok(json) => Ok(json),
            Err(message) => Err(AppError::JsonError(message)),
        }
    }

    /// The fingerprint of the device called `name`, if that is trusted.
    pub fn get(&self, name: &str) -> (r: Option<&String>)
        ensures
            match r {
                Some(fp) => self@.dom().contains(name@) && self@[name@] == fp@,
                None => !self@.dom().contains(name@),
            },
    {
        proof {
            use_type_invariant(self);
            lemma_pairs_map(view_pairs(self.pairs@));
        }
        let ghost pairs = view_pairs(self.pairs@);
        let mut i: usize = 0;
        while i < self.pairs.len()
            invariant
                i <= self.pairs@.len(),
                pairs == view_pairs(self.pairs@),
                forall|k: int| 0 <= k < i ==> (#[trigger] pairs[k]).0 != name@,
                forall|k: int|
                    0 <= k < pairs.len() ==> pairs_map(pairs).dom().contains(
                        (#[trigger] pairs[k]).0,
                    ) && pairs_map(pairs)[pairs[k].0] == pairs[k].1,
            decreases self.pairs@.len() - i,
        {
            assert(pairs[i as int] == (self.pairs@[i as int].0@, self.pairs@[i as int].1@));
            if text::text_eq(self.pairs[i].0.as_str(), name) {
                return Some(&self.pairs[i].1);
            }
            i += 1;
        }
        None
    }

    /// Whether some trusted device has this fingerprint.
    pub fn knows_fingerprint(&self, fingerprint: &str) -> (r: bool)
        ensures
            r == is_known_fingerprint(self@, fingerprint@),
    {
        proof {
            use_type_invariant(self);
            lemma_pairs_map(view_pairs(self.pairs@));
        }
        let ghost pairs = view_pairs(self.pairs@);
        let mut i: usize = 0;
        while i < self.pairs.len()
            invariant
                i <= self.pairs@.len(),
                pairs == view_pairs(self.pairs@),
                forall|k: int| 0 <= k < i ==> (#[trigger] pairs[k]).1 != fingerprint@,
                forall|k: int|
                    0 <= k < pairs.len() ==> pairs_map(pairs).dom().contains(
                        (#[trigger] pairs[k]).0,
                    ) && pairs_map(pairs)[pairs[k].0] == pairs[k].1,
            decreases self.pairs@.len() - i,
        {
            assert(pairs[i as int] == (self.pairs@[i as int].0@, self.pairs@[i as int].1@));
            if text::text_eq(self.pairs[i].1.as_str(), fingerprint) {
                assert(self@.dom().contains(pairs[i as int].0));
                return true;
            }
            i += 1;
        }
        proof {
            if is_known_fingerprint(self@, fingerprint@) {
                let n = choose|n: Seq<char>| #[trigger]
                    self@.dom().contains(n) && self@[n] == fingerprint@;
                let k = choose|k: int| 0 <= k < pairs.len() && (#[trigger] pairs[k]).0 == n;
                assert(pairs[k].1 == fingerprint@);
            }
        }
        false
    }

    /// Trusts the device called `device_name`, with this fingerprint and no other.
    pub fn insert(&mut self, device_name: String, fingerprint: String)
        ensures
            final(self)@ == old(self)@.insert(device_name@, fingerprint@),
    {
        proof {
            use_type_invariant(&*self);
        }
        let mut pairs: Vec<(String, String)> = Vec::new();
        std::mem::swap(&mut pairs, &mut self.pairs);
        put(&mut pairs, device_name, fingerprint);
        self.pairs = pairs;
    }

    /// Adds a trusted device to those in the text of their file, and gives the new text.
    pub fn trust_peer(file: Option<&str>, device_name: String, fingerprint: String) -> (r: Result<
        String,
        AppError,
    >)
        ensures
            match stored_peers(file) {
                Ok(peers) => r is Ok && stands_for(
                    r->Ok_0@,
                    peers.insert(device_name@, fingerprint@),
                ),
                Err(message) => (r matches Err(AppError::JsonError(m)) && m@ == message),
            },
    {
        match PeersStorage::load(file) {
            Ok(storage) => {
                let mut storage = storage;
                storage.insert(device_name, fingerprint);
                storage.save()
            },
            Err(e) => Err(e),
        }
    }

    /// How many devices are trusted. No name is listed twice, and the listed names are those of
    /// the trusted devices.
    pub fn len(&self) -> (r: usize)
        ensures
            r == self.names().len(),
            self.names().no_duplicates(),
            forall|n: Seq<char>| #[trigger]
                self.names().contains(n) <==> self@.dom().contains(n),
    {
        proof {
            use_type_invariant(self);
            lemma_names(view_pairs(self.pairs@), self.names());
        }
        self.pairs.len()
    }

    /// The name that is listed at place `i`.
    pub fn name_at(&self, i: usize) -> (r: &String)
        requires
            i < self.names().len(),
        ensures
            r@ == self.names()[i as int],
    {
        &self.pairs[i].0
    }
}

proof fn lemma_names(pairs: Seq<(Seq<char>, Seq<char>)>, names: Seq<Seq<char>>)
    requires
        distinct_names(pairs),
        names.len() == pairs.len(),
        forall|i: int| 0 <= i < pairs.len() ==> #[trigger] names[i] == pairs[i].0,
    ensures
        names.no_duplicates(),
        forall|n: Seq<char>| #[trigger]
            names.contains(n) <==> pairs_map(pairs).dom().contains(n),
{
    lemma_pairs_map(pairs);
    assert forall|i: int, j: int|
        0 <= i < names.len() && 0 <= j < names.len() && i != j implies names[i] != names[j] by {
        if i < j {
            assert(pairs[i].0 != pairs[j].0);
        } else {
            assert(pairs[j].0 != pairs[i].0);
        }
    }
    assert forall|n: Seq<char>| #[trigger] names.contains(n) implies pairs_map(
        pairs,
    ).dom().contains(n) by {
        let i = choose|i: int| 0 <= i < names.len() && names[i] == n;
        assert(pairs[i].0 == n);
    }
    assert forall|n: Seq<char>| pairs_map(pairs).dom().contains(n) implies #[trigger] names.contains(
        n,
    ) by {
        let i = choose|i: int| 0 <= i < pairs.len() && (#[trigger] pairs[i]).0 == n;
        assert(names[i] == n);
    }
}

/// Each pair of a list in which no name occurs twice is found under its name, and nothing else is
/// found.
pub proof fn law_pairs_are_found_by_name(
    pairs: Seq<(Seq<char>, Seq<char>)>,
    i: int,
    name: Seq<char>,
)
    requires
        distinct_names(pairs),
        0 <= i < pairs.len(),
    ensures
        pairs_map(pairs).dom().contains(pairs[i].0),
        pairs_map(pairs)[pairs[i].0] == pairs[i].1,
        pairs_map(pairs).dom().contains(name) ==> exists|k: int|
            0 <= k < pairs.len() && (#[trigger] pairs[k]).0 == name,
{
    lemma_pairs_map(pairs);
}

/// Where there is no file, nobody is trusted; where there is one, it is read as it stands.
pub proof fn law_peers_file_is_read(file: &str)
    ensures
        stored_peers(None) is Ok,
        stored_peers(None)->Ok_0 == Map::<Seq<char>, Seq<char>>::empty(),
        stored_peers(Some(file)) == peers_json(file@),
{
}

/// What was saved is what is loaded.
pub proof fn law_saved_peers_are_loaded(
    peers: PeersStorage,
    json: String,
    file: &str,
    r: Result<PeersStorage, AppError>,
)
    requires
        call_ensures(PeersStorage::save, (&peers,), Ok::<String, AppError>(json)),
        file@ == json@,
        call_ensures(PeersStorage::load, (Some(file),), r),
    ensures
        r is Ok,
        r->Ok_0@ == peers@,
{
}

/// A device that was trusted is found, with its fingerprint, in what is loaded; all others are as
/// they were.
pub proof fn law_trusted_peer_is_loaded(
    before: Map<Seq<char>, Seq<char>>,
    old: &str,
    name: String,
    fingerprint: String,
    json: String,
    file: &str,
    r: Result<PeersStorage, AppError>,
    other: Seq<char>,
)
    requires
        peers_json(old@) == Ok::<Map<Seq<char>, Seq<char>>, Seq<char>>(before),
        call_ensures(
            PeersStorage::trust_peer,
            (Some(old), name, fingerprint),
            Ok::<String, AppError>(json),
        ),
        file@ == json@,
        call_ensures(PeersStorage::load, (Some(file),), r),
    ensures
        r is Ok,
        r->Ok_0@.dom().contains(name@),
        r->Ok_0@[name@] == fingerprint@,
        other != name@ ==> (r->Ok_0@.dom().contains(other) <==> before.dom().contains(other)),
        other != name@ && before.dom().contains(other) ==> r->Ok_0@[other] == before[other],
{
}

/// A fingerprint is known exactly if some trusted name has it.
pub proof fn law_known_fingerprints(peers: Map<Seq<char>, Seq<char>>, fingerprint: Seq<char>)
    ensures
        is_known_fingerprint(peers, fingerprint) <==> exists|n: Seq<char>| #[trigger]
            peers.dom().contains(n) && peers[n] == fingerprint,
{
}

/// What is known of the trusted devices is what was loaded, or the message of the failure.
pub proof fn law_known_peers_are_the_loaded(peers: PeersStorage, e: AppError)
    ensures
        view_peers(Ok(peers)) is Ok,
        view_peers(Ok(peers))->Ok_0 == peers@,
        view_peers(Err(e)) is Err,
        view_peers(Err(e))->Err_0 == e.spec_message(),
{
}

/// A device that was trusted is found with its fingerprint; all others are as they were.
pub proof fn law_inserted_peer_is_found(
    peers: &mut PeersStorage,
    name: String,
    fingerprint: String,
    asked: &str,
    r: Option<&String>,
    after: PeersStorage,
)
    requires
        call_ensures(PeersStorage::insert, (peers, name, fingerprint), ()),
        after@ == final(peers)@,
        call_ensures(PeersStorage::get, (&after, asked), r),
    ensures
        asked@ == name@ ==> r is Some && r->0@ == fingerprint@,
        asked@ != name@ ==> (r is Some <==> old(peers)@.dom().contains(asked@)),
        asked@ != name@ && r is Some ==> r->0@ == old(peers)@[asked@],
{
}

} // verus!
