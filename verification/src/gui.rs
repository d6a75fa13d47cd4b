//! What the graphical interface works with: the devices it shows, and the state of its server.
use crate::config;
use crate::config::{AppConfig, ConfigView};
use crate::discovery;
use crate::discovery::{DeviceInfo, DeviceView};
use crate::error::AppError;
use crate::identity::Identity;
use crate::index;
use crate::index::{DeviceIndex, FileIndexing, FileView};
use crate::peers::PeersStorage;
use crate::text;
use crate::trust::{PairingRequest, RequestView};
use crate::wire;
use vstd::prelude::*;

verus! {

/// A device as it is shown.
#[derive(Debug)]
pub struct GuiDeviceInfo {
    pub index: u8,
    pub name: String,
    pub ip: String,
}

impl View for GuiDeviceInfo {
    type V = DeviceView;

    open spec fn view(&self) -> DeviceView {
        DeviceView { index: self.index as nat, name: self.name@, ip: self.ip@ }
    }
}

impl Clone for GuiDeviceInfo {
    fn clone(&self) -> (r: Self)
        ensures
            r@ == self@,
    {
        GuiDeviceInfo { index: self.index, name: self.name.clone(), ip: self.ip.clone() }
    }
}

impl From<DeviceInfo> for GuiDeviceInfo {
    fn from(d: DeviceInfo) -> (r: Self) {
        GuiDeviceInfo { index: d.index, name: d.name, ip: d.ip }
    }
}

impl vstd::std_specs::convert::FromSpecImpl<DeviceInfo> for GuiDeviceInfo {
    open spec fn obeys_from_spec() -> bool {
        true
    }

    open spec fn from_spec(d: DeviceInfo) -> Self {
        GuiDeviceInfo { index: d.index, name: d.name, ip: d.ip }
    }
}

/// A file as it is shown.
#[derive(Debug)]
pub struct GuiFileIndexing {
    pub id: usize,
    pub name: String,
    pub size: u64,
    pub path: String,
    pub is_dir: bool,
    pub parent_dir: Option<String>,
}

impl View for GuiFileIndexing {
    type V = FileView;

    open spec fn view(&self) -> FileView {
        FileView {
            id: self.id as nat,
            name: self.name@,
            size: self.size as nat,
            path: self.path@,
            is_dir: self.is_dir,
            parent_dir: index::view_option(self.parent_dir),
        }
    }
}

impl Clone for GuiFileIndexing {
    fn clone(&self) -> (r: Self)
        ensures
            r@ == self@,
    {
        GuiFileIndexing {
            id: self.id,
            name: self.name.clone(),
            size: self.size,
            path: self.path.clone(),
            is_dir: self.is_dir,
            parent_dir: index::copy_option(&self.parent_dir),
        }
    }
}

impl From<FileIndexing> for GuiFileIndexing {
    fn from(f: FileIndexing) -> (r: Self) {
        GuiFileIndexing {
            id: f.id as usize,
            name: f.name,
            size: f.size,
            path: f.path,
            is_dir: f.is_dir,
            parent_dir: f.parent_dir,
        }
    }
}

impl vstd::std_specs::convert::FromSpecImpl<FileIndexing> for GuiFileIndexing {
    open spec fn obeys_from_spec() -> bool {
        true
    }

    open spec fn from_spec(f: FileIndexing) -> Self {
        GuiFileIndexing {
            id: f.id as usize,
            name: f.name,
            size: f.size,
            path: f.path,
            is_dir: f.is_dir,
            parent_dir: f.parent_dir,
        }
    }
}

/// A request for trust as it is shown.
#[derive(Debug)]
pub struct GuiPairingEvent {
    pub device_name: String,
    pub fingerprint: String,
}

impl View for GuiPairingEvent {
    type V = RequestView;

    open spec fn view(&self) -> RequestView {
        RequestView { device_name: self.device_name@, fingerprint: self.fingerprint@ }
    }
}

impl Clone for GuiPairingEvent {
    fn clone(&self) -> (r: Self)
        ensures
            r@ == self@,
    {
        GuiPairingEvent {
            device_name: self.device_name.clone(),
            fingerprint: self.fingerprint.clone(),
        }
    }
}

/// Whether a device of this name answered.
pub open spec fn is_active(active: Seq<DeviceView>, name: Seq<char>) -> bool {
    exists|i: int| 0 <= i < active.len() && (#[trigger] active[i]).name == name
}

/// The trusted names under which no device answered.
pub open spec fn absent(active: Seq<DeviceView>, names: Seq<Seq<char>>) -> Seq<Seq<char>> {
    names.filter(|n: Seq<char>| !is_active(active, n))
}

/// The devices that are shown: those that answered, then the trusted ones that did not, all
/// counted from one.
pub open spec fn shown(active: Seq<DeviceView>, names: Seq<Seq<char>>) -> Seq<DeviceView> {
    let missing = absent(active, names);
    Seq::new(
        active.len() + missing.len(),
        |i: int|
            if i < active.len() {
                DeviceView { index: (i + 1) as nat, ..active[i] }
            } else {
                DeviceView {
                    index: (i + 1) as nat,
                    name: missing[i - active.len()],
                    ip: "Offline"@,
                }
            },
    )
}

/// What a list of shown devices says.
pub open spec fn view_shown(devices: Seq<GuiDeviceInfo>) -> Seq<DeviceView> {
    devices.map_values(|d: GuiDeviceInfo| d@)
}

fn is_listed(devices: &Vec<GuiDeviceInfo>, name: &str) -> (r: bool)
    ensures
        r == is_active(view_shown(devices@), name@),
{
    let ghost all = view_shown(devices@);
    let mut i: usize = 0;
    while i < devices.len()
        invariant
            i <= devices@.len(),
            all == view_shown(devices@),
            forall|k: int| 0 <= k < i ==> (#[trigger] all[k]).name != name@,
        decreases devices@.len() - i,
    {
        assert(all[i as int] == devices@[i as int]@);
        if text::text_eq(devices[i].name.as_str(), name) {
            return true;
        }
        i += 1;
    }
    false
}

proof fn lemma_shown_step(active: Seq<DeviceView>, names: Seq<Seq<char>>, name: Seq<char>)
    requires
        names.push(name).no_duplicates(),
    ensures
        is_active(shown(active, names), name) <==> is_active(active, name),
        shown(active, names.push(name)) == if is_active(active, name) {
            shown(active, names)
        } else {
            shown(active, names).push(
                DeviceView { index: shown(active, names).len() + 1, name, ip: "Offline"@ },
            )
        },
{
    reveal(Seq::filter);
    broadcast use vstd::seq_lib::group_filter_ensures;

    let all = names.push(name);
    assert(all.drop_last() =~= names);
    let before = shown(active, names);
    let missing = absent(active, names);
    assert(!names.contains(name)) by {
        if names.contains(name) {
            let i = choose|i: int| 0 <= i < names.len() && names[i] == name;
            assert(all[i] == all[all.len() - 1]);
        }
    }
    if is_active(active, name) {
        let i = choose|i: int| 0 <= i < active.len() && (#[trigger] active[i]).name == name;
        assert(before[i].name == name);
        assert(absent(active, all) =~= missing);
    } else {
        if is_active(before, name) {
            let i = choose|i: int| 0 <= i < before.len() && (#[trigger] before[i]).name == name;
            if i < active.len() {
                assert(active[i].name == name);
            } else {
                assert(missing[i - active.len()] == name);
                assert(missing.contains(name));
                names.lemma_filter_contains_rev(|n: Seq<char>| !is_active(active, n), name);
            }
        }
        assert(absent(active, all) =~= missing.push(name));
        assert(shown(active, all) =~= before.push(
            DeviceView { index: before.len() + 1, name, ip: "Offline"@ },
        ));
    }
}

proof fn lemma_shown_grows(active: Seq<DeviceView>, names: Seq<Seq<char>>, k: int)
    requires
        0 <= k <= names.len(),
    ensures
        shown(active, names.take(k)).len() <= shown(active, names).len(),
    decreases names.len() - k,
{
    reveal(Seq::filter);
    if k < names.len() {
        lemma_shown_grows(active, names, k + 1);
        assert(names.take(k + 1).drop_last() =~= names.take(k));
    } else {
        assert(names.take(k) =~= names);
    }
}

/// The devices to show, given those that answered and those that are trusted; nothing if
/// there are more than can be counted.
pub fn scan_network_devices(active: Vec<DeviceInfo>, known: &PeersStorage) -> (r: Option<
    Vec<GuiDeviceInfo>,
>)
    ensures
        ({
            let all = shown(discovery::view_devices(active@), known.names());
            match r {
                Some(devices) => {
                    &&& view_shown(devices@) == all
                    &&& all.len() <= discovery::MAX_DEVICES
                },
                None => all.len() > discovery::MAX_DEVICES,
            }
        }),
        known.names().no_duplicates(),
        forall|n: Seq<char>| #[trigger]
            known.names().contains(n) <==> known@.dom().contains(n),
{
    let ghost found = discovery::view_devices(active@);
    let ghost names = known.names();
    let count: usize = known.len();
    proof {
        lemma_shown_grows(found, names, 0);
        assert(shown(found, names.take(0)).len() >= found.len());
    }
    if active.len() > discovery::MAX_DEVICES {
        return None;
    }
    let mut index: u8 = 1;
    let mut i: usize = 0;
    let mut devices: Vec<GuiDeviceInfo> = Vec::new();
    while i < active.len()
        invariant
            i <= active@.len() <= discovery::MAX_DEVICES,
            found == discovery::view_devices(active@),
            devices@.len() == i,
            index == i + 1,
            forall|k: int|
                0 <= k < i ==> (#[trigger] devices@[k])@ == (DeviceView {
                    index: (k + 1) as nat,
                    ..found[k]
                }),
        decreases active@.len() - i,
    {
        let dev: &DeviceInfo = &active[i];
        assert(found[i as int] == dev@);
        devices.push(GuiDeviceInfo { index, name: dev.name.clone(), ip: dev.ip.clone() });
        index += 1;
        i += 1;
    }
    proof {
        reveal(Seq::filter);
        assert(names.take(0) =~= Seq::<Seq<char>>::empty());
        assert(view_shown(devices@) =~= shown(found, names.take(0)));
    }
    let mut j: usize = 0;
    while j < count
        invariant
            j <= count,
            count == names.len(),
            names == known.names(),
            names.no_duplicates(),
            forall|n: Seq<char>| #[trigger] names.contains(n) <==> known@.dom().contains(n),
            found == discovery::view_devices(active@),
            devices@.len() <= discovery::MAX_DEVICES,
            index == devices@.len() + 1,
            view_shown(devices@) == shown(found, names.take(j as int)),
        decreases count - j,
    {
        let name: &String = known.name_at(j);
        let ghost before = view_shown(devices@);
        proof {
            assert(names.take(j + 1) =~= names.take(j as int).push(names[j as int]));
            assert(names.take(j + 1).no_duplicates());
            lemma_shown_step(found, names.take(j as int), names[j as int]);
            lemma_shown_grows(found, names, j + 1);
        }
        if !is_listed(&devices, name.as_str()) {
            if devices.len() >= discovery::MAX_DEVICES {
                return None;
            }
            devices.push(GuiDeviceInfo { index, name: name.clone(), ip: "Offline".to_owned() });
            assert(view_shown(devices@) =~= before.push(
                DeviceView { index: index as nat, name: names[j as int], ip: "Offline"@ },
            ));
            index += 1;
        }
        j += 1;
    }
    assert(names.take(j as int) =~= names);
    Some(devices)
}

/// Shown devices are counted from one.
pub proof fn law_shown_devices_are_counted(active: Seq<DeviceView>, names: Seq<Seq<char>>)
    ensures
        discovery::counted(shown(active, names)),
{
}

/// Every device that answered is shown with its address, and every trusted device is shown.
pub proof fn law_every_device_is_shown(active: Seq<DeviceView>, names: Seq<Seq<char>>)
    ensures
        shown(active, names).len() >= active.len(),
        forall|i: int|
            0 <= i < active.len() ==> (#[trigger] shown(active, names)[i]).name == active[i].name
                && shown(active, names)[i].ip == active[i].ip,
        forall|n: Seq<char>| #[trigger]
            names.contains(n) ==> is_active(shown(active, names), n),
{
    broadcast use vstd::seq_lib::group_filter_ensures;

    let all = shown(active, names);
    let missing = absent(active, names);
    assert forall|n: Seq<char>| #[trigger] names.contains(n) implies is_active(all, n) by {
        if is_active(active, n) {
            let i = choose|i: int| 0 <= i < active.len() && (#[trigger] active[i]).name == n;
            assert(all[i].name == n);
        } else {
            let i = choose|i: int| 0 <= i < names.len() && names[i] == n;
            assert(missing.contains(n));
            let k = choose|k: int| 0 <= k < missing.len() && missing[k] == n;
            assert(all[active.len() + k].name == n);
        }
    }
}

/// Where no trusted name is listed twice, no absent device is shown twice.
pub proof fn law_absent_devices_are_shown_once(
    active: Seq<DeviceView>,
    names: Seq<Seq<char>>,
    i: int,
    j: int,
)
    requires
        names.no_duplicates(),
        active.len() <= i < shown(active, names).len(),
        active.len() <= j < shown(active, names).len(),
        shown(active, names)[i].name == shown(active, names)[j].name,
    ensures
        i == j,
{
    lemma_absent_is_distinct(active, names);
    let missing = absent(active, names);
    assert(missing[i - active.len()] == missing[j - active.len()]);
}

proof fn lemma_absent_is_distinct(active: Seq<DeviceView>, names: Seq<Seq<char>>)
    requires
        names.no_duplicates(),
    ensures
        absent(active, names).no_duplicates(),
    decreases names.len(),
{
    reveal(Seq::filter);
    if names.len() > 0 {
        let front = names.drop_last();
        let missing = absent(active, front);
        lemma_absent_is_distinct(active, front);
        if !is_active(active, names.last()) && missing.contains(names.last()) {
            front.lemma_filter_contains_rev(
                |n: Seq<char>| !is_active(active, n),
                names.last(),
            );
            let k = choose|k: int| 0 <= k < front.len() && front[k] == names.last();
            assert(names[k] == names[names.len() - 1]);
        }
        assert forall|i: int, j: int|
            0 <= i < absent(active, names).len() && 0 <= j < absent(active, names).len() && i
                != j implies absent(active, names)[i] != absent(active, names)[j] by {
            if i < missing.len() {
                assert(missing.contains(missing[i]));
            }
            if j < missing.len() {
                assert(missing.contains(missing[j]));
            }
        }
    }
}

/// Only trusted devices under whose name none answered are shown as absent.
pub proof fn law_absent_devices_are_trusted(active: Seq<DeviceView>, names: Seq<Seq<char>>, i: int)
    requires
        active.len() <= i < shown(active, names).len(),
    ensures
        names.contains(shown(active, names)[i].name),
        !is_active(active, shown(active, names)[i].name),
{
    broadcast use vstd::seq_lib::group_filter_ensures;

    let missing = absent(active, names);
    let name = missing[i - active.len()];
    assert(missing.contains(name));
    names.lemma_filter_contains_rev(|n: Seq<char>| !is_active(active, n), name);
}

/// What a list of shown files says, next to the index that it shows.
pub open spec fn shows_files(files: Seq<GuiFileIndexing>, entries: Seq<FileIndexing>) -> bool {
    &&& files.len() == entries.len()
    &&& forall|i: int|
        0 <= i < entries.len() ==> #[trigger] files[i] == (GuiFileIndexing {
            id: entries[i].id as usize,
            name: entries[i].name,
            size: entries[i].size,
            path: entries[i].path,
            is_dir: entries[i].is_dir,
            parent_dir: entries[i].parent_dir,
        })
}

/// The files of another device, in the order of its index.
pub fn get_remote_device_files(fetched: Result<DeviceIndex, AppError>) -> (r: Result<
    Vec<GuiFileIndexing>,
    String,
>)
    ensures
        match fetched {
            Ok(entries) => {
                &&& r is Ok
                &&& shows_files(r->Ok_0@, entries.files@)
                &&& r->Ok_0@.len() == entries.files@.len()
                &&& forall|i: int|
                    0 <= i < entries.files@.len() && entries.files@[i].id <= usize::MAX
                        ==> (#[trigger] r->Ok_0@[i])@ == entries.files@[i]@
            },
            Err(e) => r is Err && r->Err_0@ == e.spec_message(),
        },
{
    match fetched {
        Ok(entries) => {
            let ghost all = entries.files@;
            let mut files: Vec<GuiFileIndexing> = Vec::new();
            for f in it: entries.files
                invariant
                    it.seq() == all,
                    shows_files(files@, all.take(it.index())),
            {
                files.push(GuiFileIndexing::from(f));
            }
            assert(all.take(all.len() as int) =~= all);
            Ok(files)
        },
        Err(e) => Err(e.message()),
    }
}

/// A file that is converted to be shown says what it said, as long as its id fits in a machine
/// word.
pub proof fn law_converted_file_says_the_same(f: FileIndexing)
    requires
        f.id <= usize::MAX,
    ensures
        ({
            let shown = <GuiFileIndexing as vstd::std_specs::convert::FromSpec<
                FileIndexing,
            >>::from_spec(f);
            &&& shown.id == f.id
            &&& shown.name@ == f.name@
            &&& shown.size == f.size
            &&& shown.path@ == f.path@
            &&& shown.is_dir == f.is_dir
            &&& index::view_option(shown.parent_dir) == index::view_option(f.parent_dir)
        }),
{
}

/// A device that is converted to be shown says what it said.
pub proof fn law_converted_device_says_the_same(d: DeviceInfo)
    ensures
        ({
            let shown = <GuiDeviceInfo as vstd::std_specs::convert::FromSpec<
                DeviceInfo,
            >>::from_spec(d);
            shown.index == d.index && shown.name@ == d.name@ && shown.ip@ == d.ip@
        }),
{
}

/// The files of another device are shown one by one, in order, each with the id, the name, the
/// size, the path, the kind and the parent that it has there; and the request that is made of a
/// shown id asks for that very file.
pub proof fn law_shown_files_are_those_of_the_index(
    files: Seq<GuiFileIndexing>,
    entries: Seq<FileIndexing>,
    i: int,
)
    requires
        shows_files(files, entries),
        0 <= i < entries.len(),
        entries[i].id <= usize::MAX,
    ensures
        files.len() == entries.len(),
        files[i].id == entries[i].id,
        files[i].name@ == entries[i].name@,
        files[i].size == entries[i].size,
        files[i].path@ == entries[i].path@,
        files[i].is_dir == entries[i].is_dir,
        index::view_option(files[i].parent_dir) == index::view_option(entries[i].parent_dir),
        wire::file_request(files[i].id as u64) == wire::file_request(entries[i].id),
        wire::be_value(wire::file_request(files[i].id as u64).skip(1)) == entries[i].id,
{
    wire::law_file_request_round_trip(files[i].id as u64);
}

/// The bytes that ask for a shown file.
pub fn download_request(file_id: usize) -> (r: Vec<u8>)
    ensures
        r@ == wire::file_request(file_id as u64),
        r@.len() == 9,
        wire::be_value(r@.skip(1)) == file_id,
{
    proof {
        wire::law_file_request_round_trip(file_id as u64);
    }
    wire::encode_file_request(file_id as u64)
}

/// Asking for a file by the id under which it is shown asks for the id that it has, as long
/// as that fits in a machine word.
pub proof fn law_shown_id_is_requested(f: FileIndexing)
    requires
        f.id <= usize::MAX,
    ensures
        wire::file_request((f.id as usize) as u64) == wire::file_request(f.id),
{
}

/// The state of the server behind the interface.
pub struct GuiServer {
    running: bool,
    starting: bool,
    listening: bool,
    live: Option<AppConfig>,
    pending: Option<PairingRequest>,
}

/// What the start of the server needs next.
#[derive(Debug)]
pub enum StartStep {
    /// It is running already; say this.
    Running(String),
    /// The identity of this device.
    NeedsIdentity,
}

/// A server that can be started: its identity, and what to say once it runs.
#[derive(Debug)]
pub struct StartedServer {
    pub identity: Identity,
    pub message: String,
}

/// The settings of a server, if it has any.
pub open spec fn view_live(live: Option<AppConfig>) -> Option<ConfigView> {
    match live {
        Some(c) => Some(c@),
        None => None,
    }
}

/// The request that waits for an answer, if there is one.
pub open spec fn view_pending(pending: Option<PairingRequest>) -> Option<RequestView> {
    match pending {
        Some(q) => Some(q@),
        None => None,
    }
}

/// What is said of a server.
#[verifier::ext_equal]
pub struct GuiServerView {
    /// Whether the server runs.
    pub running: bool,
    /// Whether settings were loaded for a server that does not run yet.
    pub starting: bool,
    /// Whether someone wants to hear of pairing requests.
    pub listening: bool,
    /// The settings that the server works with.
    pub live: Option<ConfigView>,
    /// The last pairing request, if it was not answered yet.
    pub pending: Option<RequestView>,
}

impl GuiServerView {
    /// Once this request came in.
    pub open spec fn requested(self, request: RequestView) -> GuiServerView {
        GuiServerView { pending: Some(request), ..self }
    }

    /// Once the request that waited was answered.
    pub open spec fn answered(self) -> GuiServerView {
        GuiServerView { pending: None, ..self }
    }

    /// The device that is trusted by this answer, if there is one.
    pub open spec fn trusted_by(self, accept: bool) -> Option<RequestView> {
        if accept {
            self.pending
        } else {
            None
        }
    }
}

/// An answer is about the last request, counts once, and trusts nobody unless it accepts.
pub proof fn law_answer_is_about_the_last_request(
    s: GuiServerView,
    first: RequestView,
    last: RequestView,
)
    ensures
        s.requested(first).requested(last).trusted_by(true) == Some(last),
        s.requested(first).requested(last).trusted_by(false) is None,
        s.requested(first).requested(last).answered().trusted_by(true) is None,
{
}

impl View for GuiServer {
    type V = GuiServerView;

    closed spec fn view(&self) -> GuiServerView {
        GuiServerView {
            running: self.running,
            starting: self.starting,
            listening: self.listening,
            live: view_live(self.live),
            pending: view_pending(self.pending),
        }
    }
}

impl GuiServer {
    /// A server is about to start only with settings.
    pub closed spec fn wf(&self) -> bool {
        self.starting ==> self.live is Some
    }

    /// No server, no settings, nobody who listens and nothing to answer.
    pub fn new() -> (r: GuiServer)
        ensures
            r.wf(),
            r@ == (GuiServerView {
                running: false,
                starting: false,
                listening: false,
                live: None,
                pending: None,
            }),
    {
        GuiServer { running: false, starting: false, listening: false, live: None, pending: None }
    }

    /// The settings that the server works with.
    pub fn live(&self) -> (r: Option<AppConfig>)
        ensures
            view_live(r) == self@.live,
    {
        match &self.live {
            Some(c) => Some(c.clone()),
            None => None,
        }
    }

    /// Notes that someone wants to hear of pairing requests.
    pub fn listen(&mut self)
        requires
            old(self).wf(),
        ensures
            final(self).wf(),
            final(self)@ == (GuiServerView { listening: true, ..old(self)@ }),
    {
        self.listening = true;
    }

    /// Begins to start the server, with the settings that were loaded. A server that runs
    /// already goes on with its own.
    pub fn start_gui_server(&mut self, loaded: Result<AppConfig, AppError>) -> (r: Result<
        StartStep,
        String,
    >)
        requires
            old(self).wf(),
        ensures
            final(self).wf(),
            match loaded {
                Err(e) => {
                    &&& r is Err
                    &&& r->Err_0@ == e.spec_message()
                    &&& final(self)@ == old(self)@
                },
                Ok(c) => if old(self)@.running {
                    &&& r matches Ok(StartStep::Running(message))
                    &&& message@ == "Server running as: "@ + c.device_name@
                    &&& final(self)@ == old(self)@
                } else {
                    &&& r is Ok
                    &&& r->Ok_0 is NeedsIdentity
                    &&& final(self)@ == (GuiServerView {
                        starting: true,
                        live: Some(c@),
                        ..old(self)@
                    })
                },
            },
    {
        match loaded {
            Err(e) => Err(e.message()),
            Ok(c) => if self.running {
                Ok(
                    StartStep::Running(
                        text::concat("Server running as: ", c.device_name.as_str()),
                    ),
                )
            } else {
                self.live = Some(c);
                self.starting = true;
                Ok(StartStep::NeedsIdentity)
            },
        }
    }

    /// Goes on with the start of the server once its identity was made. Settings that were
    /// loaded stay, also where the identity is missing.
    pub fn identified(&mut self, made: Result<Identity, AppError>) -> (r: Result<
        StartedServer,
        String,
    >)
        requires
            old(self).wf(),
            old(self)@.starting,
        ensures
            final(self).wf(),
            match made {
                Err(e) => {
                    &&& r is Err
                    &&& r->Err_0@ == e.spec_message()
                    &&& final(self)@ == (GuiServerView { starting: false, ..old(self)@ })
                },
                Ok(identity) => {
                    &&& r is Ok
                    &&& r->Ok_0.identity == identity
                    &&& old(self)@.live is Some
                    &&& r->Ok_0.message@ == "Server started as: "@ + old(self)@.live->0.device_name
                    &&& final(self)@ == (GuiServerView {
                        starting: false,
                        running: true,
                        ..old(self)@
                    })
                },
            },
    {
        self.starting = false;
        match made {
            Err(e) => Err(e.message()),
            Ok(identity) => {
                self.running = true;
                let message = match &self.live {
                    Some(c) => text::concat("Server started as: ", c.device_name.as_str()),
                    None => "Server started as: ".to_owned(),
                };
                Ok(StartedServer { identity, message })
            },
        }
    }

    /// Stops the server, and says whether there was one to stop.
    pub fn stop_gui_server(&mut self) -> (r: bool)
        requires
            old(self).wf(),
        ensures
            final(self).wf(),
            r == old(self)@.running,
            final(self)@ == (GuiServerView { running: false, ..old(self)@ }),
    {
        let r = self.running;
        self.running = false;
        r
    }

    /// Keeps a pairing request until it is answered, in place of an earlier one, and shows it
    /// if someone wants to hear of it.
    pub fn pairing_requested(&mut self, request: PairingRequest) -> (r: Option<GuiPairingEvent>)
        requires
            old(self).wf(),
        ensures
            final(self).wf(),
            final(self)@ == old(self)@.requested(request@),
            r is Some <==> old(self)@.listening,
            r is Some ==> r->0@ == request@,
    {
        self.pending = Some(request.clone());
        if self.listening {
            Some(
                GuiPairingEvent {
                    device_name: request.device_name,
                    fingerprint: request.fingerprint,
                },
            )
        } else {
            None
        }
    }

    /// Answers the request that waits, and gives the device to be trusted if it was accepted.
    pub fn respond_pairing_decision(&mut self, accept: bool) -> (r: Option<PairingRequest>)
        requires
            old(self).wf(),
        ensures
            final(self).wf(),
            final(self)@ == old(self)@.answered(),
            view_pending(r) == old(self)@.trusted_by(accept),
    {
        let request = self.pending.take();
        if accept {
            request
        } else {
            None
        }
    }

    /// Once new settings were stored, shares their folders and leaves the other settings of the
    /// server alone.
    pub fn share_roots_stored(&mut self, stored: Result<AppConfig, AppError>) -> (r: Result<
        (),
        String,
    >)
        requires
            old(self).wf(),
        ensures
            final(self).wf(),
            match stored {
                Err(e) => {
                    &&& r is Err
                    &&& r->Err_0@ == e.spec_message()
                    &&& final(self)@ == old(self)@
                },
                Ok(c) => {
                    &&& r is Ok
                    &&& final(self)@ == (GuiServerView {
                        live: match old(self)@.live {
                            Some(live) => Some(
                                (ConfigView { share_roots: c@.share_roots, ..live }),
                            ),
                            None => None,
                        },
                        ..old(self)@
                    })
                },
            },
    {
        match stored {
            Err(e) => Err(e.message()),
            Ok(c) => {
                match self.live.take() {
                    Some(live) => {
                        let mut live = live;
                        live.set_share_roots(&c.share_roots);
                        self.live = Some(live);
                    },
                    None => {},
                }
                Ok(())
            },
        }
    }

    /// Once new settings were stored, takes over their download folder and leaves the other
    /// settings of the server alone.
    pub fn download_directory_stored(&mut self, stored: Result<AppConfig, AppError>) -> (r: Result<
        (),
        String,
    >)
        requires
            old(self).wf(),
        ensures
            final(self).wf(),
            match stored {
                Err(e) => {
                    &&& r is Err
                    &&& r->Err_0@ == e.spec_message()
                    &&& final(self)@ == old(self)@
                },
                Ok(c) => {
                    &&& r is Ok
                    &&& final(self)@ == (GuiServerView {
                        live: match old(self)@.live {
                            Some(live) => Some(
                                (ConfigView { download_dir: c@.download_dir, ..live }),
                            ),
                            None => None,
                        },
                        ..old(self)@
                    })
                },
            },
    {
        match stored {
            Err(e) => Err(e.message()),
            Ok(c) => {
                match self.live.take() {
                    Some(live) => {
                        let mut live = live;
                        live.set_download_dir(c.download_dir.as_str());
                        self.live = Some(live);
                    },
                    None => {},
                }
                Ok(())
            },
        }
    }
}

/// The shared folders.
pub fn get_share_roots(loaded: Result<AppConfig, AppError>) -> (r: Result<Vec<String>, String>)
    ensures
        match loaded {
            Ok(c) => r is Ok && config::view_texts(r->Ok_0@) == c@.share_roots,
            Err(e) => r is Err && r->Err_0@ == e.spec_message(),
        },
{
    match loaded {
        Ok(c) => Ok(c.share_roots),
        Err(e) => Err(e.message()),
    }
}

/// The settings to be stored so that these folders are shared.
pub fn update_share_roots(loaded: Result<AppConfig, AppError>, new_roots: &Vec<String>) -> (r:
    Result<AppConfig, String>)
    ensures
        match loaded {
            Ok(c) => {
                &&& r is Ok
                &&& r->Ok_0@ == (ConfigView {
                    share_roots: config::view_texts(new_roots@),
                    ..c@
                })
            },
            Err(e) => r is Err && r->Err_0@ == e.spec_message(),
        },
{
    match loaded {
        Ok(c) => {
            let mut c = c;
            c.set_share_roots(new_roots);
            Ok(c)
        },
        Err(e) => Err(e.message()),
    }
}

/// The folder for downloads.
pub fn get_download_directory(loaded: Result<AppConfig, AppError>) -> (r: Result<String, String>)
    ensures
        match loaded {
            Ok(c) => r is Ok && r->Ok_0@ == c@.download_dir,
            Err(e) => r is Err && r->Err_0@ == e.spec_message(),
        },
{
    match loaded {
        Ok(c) => Ok(c.download_dir),
        Err(e) => Err(e.message()),
    }
}

/// The settings to be stored so that downloads go to this folder.
pub fn update_download_directory(loaded: Result<AppConfig, AppError>, new_dir: &str) -> (r: Result<
    AppConfig,
    String,
>)
    ensures
        match loaded {
            Ok(c) => {
                &&& r is Ok
                &&& r->Ok_0@ == (ConfigView { download_dir: new_dir@, ..c@ })
            },
            Err(e) => r is Err && r->Err_0@ == e.spec_message(),
        },
{
    match loaded {
        Ok(c) => {
            let mut c = c;
            c.set_download_dir(new_dir);
            Ok(c)
        },
        Err(e) => Err(e.message()),
    }
}

/// Devices that answered come first, in order; each that did not follows as `Offline`.
pub proof fn law_absent_devices_are_offline(active: Seq<DeviceView>, names: Seq<Seq<char>>, i: int)
    ensures
        shown(active, names).len() == active.len() + absent(active, names).len(),
        active.len() <= i < shown(active, names).len() ==> shown(active, names)[i].ip
            == "Offline"@ && shown(active, names)[i].name == absent(active, names)[i
            - active.len()],
{
}

/// Names are looked for one by one, in order: one is absent exactly if no device of that very name
/// answered.
pub proof fn law_absent_names(
    active: Seq<DeviceView>,
    name: Seq<char>,
    a: Seq<Seq<char>>,
    b: Seq<Seq<char>>,
)
    ensures
        absent(active, a + b) == absent(active, a) + absent(active, b),
        (exists|i: int| 0 <= i < active.len() && (#[trigger] active[i]).name == name) ==> absent(
            active,
            seq![name],
        ).len() == 0,
        (forall|i: int| 0 <= i < active.len() ==> (#[trigger] active[i]).name != name) ==> absent(
            active,
            seq![name],
        ) == seq![name],
{
    reveal(Seq::filter);
    let missing = |n: Seq<char>| !is_active(active, n);
    Seq::filter_distributes_over_add(a, b, missing);
    let one = seq![name];
    assert(one.drop_last() =~= Seq::<Seq<char>>::empty());
    assert(one.drop_last().filter(missing) =~= Seq::<Seq<char>>::empty());
    assert(one.last() == name);
    if is_active(active, name) {
        assert(one.filter(missing) =~= Seq::<Seq<char>>::empty());
    } else {
        assert(one.filter(missing) =~= seq![name]);
    }
}

/// What is shown says all that it holds.
pub proof fn law_shown_things_say_what_they_hold(
    d: GuiDeviceInfo,
    f: GuiFileIndexing,
    e: GuiPairingEvent,
    devices: Seq<GuiDeviceInfo>,
    i: int,
)
    ensures
        d@.index == d.index,
        d@.name == d.name@,
        d@.ip == d.ip@,
        f@.id == f.id,
        f@.name == f.name@,
        f@.size == f.size,
        f@.path == f.path@,
        f@.is_dir == f.is_dir,
        f.parent_dir is None <==> f@.parent_dir is None,
        f.parent_dir is Some ==> f@.parent_dir == Some(f.parent_dir->0@),
        e@.device_name == e.device_name@,
        e@.fingerprint == e.fingerprint@,
        view_shown(devices).len() == devices.len(),
        0 <= i < devices.len() ==> view_shown(devices)[i] == devices[i]@,
{
}

/// A request that comes in is the one that waits, and an answer takes it away; nothing else about
/// the server changes. Whoever waits is trusted by an answer that accepts, and by no other.
pub proof fn law_requests_change_nothing_else(s: GuiServerView, q: RequestView)
    ensures
        s.requested(q).pending == Some(q),
        s.requested(q).running == s.running,
        s.requested(q).starting == s.starting,
        s.requested(q).listening == s.listening,
        s.requested(q).live == s.live,
        s.answered().pending is None,
        s.answered().running == s.running,
        s.answered().starting == s.starting,
        s.answered().listening == s.listening,
        s.answered().live == s.live,
        s.trusted_by(true) == s.pending,
        s.trusted_by(false) is None,
{
}

/// Settings and requests of a server are those that it holds.
pub proof fn law_server_says_what_it_holds(c: AppConfig, q: PairingRequest)
    ensures
        view_live(None) is None,
        view_live(Some(c)) == Some(c@),
        view_pending(None) is None,
        view_pending(Some(q)) == Some(q@),
{
}

/// Folders that were set are those that are shared then, in order; all other settings stay.
pub proof fn law_set_folders_are_shared(
    before: AppConfig,
    roots: &Vec<String>,
    after: AppConfig,
    r: Result<Vec<String>, String>,
    dir: Result<String, String>,
    i: int,
)
    requires
        call_ensures(
            update_share_roots,
            (Ok::<AppConfig, AppError>(before), roots),
            Ok::<AppConfig, String>(after),
        ),
        call_ensures(get_share_roots, (Ok::<AppConfig, AppError>(after),), r),
        call_ensures(get_download_directory, (Ok::<AppConfig, AppError>(after),), dir),
    ensures
        r is Ok,
        r->Ok_0@.len() == roots@.len(),
        0 <= i < roots@.len() ==> r->Ok_0@[i]@ == roots@[i]@,
        dir is Ok,
        dir->Ok_0@ == before.download_dir@,
        after.device_name@ == before.device_name@,
        after.broadcast_addr@ == before.broadcast_addr@,
{
    let shared = config::view_texts(r->Ok_0@);
    assert(shared == config::view_texts(roots@));
    assert(shared.len() == r->Ok_0@.len());
    if 0 <= i < roots@.len() {
        assert(shared[i] == r->Ok_0@[i]@);
        assert(config::view_texts(roots@)[i] == roots@[i]@);
    }
}

/// The folder for downloads that was set is the one that is used then; all other settings stay.
pub proof fn law_set_folder_is_used(
    before: AppConfig,
    new_dir: &str,
    after: AppConfig,
    r: Result<String, String>,
    i: int,
)
    requires
        call_ensures(
            update_download_directory,
            (Ok::<AppConfig, AppError>(before), new_dir),
            Ok::<AppConfig, String>(after),
        ),
        call_ensures(get_download_directory, (Ok::<AppConfig, AppError>(after),), r),
    ensures
        r is Ok,
        r->Ok_0@ == new_dir@,
        after.device_name@ == before.device_name@,
        after.broadcast_addr@ == before.broadcast_addr@,
        after.share_roots@.len() == before.share_roots@.len(),
        0 <= i < before.share_roots@.len() ==> after.share_roots@[i]@ == before.share_roots@[i]@,
{
    assert(after@.share_roots == before@.share_roots);
    assert(after@.share_roots.len() == after.share_roots@.len());
    assert(before@.share_roots.len() == before.share_roots@.len());
    if 0 <= i < before.share_roots@.len() {
        assert(after@.share_roots[i] == after.share_roots@[i]@);
        assert(before@.share_roots[i] == before.share_roots@[i]@);
    }
}

/// The request for a shown file is the byte 3 and the eight bytes of its id.
pub proof fn law_shown_file_is_asked_for(f: FileIndexing, r: Vec<u8>)
    requires
        f.id <= usize::MAX,
        call_ensures(download_request, (f.id as usize,), r),
    ensures
        r@.len() == 9,
        r@[0] == 3,
        wire::be_value(r@.skip(1)) == f.id,
        r@ == wire::file_request(f.id),
{
    wire::law_file_request_round_trip(f.id);
}

/// A server that is started with settings and an identity runs with these, and says its name; once
/// stopped it does not run. Nothing else about it changes.
pub proof fn law_server_starts_and_stops(
    starting: &mut GuiServer,
    c: AppConfig,
    begun: Result<StartStep, String>,
    identified: &mut GuiServer,
    identity: Identity,
    started: Result<StartedServer, String>,
    stopped: &mut GuiServer,
    ran: bool,
)
    requires
        call_ensures(
            GuiServer::start_gui_server,
            (starting, Ok::<AppConfig, AppError>(c)),
            begun,
        ),
        !old(starting)@.running,
        old(identified)@ == final(starting)@,
        call_ensures(
            GuiServer::identified,
            (identified, Ok::<Identity, AppError>(identity)),
            started,
        ),
        old(stopped)@ == final(identified)@,
        call_ensures(GuiServer::stop_gui_server, (stopped,), ran),
    ensures
        begun is Ok && begun->Ok_0 is NeedsIdentity,
        !final(starting)@.running,
        started is Ok,
        started->Ok_0.identity == identity,
        started->Ok_0.message@ == "Server started as: "@ + c.device_name@,
        final(identified)@.running,
        final(identified)@.live == Some(c@),
        final(identified)@.listening == old(starting)@.listening,
        final(identified)@.pending == old(starting)@.pending,
        ran,
        !final(stopped)@.running,
        final(stopped)@.live == Some(c@),
        final(stopped)@.listening == old(starting)@.listening,
        final(stopped)@.pending == old(starting)@.pending,
{
}

/// A server that runs is not started again and keeps its settings.
pub proof fn law_running_server_goes_on(
    server: &mut GuiServer,
    c: AppConfig,
    r: Result<StartStep, String>,
)
    requires
        old(server)@.running,
        call_ensures(GuiServer::start_gui_server, (server, Ok::<AppConfig, AppError>(c)), r),
    ensures
        final(server)@ == old(server)@,
        r is Ok && r->Ok_0 is Running,
        r->Ok_0->Running_0@ == "Server running as: "@ + c.device_name@,
{
}

/// Whatever fails, the failure is told and nothing starts.
pub proof fn law_failed_start_is_told(
    server: &mut GuiServer,
    e: AppError,
    r: Result<StartStep, String>,
    other: &mut GuiServer,
    f: AppError,
    s: Result<StartedServer, String>,
)
    requires
        call_ensures(GuiServer::start_gui_server, (server, Err::<AppConfig, AppError>(e)), r),
        call_ensures(GuiServer::identified, (other, Err::<Identity, AppError>(f)), s),
    ensures
        r is Err && r->Err_0@ == e.spec_message(),
        final(server)@ == old(server)@,
        s is Err && s->Err_0@ == f.spec_message(),
        final(other)@.running == old(other)@.running,
        final(other)@.live == old(other)@.live,
        final(other)@.pending == old(other)@.pending,
        final(other)@.listening == old(other)@.listening,
{
}

/// A request that comes in is shown to whoever listens, whole, and is the one that an answer is
/// about: accepted, its device is to be trusted; refused, nobody is.
pub proof fn law_answered_request_is_the_one_that_came(
    server: &mut GuiServer,
    q: PairingRequest,
    shown: Option<GuiPairingEvent>,
    later: &mut GuiServer,
    accept: bool,
    r: Option<PairingRequest>,
)
    requires
        call_ensures(GuiServer::pairing_requested, (server, q), shown),
        old(later)@ == final(server)@,
        call_ensures(GuiServer::respond_pairing_decision, (later, accept), r),
    ensures
        old(server)@.listening <==> shown is Some,
        shown is Some ==> shown->0.device_name@ == q.device_name@ && shown->0.fingerprint@
            == q.fingerprint@,
        accept ==> r is Some && r->0.device_name@ == q.device_name@ && r->0.fingerprint@
            == q.fingerprint@,
        !accept ==> r is None,
        final(later)@.pending is None,
        final(later)@.running == old(server)@.running,
        final(later)@.live == old(server)@.live,
{
    assert(view_pending(r) == if accept {
        Some(q@)
    } else {
        None
    });
    if accept {
        assert(r->0@ == q@);
    }
    if shown is Some {
        assert(shown->0@ == q@);
    }
}

/// Settings that were stored are taken over by a server that has settings: the shared folders by
/// one call, the folder for downloads by another; its other settings stay.
pub proof fn law_stored_settings_are_taken_over(
    server: &mut GuiServer,
    c: AppConfig,
    r: Result<(), String>,
    other: &mut GuiServer,
    s: Result<(), String>,
)
    requires
        old(server)@.live is Some,
        old(other)@.live is Some,
        call_ensures(GuiServer::share_roots_stored, (server, Ok::<AppConfig, AppError>(c)), r),
        call_ensures(
            GuiServer::download_directory_stored,
            (other, Ok::<AppConfig, AppError>(c)),
            s,
        ),
    ensures
        r is Ok,
        final(server)@.live is Some,
        final(server)@.live->0.share_roots == config::view_texts(c.share_roots@),
        final(server)@.live->0.download_dir == old(server)@.live->0.download_dir,
        final(server)@.live->0.device_name == old(server)@.live->0.device_name,
        final(server)@.live->0.broadcast_addr == old(server)@.live->0.broadcast_addr,
        final(server)@.running == old(server)@.running,
        final(server)@.pending == old(server)@.pending,
        s is Ok,
        final(other)@.live is Some,
        final(other)@.live->0.download_dir == c.download_dir@,
        final(other)@.live->0.share_roots == old(other)@.live->0.share_roots,
        final(other)@.live->0.device_name == old(other)@.live->0.device_name,
        final(other)@.live->0.broadcast_addr == old(other)@.live->0.broadcast_addr,
        final(other)@.running == old(other)@.running,
        final(other)@.pending == old(other)@.pending,
{
}

/// The settings of a server are those that it tells.
pub proof fn law_server_tells_its_settings(server: GuiServer, r: Option<AppConfig>)
    requires
        call_ensures(GuiServer::live, (&server,), r),
    ensures
        r is Some <==> server@.live is Some,
        r is Some ==> r->0.device_name@ == server@.live->0.device_name && r->0.download_dir@
            == server@.live->0.download_dir && r->0.broadcast_addr@
            == server@.live->0.broadcast_addr && config::view_texts(r->0.share_roots@)
            == server@.live->0.share_roots,
{
}

/// The devices that are shown are those that answered, each as it answered, and then every trusted
/// one that did not; nothing is shown only where there are more than 254.
pub proof fn law_network_is_shown(
    active: Vec<DeviceInfo>,
    known: PeersStorage,
    r: Option<Vec<GuiDeviceInfo>>,
    i: int,
    name: Seq<char>,
)
    requires
        call_ensures(scan_network_devices, (active, &known), r),
    ensures
        r is None ==> active@.len() + known.names().len() > 254,
        r is Some ==> r->0@.len() >= active@.len(),
        r is Some && 0 <= i < r->0@.len() ==> r->0@[i].index == i + 1,
        r is Some && 0 <= i < active@.len() ==> r->0@[i].name@ == active@[i].name@ && r->0@[i].ip@
            == active@[i].ip@,
        r is Some && active@.len() <= i < r->0@.len() ==> r->0@[i].ip@ == "Offline"@
            && known@.dom().contains(r->0@[i].name@),
        r is Some && known@.dom().contains(name) ==> exists|k: int|
            0 <= k < r->0@.len() && (#[trigger] r->0@[k]).name@ == name,
{
    let found = discovery::view_devices(active@);
    let names = known.names();
    let all = shown(found, names);
    lemma_absent_is_short(found, names);
    law_every_device_is_shown(found, names);
    assert(found.len() == active@.len());
    if r is Some {
        assert(view_shown(r->0@).len() == r->0@.len());
        if 0 <= i < r->0@.len() {
            assert(view_shown(r->0@)[i] == r->0@[i]@);
        }
        if 0 <= i < active@.len() {
            assert(found[i] == active@[i]@);
        }
        if active@.len() <= i < r->0@.len() {
            law_absent_devices_are_trusted(found, names, i);
        }
        if known@.dom().contains(name) {
            assert(names.contains(name));
            assert(is_active(all, name));
            let k = choose|k: int| 0 <= k < all.len() && (#[trigger] all[k]).name == name;
            assert(view_shown(r->0@)[k] == r->0@[k]@);
            assert(r->0@[k].name@ == name);
        }
    }
}

proof fn lemma_absent_is_short(active: Seq<DeviceView>, names: Seq<Seq<char>>)
    ensures
        absent(active, names).len() <= names.len(),
    decreases names.len(),
{
    reveal(Seq::filter);
    if names.len() > 0 {
        lemma_absent_is_short(active, names.drop_last());
    }
}

} // verus!
