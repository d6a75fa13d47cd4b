//! Finding other devices by broadcast.
use crate::text;
use vstd::prelude::*;

verus! {

/// What a device broadcasts to find others.
pub open spec fn query() -> Seq<char> {
    "WHO IS THE SERVER?"@
}

/// What the answer to a broadcast starts with; the name of the device follows.
pub open spec fn reply_prefix() -> Seq<char> {
    "DM1:"@
}

/// The bytes that a device broadcasts to find others.
pub fn discovery_query() -> (r: Vec<u8>)
    ensures
        r@ == vstd::utf8::encode_utf8(query()),
{
    "WHO IS THE SERVER?".as_bytes_vec()
}

/// Whether a message, read as text, asks for devices.
pub open spec fn is_query(message: Seq<char>) -> bool {
    text::trimmed(message) == query()
}

/// The answer of a device: its name behind the prefix, or `Unknown` where it is not known.
pub open spec fn reply_text(device_name: Option<&str>) -> Seq<char> {
    reply_prefix() + match device_name {
        Some(name) => name@,
        None => "Unknown"@,
    }
}

/// The answer to a message, if it asks for devices.
pub fn reply_to(message: &str, device_name: Option<&str>) -> (r: Option<Vec<u8>>)
    ensures
        match r {
            Some(bytes) => {
                &&& is_query(message@)
                &&& bytes@ == vstd::utf8::encode_utf8(reply_text(device_name))
            },
            None => !is_query(message@),
        },
{
    let trimmed = text::trim(message);
    if text::text_eq(trimmed.as_str(), "WHO IS THE SERVER?") {
        let name: &str = match device_name {
            Some(name) => name,
            None => "Unknown",
        };
        Some(text::concat("DM1:", name).as_str().as_bytes_vec())
    } else {
        None
    }
}

/// The answer to a datagram, if it asks for devices.
pub fn discovery_reply(datagram: &[u8], device_name: Option<&str>) -> (r: Option<Vec<u8>>)
    ensures
        match r {
            Some(bytes) => {
                &&& is_query(text::utf8_lossy(datagram@))
                &&& bytes@ == vstd::utf8::encode_utf8(reply_text(device_name))
            },
            None => !is_query(text::utf8_lossy(datagram@)),
        },
        vstd::utf8::valid_utf8(datagram@) ==> (r is Some <==> is_query(
            vstd::utf8::decode_utf8(datagram@),
        )),
{
    let message = text::from_utf8_lossy(datagram);
    reply_to(message.as_str(), device_name)
}

/// The name of the device that sent a message, if the message is an answer.
pub open spec fn answered_name(message: Seq<char>) -> Option<Seq<char>> {
    if text::has_prefix(text::trimmed(message), reply_prefix()) {
        Some(text::trimmed(message).skip(reply_prefix().len() as int))
    } else {
        None
    }
}

/// The name of the device that sent a message, if the message is an answer.
pub fn name_in(message: &str) -> (r: Option<String>)
    ensures
        match answered_name(message@) {
            Some(name) => r is Some && r->0@ == name,
            None => r is None,
        },
{
    let trimmed = text::trim(message);
    text::strip_prefix(trimmed.as_str(), "DM1:")
}

/// A device that answered.
#[derive(Debug)]
pub struct DeviceInfo {
    pub index: u8,
    pub name: String,
    pub ip: String,
}

/// What is said of a device.
#[verifier::ext_equal]
pub struct DeviceView {
    pub index: nat,
    pub name: Seq<char>,
    pub ip: Seq<char>,
}

impl View for DeviceInfo {
    type V = DeviceView;

    open spec fn view(&self) -> DeviceView {
        DeviceView { index: self.index as nat, name: self.name@, ip: self.ip@ }
    }
}

impl Clone for DeviceInfo {
    fn clone(&self) -> (r: Self)
        ensures
            r@ == self@,
    {
        DeviceInfo { index: self.index, name: self.name.clone(), ip: self.ip.clone() }
    }
}

/// What a list of devices says.
pub open spec fn view_devices(devices: Seq<DeviceInfo>) -> Seq<DeviceView> {
    devices.map_values(|d: DeviceInfo| d@)
}

/// What can come of waiting for an answer.
#[derive(Debug)]
pub enum DiscoveryEvent {
    /// A message, read as text, from an address.
    Message { text: String, from: String },
    /// An error of the socket, with the code of the operating system if it has one.
    Failure { os_code: Option<i32> },
    /// No answer in time.
    Silence,
}

/// How the search goes on.
#[derive(Clone, Copy, Debug, PartialEq, Eq, Structural)]
pub enum DiscoveryStep {
    /// Wait for another answer.
    Continue,
    /// The search is over.
    Finished,
    /// There are more devices than indices.
    Overflow,
}

/// The code of the error for a datagram that is larger than its buffer.
pub const OVERSIZED_DATAGRAM: i32 = 10040;

/// The port on which devices listen for broadcasts.
pub const DISCOVERY_PORT: u16 = 8888;

/// How many devices can be told apart by their indices.
pub const MAX_DEVICES: usize = 254;

/// A search for devices: those that answered, in order, counted from one.
pub struct DiscoverySession {
    devices: Vec<DeviceInfo>,
}

impl DiscoverySession {
    /// The devices that answered.
    pub closed spec fn devices(&self) -> Seq<DeviceView> {
        view_devices(self.devices@)
    }

    /// No more devices than indices.
    pub closed spec fn wf(&self) -> bool {
        self.devices@.len() <= MAX_DEVICES
    }

    /// A search that has found nothing yet.
    pub fn new() -> (r: DiscoverySession)
        ensures
            r.wf(),
            r.devices() == Seq::<DeviceView>::empty(),
    {
        let r = DiscoverySession { devices: Vec::new() };
        assert(r.devices() =~= Seq::<DeviceView>::empty());
        r
    }

    /// What comes of adding a device that answered.
    pub open spec fn adds(&self, name: Seq<char>, ip: Seq<char>, after: DiscoverySession, step: DiscoveryStep) -> bool {
        if self.devices().len() < MAX_DEVICES {
            &&& step == DiscoveryStep::Continue
            &&& after.devices() == self.devices().push(
                DeviceView { index: self.devices().len() + 1, name, ip },
            )
        } else {
            &&& step == DiscoveryStep::Overflow
            &&& after.devices() == self.devices()
        }
    }

    /// Adds a device under the next index, if there is one.
    pub fn add(&mut self, name: String, ip: String) -> (r: DiscoveryStep)
        requires
            old(self).wf(),
        ensures
            final(self).wf(),
            old(self).adds(name@, ip@, *final(self), r),
    {
        if self.devices.len() >= MAX_DEVICES {
            return DiscoveryStep::Overflow;
        }
        let index: u8 = (self.devices.len() + 1) as u8;
        let ghost shown = DeviceView { index: index as nat, name: name@, ip: ip@ };
        self.devices.push(DeviceInfo { index, name, ip });
        assert(self.devices() =~= old(self).devices().push(shown));
        DiscoveryStep::Continue
    }

    /// What comes of an event: an answer adds a device, anything else that was received and an
    /// oversized datagram are passed over, and all else ends the search.
    pub open spec fn steps_to(&self, event: DiscoveryEvent, after: DiscoverySession, step: DiscoveryStep) -> bool {
        match event {
            DiscoveryEvent::Message { text, from } => match answered_name(text@) {
                Some(name) => self.adds(name, from@, after, step),
                None => {
                    &&& step == DiscoveryStep::Continue
                    &&& after.devices() == self.devices()
                },
            },
            DiscoveryEvent::Failure { os_code } => {
                &&& step == if os_code == Some(OVERSIZED_DATAGRAM) {
                    DiscoveryStep::Continue
                } else {
                    DiscoveryStep::Finished
                }
                &&& after.devices() == self.devices()
            },
            DiscoveryEvent::Silence => {
                &&& step == DiscoveryStep::Finished
                &&& after.devices() == self.devices()
            },
        }
    }

    /// Takes what came of waiting for an answer, and says how the search goes on.
    pub fn on_event(&mut self, event: DiscoveryEvent) -> (r: DiscoveryStep)
        requires
            old(self).wf(),
        ensures
            final(self).wf(),
            old(self).steps_to(event, *final(self), r),
    {
        match event {
            DiscoveryEvent::Message { text, from } => match name_in(text.as_str()) {
                Some(name) => self.add(name, from),
                None => DiscoveryStep::Continue,
            },
            DiscoveryEvent::Failure { os_code } => match os_code {
                Some(code) => if code == OVERSIZED_DATAGRAM {
                    DiscoveryStep::Continue
                } else {
                    DiscoveryStep::Finished
                },
                None => DiscoveryStep::Finished,
            },
            DiscoveryEvent::Silence => DiscoveryStep::Finished,
        }
    }

    /// The devices that answered, in order.
    pub fn into_devices(self) -> (r: Vec<DeviceInfo>)
        ensures
            view_devices(r@) == self.devices(),
    {
        self.devices
    }
}

/// The event of a datagram.
pub fn received(datagram: &[u8], from: String) -> (r: DiscoveryEvent)
    ensures
        r matches DiscoveryEvent::Message { text, from: f } && text@ == text::utf8_lossy(datagram@)
            && f == from && (vstd::utf8::valid_utf8(datagram@) ==> text@
            == vstd::utf8::decode_utf8(datagram@)),
{
    DiscoveryEvent::Message { text: text::from_utf8_lossy(datagram), from }
}

/// Whether each device has its place, counted from one, for index.
pub open spec fn counted(devices: Seq<DeviceView>) -> bool {
    forall|i: int| 0 <= i < devices.len() ==> (#[trigger] devices[i]).index == i + 1
}

/// In every state of a search the devices are counted from one.
pub proof fn law_devices_stay_counted(
    before: DiscoverySession,
    event: DiscoveryEvent,
    after: DiscoverySession,
    step: DiscoveryStep,
)
    requires
        counted(before.devices()),
        before.steps_to(event, after, step),
    ensures
        counted(after.devices()),
{
}

/// A device answers the broadcast of another.
pub proof fn law_query_is_answered()
    ensures
        is_query(query()),
        vstd::utf8::valid_utf8(vstd::utf8::encode_utf8(query())),
        vstd::utf8::decode_utf8(vstd::utf8::encode_utf8(query())) == query(),
{
    reveal_strlit("WHO IS THE SERVER?");
    vstd::utf8::encode_utf8_valid_utf8(query());
    vstd::utf8::encode_utf8_decode_utf8(query());
    let q = query();
    assert(q[0] == 'W');
    assert(q[q.len() - 1] == '?');
    assert(!text::is_white(q[0]));
    assert(!text::is_white(q.last()));
}

/// The answer of a device, read from its bytes, carries the name of the device, less the white
/// space that this ends in.
pub proof fn law_answer_carries_the_name(name: &str)
    ensures
        vstd::utf8::valid_utf8(vstd::utf8::encode_utf8(reply_text(Some(name)))),
        answered_name(
            vstd::utf8::decode_utf8(vstd::utf8::encode_utf8(reply_text(Some(name)))),
        ) == Some(text::trimmed_end(name@)),
{
    vstd::utf8::encode_utf8_valid_utf8(reply_text(Some(name)));
    vstd::utf8::encode_utf8_decode_utf8(reply_text(Some(name)));
    reveal_strlit("DM1:");
    let p = reply_prefix();
    let t = reply_text(Some(name));
    assert(t[0] == 'D');
    assert(text::trimmed_start(t) == t);
    lemma_trimmed_end_of_sum(p, name@);
    let shown = p + text::trimmed_end(name@);
    assert(text::trimmed(t) == shown);
    assert(shown.subrange(0, p.len() as int) =~= p);
    assert(shown.skip(p.len() as int) =~= text::trimmed_end(name@));
}

proof fn lemma_trimmed_end_of_sum(p: Seq<char>, s: Seq<char>)
    requires
        p.len() > 0,
        !text::is_white(p.last()),
    ensures
        text::trimmed_end(p + s) == p + text::trimmed_end(s),
    decreases s.len(),
{
    if s.len() == 0 {
        assert(p + s =~= p);
    } else if text::is_white(s.last()) {
        assert((p + s).drop_last() =~= p + s.drop_last());
        lemma_trimmed_end_of_sum(p, s.drop_last());
    }
}

/// A message asks for devices exactly if it is the question, with white space around it or not;
/// the answer to it is the whole name behind `DM1:`.
pub proof fn law_question_and_answer(message: Seq<char>, name: &str)
    ensures
        is_query(message) <==> text::trimmed(message) == "WHO IS THE SERVER?"@,
        reply_text(Some(name)) == "DM1:"@ + name@,
        reply_text(None) == "DM1:"@ + "Unknown"@,
{
}

/// A message is an answer exactly if it starts with `DM1:`, and the name is all that follows.
pub proof fn law_name_follows_the_prefix(message: Seq<char>, name: Seq<char>)
    ensures
        answered_name(message) == Some(name) <==> text::trimmed(message) == "DM1:"@ + name,
        answered_name(message) is None <==> forall|n: Seq<char>|
            text::trimmed(message) != #[trigger] ("DM1:"@ + n),
{
    let t = text::trimmed(message);
    let p = "DM1:"@;
    text::law_prefix(t, p);
    if t == p + name {
        assert(t.skip(p.len() as int) =~= name);
    }
    if text::has_prefix(t, p) {
        assert(t =~= p + t.skip(p.len() as int));
    }
}

/// Whoever answers is kept with the whole name and address under the next index, as long as there
/// is one; other messages and oversized datagrams are passed over; a failure or silence ends the
/// search. No device is ever dropped.
pub proof fn law_search_keeps_every_answer(
    before: DiscoverySession,
    event: DiscoveryEvent,
    after: DiscoverySession,
    step: DiscoveryStep,
    name: Seq<char>,
)
    requires
        before.steps_to(event, after, step),
    ensures
        ({
            let had = before.devices();
            let has = after.devices();
            let answered = event is Message && text::trimmed(event->text@) == "DM1:"@ + name;
            &&& answered && had.len() < 254 ==> {
                &&& step == DiscoveryStep::Continue
                &&& has.len() == had.len() + 1
                &&& has.drop_last() == had
                &&& has.last().name == name
                &&& has.last().ip == event->from@
                &&& has.last().index == had.len() + 1
            }
            &&& answered && had.len() >= 254 ==> step == DiscoveryStep::Overflow && has == had
            &&& event is Message && answered_name(event->text@) is None ==> step
                == DiscoveryStep::Continue && has == had
            &&& event is Failure && event->os_code == Some(10040i32) ==> step
                == DiscoveryStep::Continue && has == had
            &&& event is Failure && event->os_code != Some(10040i32) ==> step
                == DiscoveryStep::Finished && has == had
            &&& event is Silence ==> step == DiscoveryStep::Finished && has == had
        }),
{
    if event is Message {
        law_name_follows_the_prefix(event->text@, name);
        let had = before.devices();
        let has = after.devices();
        if answered_name(event->text@) == Some(name) && had.len() < 254 {
            assert(has.drop_last() =~= had);
        }
    }
}

/// Devices and lists of them say all that they hold.
pub proof fn law_devices_say_what_they_hold(d: DeviceInfo, devices: Seq<DeviceInfo>, i: int)
    ensures
        d@.index == d.index,
        d@.name == d.name@,
        d@.ip == d.ip@,
        view_devices(devices).len() == devices.len(),
        0 <= i < devices.len() ==> view_devices(devices)[i] == devices[i]@,
{
}

/// A search starts with no device, and gives all that it kept.
pub proof fn law_search_gives_what_it_kept(
    first: DiscoverySession,
    session: DiscoverySession,
    r: Vec<DeviceInfo>,
    i: int,
)
    requires
        call_ensures(DiscoverySession::new, (), first),
        call_ensures(DiscoverySession::into_devices, (session,), r),
    ensures
        first.devices().len() == 0,
        r@.len() == session.devices().len(),
        0 <= i < r@.len() ==> r@[i].index == session.devices()[i].index && r@[i].name@
            == session.devices()[i].name && r@[i].ip@ == session.devices()[i].ip,
{
    assert(view_devices(r@).len() == r@.len());
    if 0 <= i < r@.len() {
        assert(view_devices(r@)[i] == r@[i]@);
    }
}

/// The answer to a datagram, read as an answer, gives the name of the device that answers, less
/// the white space that it ends in; a datagram that asks nothing is not answered.
pub proof fn law_devices_find_each_other(
    asked: Vec<u8>,
    datagram: &[u8],
    name: &str,
    reply: Option<Vec<u8>>,
    text: &str,
    found: Option<String>,
)
    requires
        call_ensures(discovery_query, (), asked),
        datagram@ == asked@,
        call_ensures(discovery_reply, (datagram, Some(name)), reply),
        reply is Some ==> text@ == vstd::utf8::decode_utf8(reply->0@),
        call_ensures(name_in, (text,), found),
    ensures
        reply is Some,
        found is Some,
        found->0@ == text::trimmed_end(name@),
{
    law_query_is_answered();
    law_answer_carries_the_name(name);
}

} // verus!
