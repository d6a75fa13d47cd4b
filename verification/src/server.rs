//! The server: accepting connections, answering requests, and winding down.
use crate::index;
use crate::index::{DeviceIndex, FileIndexing};
use crate::text;
use crate::wire;
use crate::wire::Request;
use vstd::prelude::*;

verus! {

/// How far a server has come.
#[derive(Clone, Copy, Debug, PartialEq, Eq, Structural)]
pub enum Listener {
    /// Connections are accepted.
    Accepting,
    /// The endpoint is being closed.
    Closing,
    /// The discovery task is ending.
    AwaitingDiscovery,
    /// The connections that are left are winding down.
    Draining,
    /// Nothing is left to do.
    Stopped,
}

/// What can happen to a server.
#[derive(Clone, Copy, Debug, PartialEq, Eq, Structural)]
pub enum ListenerEvent {
    /// Someone asked it to stop.
    Shutdown,
    /// A connection came in.
    Incoming,
    /// No more connections can come in.
    EndpointGone,
    /// The last action is done, or has taken as long as it may.
    Done,
}

/// What a server does next.
#[derive(Debug)]
pub enum ListenerAction {
    /// Serve the connection that came in, on its own, and wait for the next.
    Serve,
    /// Close the endpoint with this code and reason.
    Close { code: u32, reason: Vec<u8> },
    /// Wait until the discovery task has ended.
    AwaitDiscovery,
    /// Wait until all connections are gone, but no longer than this.
    WaitIdle { seconds: u64 },
    /// The server has ended.
    Finish,
}

/// The port on which servers accept connections.
pub const SERVER_PORT: u16 = 8080;

/// How long a server that stops waits for its connections.
pub const DRAIN_SECONDS: u64 = 2;

impl Listener {
    /// Whether `event` can happen now.
    pub open spec fn expects(self, event: ListenerEvent) -> bool {
        match self {
            Listener::Accepting => event != ListenerEvent::Done,
            Listener::Stopped => false,
            _ => event == ListenerEvent::Done,
        }
    }

    /// Whether `next` and `action` are what comes of `event`.
    pub open spec fn steps_to(
        self,
        event: ListenerEvent,
        next: Listener,
        action: ListenerAction,
    ) -> bool {
        match self {
            Listener::Accepting => if event == ListenerEvent::Incoming {
                next == Listener::Accepting && action is Serve
            } else {
                &&& next == Listener::Closing
                &&& action matches ListenerAction::Close { code, reason }
                &&& code == 0
                &&& reason@ == vstd::utf8::encode_utf8("server shutting down"@)
            },
            Listener::Closing => next == Listener::AwaitingDiscovery && action is AwaitDiscovery,
            Listener::AwaitingDiscovery => {
                &&& next == Listener::Draining
                &&& action == (ListenerAction::WaitIdle { seconds: DRAIN_SECONDS })
            },
            Listener::Draining => next == Listener::Stopped && action is Finish,
            Listener::Stopped => false,
        }
    }

    /// What comes of `event`.
    pub fn step(self, event: ListenerEvent) -> (r: (Listener, ListenerAction))
        requires
            self.expects(event),
        ensures
            self.steps_to(event, r.0, r.1),
    {
        match self {
            Listener::Accepting => match event {
                ListenerEvent::Incoming => (Listener::Accepting, ListenerAction::Serve),
                _ => {
                    let reason: Vec<u8> = "server shutting down".as_bytes_vec();
                    (Listener::Closing, ListenerAction::Close { code: 0, reason })
                },
            },
            Listener::Closing => (Listener::AwaitingDiscovery, ListenerAction::AwaitDiscovery),
            Listener::AwaitingDiscovery => (
                Listener::Draining,
                ListenerAction::WaitIdle { seconds: DRAIN_SECONDS },
            ),
            _ => (Listener::Stopped, ListenerAction::Finish),
        }
    }

    /// How many steps a server that stops still takes.
    pub open spec fn steps_left(self) -> nat {
        match self {
            Listener::Accepting => 4,
            Listener::Closing => 3,
            Listener::AwaitingDiscovery => 2,
            Listener::Draining => 1,
            Listener::Stopped => 0,
        }
    }
}

/// A server that was asked to stop accepts no connection any more, and each further step
/// brings it nearer to its end.
pub proof fn law_shutdown_ends(
    before: Listener,
    event: ListenerEvent,
    after: Listener,
    action: ListenerAction,
)
    requires
        before.expects(event),
        before.steps_to(event, after, action),
        before != Listener::Accepting || event != ListenerEvent::Incoming,
    ensures
        after != Listener::Accepting,
        !(action is Serve),
        after.steps_left() < before.steps_left(),
        after.steps_left() == 0 <==> action is Finish,
{
}

/// What can happen on a connection.
#[derive(Clone, Copy, Debug, PartialEq, Eq, Structural)]
pub enum StreamEvent {
    /// No stream can be accepted any more.
    AcceptFailed,
    /// A stream was opened, but not even its first byte can be read.
    CodeUnreadable,
    /// A stream was opened and starts with this byte.
    Code(u8),
}

/// What is done about a stream.
#[derive(Clone, Copy, Debug, PartialEq, Eq, Structural)]
pub enum StreamAction {
    /// Stop serving the connection.
    Hangup,
    /// Leave the stream alone and wait for the next.
    Ignore,
    /// Answer the request, on its own, and wait for the next.
    Answer(Request),
}

/// Whether `action` is what a server does about `event`: it answers the three requests, passes
/// over other codes, and stops where it cannot read.
pub open spec fn answers(event: StreamEvent, action: StreamAction) -> bool {
    match event {
        StreamEvent::Code(code) => match action {
            StreamAction::Answer(q) => q.spec_code() == code,
            StreamAction::Ignore => forall|q: Request| (#[trigger] q.spec_code()) != code,
            StreamAction::Hangup => false,
        },
        _ => action == StreamAction::Hangup,
    }
}

/// What a server does about a stream.
pub fn on_stream(event: StreamEvent) -> (r: StreamAction)
    ensures
        answers(event, r),
{
    match event {
        StreamEvent::Code(code) => match Request::from_code(code) {
            Some(q) => StreamAction::Answer(q),
            None => StreamAction::Ignore,
        },
        _ => StreamAction::Hangup,
    }
}

/// Each request is answered as the request that it is.
pub proof fn law_requests_are_answered(q: Request, action: StreamAction)
    requires
        answers(StreamEvent::Code(q.spec_code()), action),
    ensures
        action == StreamAction::Answer(q),
{
}

/// What a server that only receives files does about a stream.
#[derive(Debug)]
pub enum UploadAction {
    /// Stop serving the connection.
    Hangup,
    /// Receive a file, on its own, and wait for the next stream.
    Receive,
    /// Say this and wait for the next stream.
    Report(String),
}

/// What is said of a stream that starts with a byte that means nothing.
pub open spec fn unknown_code_text(code: u8) -> Seq<char> {
    "Uknown code: ["@ + text::decimal(code as nat) + "]"@
}

/// What a server that only receives files does about a stream.
pub fn on_upload_stream(event: StreamEvent) -> (r: UploadAction)
    ensures
        match event {
            StreamEvent::Code(code) => if code == Request::Upload.spec_code() {
                r is Receive
            } else {
                r matches UploadAction::Report(line) && line@ == unknown_code_text(code)
            },
            _ => r is Hangup,
        },
{
    match event {
        StreamEvent::Code(code) => if code == Request::Upload.code() {
            UploadAction::Receive
        } else {
            let number = text::decimal_text(code as u128);
            UploadAction::Report(text::concat3("Uknown code: [", number.as_str(), "]"))
        },
        _ => UploadAction::Hangup,
    }
}

/// Whether `r` is the file that the eight bytes of a download request ask for: the first with
/// the id in them, if there is one.
pub open spec fn is_requested(
    files: Seq<FileIndexing>,
    id_bytes: Seq<u8>,
    r: Option<FileIndexing>,
) -> bool {
    match r {
        Some(f) => exists|i: int| #[trigger]
            index::is_first_with_id(files, wire::be_value(id_bytes) as u64, i) && f == files[i],
        None => forall|k: int|
            0 <= k < files.len() ==> (#[trigger] files[k]).id != wire::be_value(id_bytes),
    }
}

/// The file that a download request asks for, given the eight bytes that follow its code.
pub fn requested_file(files: DeviceIndex, id_bytes: &[u8]) -> (r: Option<FileIndexing>)
    requires
        id_bytes@.len() == 8,
    ensures
        is_requested(files.files@, id_bytes@, r),
{
    let id: u64 = wire::decode_file_id(id_bytes);
    assert(wire::be_value(id_bytes@) as u64 == id);
    index::find_file_flat(files, id)
}

/// A client that asks for a listed file is served a file with that very id.
pub proof fn law_listed_file_is_served(
    files: Seq<FileIndexing>,
    k: int,
    r: Option<FileIndexing>,
)
    requires
        0 <= k < files.len(),
        is_requested(files, wire::file_request(files[k].id).skip(1), r),
    ensures
        r is Some,
        r->0.id == files[k].id,
        files.contains(r->0),
{
    wire::law_file_request_round_trip(files[k].id);
}

/// Whatever a client asks for, it is served nothing but an entry of the index; where only
/// sharable entries stand in that, it is served a sharable one.
pub proof fn law_only_listed_files_are_served(
    files: Seq<FileIndexing>,
    id_bytes: Seq<u8>,
    r: Option<FileIndexing>,
)
    requires
        is_requested(files, id_bytes, r),
        r is Some,
    ensures
        files.contains(r->0),
        index::all_sharable(index::view_files(files)) ==> index::is_sharable(r->0@),
{
    let i = choose|i: int| #[trigger]
        index::is_first_with_id(files, wire::be_value(id_bytes) as u64, i) && r->0 == files[i];
    assert(index::view_files(files)[i] == files[i]@);
}

/// A server serves each connection until it is told to stop or can take none any more; it then
/// closes with code 0 and its reason, waits for the discovery task, waits two seconds at most for
/// what is left, and ends.
pub proof fn law_server_winds_down_in_order(
    before: Listener,
    event: ListenerEvent,
    after: Listener,
    action: ListenerAction,
)
    requires
        before.expects(event),
        before.steps_to(event, after, action),
    ensures
        event == ListenerEvent::Incoming ==> before == Listener::Accepting && after
            == Listener::Accepting && action is Serve,
        event == ListenerEvent::Shutdown || event == ListenerEvent::EndpointGone ==> before
            == Listener::Accepting && after == Listener::Closing && action is Close && action->code
            == 0 && action->reason@ == vstd::utf8::encode_utf8("server shutting down"@),
        event == ListenerEvent::Done && before == Listener::Closing ==> after
            == Listener::AwaitingDiscovery && action is AwaitDiscovery,
        event == ListenerEvent::Done && before == Listener::AwaitingDiscovery ==> after
            == Listener::Draining && action is WaitIdle && action->seconds == 2,
        event == ListenerEvent::Done && before == Listener::Draining ==> after
            == Listener::Stopped && action is Finish,
        event == ListenerEvent::Done ==> before != Listener::Accepting && before
            != Listener::Stopped,
{
}

/// Every event that can happen to a server is taken.
pub proof fn law_server_takes_what_can_happen(state: Listener)
    ensures
        state.expects(ListenerEvent::Incoming) <==> state == Listener::Accepting,
        state.expects(ListenerEvent::Shutdown) <==> state == Listener::Accepting,
        state.expects(ListenerEvent::EndpointGone) <==> state == Listener::Accepting,
        state.expects(ListenerEvent::Done) <==> state != Listener::Accepting && state
            != Listener::Stopped,
{
}

/// The bytes 1, 2 and 3 announce an upload, a wish for the index and a wish for a file; all other
/// bytes are passed over, and where nothing can be read the connection is given up.
pub proof fn law_streams_are_answered_by_their_first_byte(event: StreamEvent, action: StreamAction)
    requires
        answers(event, action),
    ensures
        event == StreamEvent::Code(1) <==> action == StreamAction::Answer(Request::Upload),
        event == StreamEvent::Code(2) <==> action == StreamAction::Answer(Request::Index),
        event == StreamEvent::Code(3) <==> action == StreamAction::Answer(Request::Download),
        action == StreamAction::Ignore <==> event is Code && event->Code_0 != 1 && event->Code_0
            != 2 && event->Code_0 != 3,
        action == StreamAction::Hangup <==> !(event is Code),
{
    assert(Request::Upload.spec_code() == 1);
    assert(Request::Index.spec_code() == 2);
    assert(Request::Download.spec_code() == 3);
}

/// A server that only receives files receives one exactly after the byte 1, and reports every
/// other byte by its number.
pub proof fn law_uploads_are_received(event: StreamEvent, r: UploadAction)
    requires
        call_ensures(on_upload_stream, (event,), r),
    ensures
        r is Receive <==> event == StreamEvent::Code(1),
        r is Hangup <==> !(event is Code),
        r is Report ==> event is Code && r->Report_0@ == "Uknown code: ["@ + text::decimal(
            event->Code_0 as nat,
        ) + "]"@,
{
}

/// A request with the bytes of an id is for the first file with that id, and for none if no file
/// has it.
pub proof fn law_request_is_for_the_first_file(
    files: Seq<FileIndexing>,
    id: u64,
    i: int,
    r: Option<FileIndexing>,
)
    requires
        is_requested(files, wire::file_request(id).skip(1), r),
    ensures
        0 <= i < files.len() && files[i].id == id && (forall|k: int|
            0 <= k < i ==> (#[trigger] files[k]).id != id) ==> r == Some(files[i]),
        (forall|k: int| 0 <= k < files.len() ==> (#[trigger] files[k]).id != id) ==> r is None,
{
    wire::law_file_request_round_trip(id);
    if r is Some {
        let j = choose|j: int| #[trigger]
            index::is_first_with_id(files, id, j) && r->0 == files[j];
        assert(files[j].id == id);
        if 0 <= i < files.len() && files[i].id == id && (forall|k: int|
            0 <= k < i ==> (#[trigger] files[k]).id != id) {
            assert(j == i) by {
                if j < i {
                    assert(files[j].id != id);
                }
                if i < j {
                    assert(files[i].id != id);
                }
            }
        }
    }
}

/// Servers accept connections on one port and are found on another.
pub proof fn law_ports()
    ensures
        SERVER_PORT == 8080,
        crate::discovery::DISCOVERY_PORT == 8888,
{
}

/// A server that is stepped goes on as it says.
pub proof fn law_server_is_stepped(
    state: Listener,
    event: ListenerEvent,
    r: (Listener, ListenerAction),
    stream: StreamEvent,
    action: StreamAction,
)
    requires
        call_ensures(Listener::step, (state, event), r),
        call_ensures(on_stream, (stream,), action),
    ensures
        state.steps_to(event, r.0, r.1),
        answers(stream, action),
{
}

} // verus!
