use devices_manager::console::{agrees, answer, device_number, file_numbers, wants_to_quit};
use devices_manager::index::{DeviceIndex, FileIndexing};
use devices_manager::probe::{outcome, payload, report, response_text, MAX_RESPONSE};
use devices_manager::server::{
    on_stream, on_upload_stream, requested_file, Listener, ListenerAction, ListenerEvent,
    StreamAction, StreamEvent, UploadAction,
};
use devices_manager::wire::{encode_file_request, Request};

#[test]
fn server_accepts_until_it_is_stopped() {
    let (state, action) = Listener::Accepting.step(ListenerEvent::Incoming);
    assert_eq!(state, Listener::Accepting);
    assert!(matches!(action, ListenerAction::Serve));
    for event in [ListenerEvent::Shutdown, ListenerEvent::EndpointGone] {
        let (state, action) = Listener::Accepting.step(event);
        assert_eq!(state, Listener::Closing);
        match action {
            ListenerAction::Close { code, reason } => {
                assert_eq!((code, reason.as_slice()), (0, &b"server shutting down"[..]))
            }
            other => panic!("{:?}", other),
        }
    }
}

#[test]
fn server_winds_down() {
    let (state, action) = Listener::Closing.step(ListenerEvent::Done);
    assert!(matches!(action, ListenerAction::AwaitDiscovery));
    let (state, action) = state.step(ListenerEvent::Done);
    assert!(matches!(action, ListenerAction::WaitIdle { seconds: 2 }));
    let (state, action) = state.step(ListenerEvent::Done);
    assert!(matches!(action, ListenerAction::Finish));
    assert_eq!(state, Listener::Stopped);
}

#[test]
fn streams_are_answered() {
    assert_eq!(on_stream(StreamEvent::Code(1)), StreamAction::Answer(Request::Upload));
    assert_eq!(on_stream(StreamEvent::Code(2)), StreamAction::Answer(Request::Index));
    assert_eq!(on_stream(StreamEvent::Code(3)), StreamAction::Answer(Request::Download));
    assert_eq!(on_stream(StreamEvent::Code(0)), StreamAction::Ignore);
    assert_eq!(on_stream(StreamEvent::Code(4)), StreamAction::Ignore);
    assert_eq!(on_stream(StreamEvent::CodeUnreadable), StreamAction::Hangup);
    assert_eq!(on_stream(StreamEvent::AcceptFailed), StreamAction::Hangup);
}

#[test]
fn upload_server_only_receives() {
    assert!(matches!(on_upload_stream(StreamEvent::Code(1)), UploadAction::Receive));
    match on_upload_stream(StreamEvent::Code(3)) {
        UploadAction::Report(line) => assert_eq!(line, "Uknown code: [3]"),
        other => panic!("{:?}", other),
    }
    assert!(matches!(on_upload_stream(StreamEvent::AcceptFailed), UploadAction::Hangup));
    assert!(matches!(on_upload_stream(StreamEvent::CodeUnreadable), UploadAction::Hangup));
}

#[test]
fn listed_file_is_served() {
    let file = |id: u64| FileIndexing {
        id,
        name: id.to_string(),
        size: 0,
        path: format!("/{}", id),
        is_dir: false,
        parent_dir: None,
    };
    let index = DeviceIndex { files: vec![file(7), file(u64::MAX)] };
    let asked = encode_file_request(u64::MAX);
    assert_eq!(requested_file(index.clone(), &asked[1..]).unwrap().path, format!("/{}", u64::MAX));
    assert!(requested_file(index, &encode_file_request(8)[1..]).is_none());
}

#[test]
fn answers_at_the_console() {
    assert_eq!(answer(" a b\t\u{3000}\r\n"), "a b");
    assert_eq!(answer("\n"), "");
    assert!(wants_to_quit("q") && wants_to_quit("Q"));
    assert!(!wants_to_quit("quit") && !wants_to_quit(""));
    assert!(agrees("y") && agrees("Y"));
    assert!(!agrees("n") && !agrees("yes"));
}

#[test]
fn numbers_at_the_console() {
    assert_eq!(device_number(" 12 "), Some(12));
    assert_eq!(device_number("255"), Some(255));
    assert_eq!(device_number("256"), None);
    assert_eq!(device_number("-1"), None);
    assert_eq!(file_numbers("1, 2 ,x,4"), vec![1, 2, 4]);
    assert!(file_numbers("").is_empty());
}

#[test]
fn test_transfer() {
    let bytes = payload();
    assert_eq!(bytes.len(), 1024 * 1024);
    assert!(bytes.iter().all(|b| *b == 7));
    assert_eq!(MAX_RESPONSE, 1024);
    let text = report(&response_text(b"OK\xff"), "0.500", "2.00");
    assert_eq!(
        text,
        "Response: OK\u{fffd}\nTransferred: 1.0 MB\nDuration: 0.500s\nSpeed: 2.00 MB/s"
    );
    assert_eq!(outcome(Ok("fine".to_string())), "fine");
    assert_eq!(outcome(Err("refused".to_string())), "Execution Failed: refused");
}
