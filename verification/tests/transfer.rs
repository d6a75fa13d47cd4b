use devices_manager::error::AppError;
use devices_manager::transfer::{filing, Receive, ReceiveAction, ReceiveEvent};
use devices_manager::wire::encode_file_header;

/// Feeds a header to a receiver, up to the point where it asks about its target.
fn after_header(header: &[u8], dir: &str) -> Result<(Receive, ReceiveAction), AppError> {
    let (mut state, mut action) = Receive::begin();
    let mut pos = 0;
    loop {
        let event = match action {
            ReceiveAction::Read(n) => {
                pos += n;
                ReceiveEvent::Bytes(header[pos - n..pos].to_vec())
            }
            ReceiveAction::EnsureFolder => ReceiveEvent::FolderReady,
            _ => return Ok((state, action)),
        };
        let next = state.step(dir, event)?;
        state = next.0;
        action = next.1;
    }
}

fn probed(header: &[u8], dir: &str) -> (Receive, String) {
    match after_header(header, dir) {
        Ok((state, ReceiveAction::Probe(path))) => (state, path),
        other => panic!("{:?}", other),
    }
}

#[test]
fn header_of_a_file() {
    assert_eq!(filing("/srv/ab", 5).unwrap(), vec![0, 2, b'a', b'b', 0, 0, 0, 0, 0, 0, 0, 5]);
    assert_eq!(filing("dir/ab/", 5).unwrap(), encode_file_header(b"ab", 5));
    assert!(matches!(filing("/srv/..", 5), Err(AppError::InvalidFileName)));
    assert!(matches!(filing("", 5), Err(AppError::InvalidFileName)));
}

#[test]
fn header_is_understood() {
    let (state, path) = probed(&filing("/srv/film.mkv", 1 << 40).unwrap(), "/dl");
    assert_eq!(path, "/dl/film.mkv");
    match state {
        Receive::Target { name, size, target } => {
            assert_eq!(name, "film.mkv");
            assert_eq!(size, 1 << 40);
            assert_eq!(target, "/dl/film.mkv");
        }
        other => panic!("{:?}", other),
    }
}

#[test]
fn target_stays_in_the_folder() {
    assert_eq!(probed(&encode_file_header(b"../../etc/passwd", 1), "/dl").1, "/dl/passwd");
    assert_eq!(probed(&encode_file_header(b"/etc/passwd", 1), "/dl").1, "/dl/passwd");
    assert_eq!(probed(&encode_file_header(b"a/./", 1), "/dl").1, "/dl/a");
    assert_eq!(probed(&encode_file_header(b"//srv/share/x", 1), "/dl").1, "/dl/x");
    assert_eq!(probed(&encode_file_header(b"C:/dir/x", 1), "/dl/").1, "/dl/x");
}

#[test]
fn names_without_a_component_are_refused() {
    for name in [&b".."[..], b"", b"/", b"a/.."] {
        let r = after_header(&encode_file_header(name, 1), "/dl");
        assert!(matches!(r, Err(AppError::InvalidFileName)));
    }
}

#[test]
fn names_must_be_text() {
    let r = after_header(&encode_file_header(&[0xff, 0xfe], 1), "/dl");
    match r {
        Err(AppError::Utf8Error(message)) => {
            let e = String::from_utf8(vec![0xff, 0xfe]).unwrap_err();
            assert_eq!(message, e.to_string());
        }
        other => panic!("{:?}", other),
    }
}

#[test]
fn existing_file_is_left_alone() {
    let (state, _) = probed(&encode_file_header(b"a", 3), "/dl");
    match state.step("/dl", ReceiveEvent::Exists(true)) {
        Ok((Receive::Done, ReceiveAction::Reply(bytes))) => assert_eq!(bytes, b"ALREADY_EXISTS"),
        other => panic!("{:?}", other),
    }
}

fn stored(time: Option<u128>) -> (Receive, String) {
    let (state, _) = probed(&encode_file_header(b"a", 3), "/dl");
    let state = match state.step("/dl", ReceiveEvent::Exists(false)) {
        Ok((state, ReceiveAction::Stamp)) => state,
        other => panic!("{:?}", other),
    };
    match state.step("/dl", ReceiveEvent::Time(time)) {
        Ok((state, ReceiveAction::Store(path))) => (state, path),
        other => panic!("{:?}", other),
    }
}

#[test]
fn unfinished_file_stays_in_the_folder() {
    let (state, _) = probed(&encode_file_header(b"../x/C", 3), "/dl");
    let state = match state.step("/dl", ReceiveEvent::Exists(false)) {
        Ok((state, ReceiveAction::Stamp)) => state,
        other => panic!("{:?}", other),
    };
    match state.step("/dl", ReceiveEvent::Time(Some(7))) {
        Ok((_, ReceiveAction::Store(path))) => assert_eq!(path, "/dl/C.7.part"),
        other => panic!("{:?}", other),
    }
}

#[test]
fn complete_file_is_kept() {
    let (state, path) = stored(Some(99));
    assert_eq!(path, "/dl/a.99.part");
    match state.step("/dl", ReceiveEvent::Stored(3)) {
        Ok((Receive::Done, ReceiveAction::Keep { part, target })) => {
            assert_eq!(part, "/dl/a.99.part");
            assert_eq!(target, "/dl/a");
        }
        other => panic!("{:?}", other),
    }
}

#[test]
fn incomplete_file_is_removed() {
    let (state, path) = stored(None);
    assert_eq!(path, "/dl/a.0.part");
    match state.step("/dl", ReceiveEvent::Stored(2)) {
        Ok((Receive::Done, ReceiveAction::Discard { part, error })) => {
            assert_eq!(part, "/dl/a.0.part");
            assert_eq!(error.message(), "Incomplete transfer: expected 3 bytes, got 2");
            assert!(matches!(error, AppError::IncompleteTransfer { expected: 3, got: 2 }));
        }
        other => panic!("{:?}", other),
    }
}

#[test]
fn messages_of_errors() {
    let m = || "x".to_string();
    let cases = vec![
        (AppError::NetworkError(m()), "Network Error: x"),
        (AppError::FileNotFound(42), "File ID 42 not found"),
        (AppError::AlreadyExists, "File already exists"),
        (
            AppError::IncompleteTransfer { expected: 10, got: 0 },
            "Incomplete transfer: expected 10 bytes, got 0",
        ),
        (AppError::IoError(m()), "I/O Error: x"),
        (AppError::JsonError(m()), "JSON Error: x"),
        (AppError::Utf8Error(m()), "UTF-8 Conversion Error: x"),
        (AppError::InvalidFileName, "Invalid file name"),
        (AppError::InvalidInput(m()), "Invalid input: x"),
        (AppError::ServerNotFound, "Selected server not found"),
        (AppError::QuinnConnectionError(m()), "QUIC Connection Error: x"),
        (AppError::QuinnConnectError(m()), "QUIC Connect Error: x"),
        (AppError::QuinnReadExactError(m()), "QUIC Read Error: x"),
        (AppError::QuinnReadToEndError(m()), "QUIC Read-to-End Error: x"),
        (AppError::QuinnWriteError(m()), "QUIC Write Error: x"),
        (AppError::RustlsError(m()), "TLS Error: x"),
        (AppError::TokioJoinError(m()), "Task Join Error: x"),
    ];
    for (error, message) in cases {
        assert_eq!(error.message(), message);
    }
}
