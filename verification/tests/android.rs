use devices_manager::android::{
    broadcast_address, choose_device, discovery_reply, get_fallback_device_name, handle_sending_json,
    handle_sending_requested_file, heard, parent_label, received_bundle, shared_folder, Client,
    ClientAction, ClientEvent, DeviceIndex, FileIndexing, FirstUse, FlatIndexer, Receive,
    ReceiveAction, ReceiveEvent, TofuVerifier,
};
use devices_manager::discovery::DeviceInfo;
use devices_manager::error::AppError;
use devices_manager::index::FolderEntry;
use devices_manager::vault::{
    decrypt_json, encrypting_json, open_with, seal_with, Sealed, VaultError,
};
use devices_manager::wire::{encode_file_header, BlobReader};

fn entry(dir: &str, name: &str, is_dir: Option<bool>, size: Option<u64>) -> FolderEntry {
    FolderEntry { name: name.to_string(), path: format!("{}/{}", dir, name), is_dir, size }
}

fn device(index: u8, name: &str) -> DeviceInfo {
    DeviceInfo { index, name: name.to_string(), ip: format!("10.0.0.{}:8888", index) }
}

fn line(text: &str) -> ClientEvent {
    ClientEvent::Line(text.to_string())
}

#[test]
fn name_of_the_phone() {
    assert_eq!(get_fallback_device_name(), "Huawei-P30-Lite");
    assert_eq!(discovery_reply(), b"Huawei-P30-Lite");
    assert_eq!(shared_folder(), "/sdcard/Download");
    assert_eq!(broadcast_address(), "192.168.1.255:8888");
}

#[test]
fn server_is_trusted_on_first_use() {
    let verifier = TofuVerifier { target_device_name: "pc".to_string() };
    for file in [None, Some(""), Some("[]"), Some("{}")] {
        let json = match verifier.verify_server_cert(b"cert", file) {
            FirstUse::New { json } => json,
            other => panic!("{:?}", other),
        };
        let again = verifier.verify_server_cert(b"cert", Some(&json));
        assert!(matches!(again, FirstUse::Known));
        match verifier.verify_server_cert(b"other", Some(&json)) {
            FirstUse::Changed { message } => assert_eq!(message, "Host key fingerprint mismatch!"),
            other => panic!("{:?}", other),
        }
    }
}

#[test]
fn other_servers_stay_remembered() {
    let pc = TofuVerifier { target_device_name: "pc".to_string() };
    let tv = TofuVerifier { target_device_name: "tv".to_string() };
    let first = match pc.judge("1".to_string(), None) {
        FirstUse::New { json } => json,
        other => panic!("{:?}", other),
    };
    let second = match tv.judge("2".to_string(), Some(&first)) {
        FirstUse::New { json } => json,
        other => panic!("{:?}", other),
    };
    assert!(matches!(pc.judge("1".to_string(), Some(&second)), FirstUse::Known));
    assert!(matches!(tv.judge("1".to_string(), Some(&second)), FirstUse::Changed { .. }));
}

#[test]
fn files_are_numbered_from_one() {
    let mut indexer = FlatIndexer::new(shared_folder());
    let dir = indexer.next_folder().unwrap();
    indexer.file_indexing(
        &dir,
        vec![
            entry(&dir, "a", Some(false), Some(10)),
            entry(&dir, "sub", Some(true), None),
            entry(&dir, "b", None, None),
        ],
    );
    assert_eq!(indexer.count(), 2);
    let sub = indexer.next_folder().unwrap();
    assert_eq!(sub, "/sdcard/Download/sub");
    indexer.file_indexing(&sub, vec![entry(&sub, "c", Some(false), Some(3))]);
    assert!(indexer.next_folder().is_none());
    let index = indexer.finish();
    let seen: Vec<(usize, &str, u64)> =
        index.files.iter().map(|f| (f.id, f.name.as_str(), f.size)).collect();
    assert_eq!(seen, vec![(1, "a", 10), (2, "b", 0), (3, "c", 3)]);
    assert_eq!(index.files[0].parent_dir.as_deref(), Some("Download"));
    assert_eq!(index.files[2].parent_dir.as_deref(), Some("sub"));
    assert_eq!(index.files[2].path, "/sdcard/Download/sub/c");
    assert!(index.files.iter().all(|f| !f.is_dir));
    assert_eq!(parent_label(&index.files[2]), "sub");
}

#[test]
fn folder_without_a_name_is_the_root() {
    let mut indexer = FlatIndexer::new("/".to_string());
    let dir = indexer.next_folder().unwrap();
    indexer.file_indexing(&dir, vec![entry("", "a", Some(false), None)]);
    let index = indexer.finish();
    assert_eq!(index.files[0].parent_dir, None);
    assert_eq!(parent_label(&index.files[0]), "Root");
}

#[test]
fn requested_file_is_found() {
    let file = |id: usize| FileIndexing {
        id,
        name: "n".to_string(),
        size: 0,
        path: format!("/{}", id),
        is_dir: false,
        parent_dir: None,
    };
    let index = DeviceIndex { files: vec![file(1), file(2)] };
    let found = handle_sending_requested_file(&index, &2u64.to_be_bytes()).unwrap();
    assert_eq!(found.path, "/2");
    assert!(handle_sending_requested_file(&index, &3u64.to_be_bytes()).is_none());
}

#[test]
fn encrypted_index_opens_with_the_pin() {
    let sealed = encrypting_json(b"{\"files\":[]}").unwrap();
    assert_eq!((sealed.nonce.len(), sealed.salt.len()), (12, 16));
    assert_eq!(sealed.bytes.len(), 12 + 16);
    let opened = decrypt_json(&sealed.bytes, &sealed.salt, &sealed.nonce, "1234").unwrap();
    assert_eq!(opened, b"{\"files\":[]}");
    let wrong = decrypt_json(&sealed.bytes, &sealed.salt, &sealed.nonce, "1235");
    assert!(matches!(wrong, Err(VaultError::Inauthentic)));
    let mut changed = sealed.bytes.clone();
    changed[0] ^= 1;
    let broken = decrypt_json(&changed, &sealed.salt, &sealed.nonce, "1234");
    assert!(matches!(broken, Err(VaultError::Inauthentic)));
    assert_eq!(broken.unwrap_err().message(), "aead::Error");
}

#[test]
fn each_encryption_is_fresh() {
    let a = encrypting_json(b"x").unwrap();
    let b = encrypting_json(b"x").unwrap();
    assert_ne!(a.salt, b.salt);
    assert_ne!(a.nonce, b.nonce);
}

#[test]
fn short_nonce_and_salt_are_refused() {
    let sealed = encrypting_json(b"x").unwrap();
    let nonce = decrypt_json(&sealed.bytes, &sealed.salt, &sealed.nonce[1..], "1234").unwrap_err();
    assert!(matches!(nonce, VaultError::NonceLength));
    assert_eq!(nonce.message(), "could not convert slice to array");
    let salt = decrypt_json(&sealed.bytes, &sealed.salt[..7], &sealed.nonce, "1234").unwrap_err();
    match &salt {
        VaultError::KeyDerivation(message) => assert_eq!(&salt.message(), message),
        other => panic!("{:?}", other),
    }
}

#[test]
fn sealing_with_a_key() {
    let key = vec![0u8; 32];
    let sealed = seal_with(b"", Ok(key.clone()), vec![9], vec![0u8; 12]).unwrap();
    assert_eq!(
        sealed.bytes,
        vec![
            0x53, 0x0f, 0x8a, 0xfb, 0xc7, 0x45, 0x36, 0xb9, 0xa9, 0x63, 0xb4, 0xf1, 0xc4, 0xcb, 0x73,
            0x8b
        ]
    );
    assert_eq!(sealed.salt, vec![9]);
    assert_eq!(open_with(Ok(key), &sealed.nonce, &sealed.bytes).unwrap(), b"");
    let none = seal_with(b"", Err("no key".to_string()), vec![], vec![0u8; 12]);
    assert!(matches!(none, Err(VaultError::KeyDerivation(m)) if m == "no key"));
    let none = open_with(Err("no key".to_string()), &[0u8; 12], b"");
    assert!(matches!(none, Err(VaultError::KeyDerivation(m)) if m == "no key"));
    assert_eq!(VaultError::TooLong.message(), "aead::Error");
}

#[test]
fn bundle_is_understood() {
    let sealed = Sealed { bytes: vec![1, 2], nonce: vec![3; 12], salt: vec![4; 16] };
    let stream = handle_sending_json(&sealed);
    assert_eq!(stream.len(), 8 + 2 + 8 + 16 + 8 + 12);
    let mut reader = BlobReader::new(3);
    let mut pos = 0;
    while let Some(n) = reader.wanted() {
        reader.feed(stream[pos..pos + n].to_vec());
        pos += n;
    }
    assert_eq!(pos, stream.len());
    let again = received_bundle(reader.into_parts());
    assert_eq!((again.bytes, again.salt, again.nonce), (vec![1, 2], vec![4; 16], vec![3; 12]));
}

fn probed(header: &[u8]) -> Result<(Receive, String), AppError> {
    let (mut state, mut action) = Receive::begin();
    let mut pos = 0;
    loop {
        match action {
            ReceiveAction::Read(n) => {
                pos += n;
                let next = state.step(ReceiveEvent::Bytes(header[pos - n..pos].to_vec()))?;
                state = next.0;
                action = next.1;
            }
            ReceiveAction::Probe(path) => return Ok((state, path)),
            other => panic!("{:?}", other),
        }
    }
}

#[test]
fn received_file_is_stored() {
    let (state, path) = probed(&encode_file_header(b"a.txt", 3)).unwrap();
    assert_eq!(path, "/sdcard/Download/a.txt");
    match state.step(ReceiveEvent::Exists(false)) {
        Ok((Receive::Done, ReceiveAction::Store(target))) => {
            assert_eq!(target, "/sdcard/Download/a.txt")
        }
        other => panic!("{:?}", other),
    }
    let (state, _) = probed(&encode_file_header(b"a.txt", 3)).unwrap();
    match state.step(ReceiveEvent::Exists(true)) {
        Ok((Receive::Done, ReceiveAction::Reply(bytes))) => assert_eq!(bytes, b"ALREADY_EXISTS"),
        other => panic!("{:?}", other),
    }
    assert!(matches!(probed(&encode_file_header(b"\xff", 3)), Err(AppError::Utf8Error(_))));
}

#[test]
fn client_finds_nobody() {
    let (client, action) = Client::begin();
    assert!(matches!(action, ClientAction::Listen));
    match client.step(ClientEvent::Silence) {
        Ok((Client::Done, ClientAction::Stop { message })) => {
            assert_eq!(message, "No servers found on the network.")
        }
        _ => panic!("went on"),
    }
}

fn choosing() -> Client {
    let (mut client, _) = Client::begin();
    for name in ["pc", "tv"] {
        let event = heard(name.as_bytes(), format!("{}:1", name));
        client = match client.step(event) {
            Ok((client, ClientAction::Listen)) => client,
            _ => panic!("stopped"),
        };
    }
    match client.step(ClientEvent::Silence) {
        Ok((client, ClientAction::Choose { lines, prompt })) => {
            assert_eq!(lines, vec!["1 - Device: pc, IP: pc:1", "2 - Device: tv, IP: tv:1"]);
            assert_eq!(prompt, "Choose a server (num): ");
            client
        }
        _ => panic!("stopped"),
    }
}

fn asking() -> Client {
    let client = match choosing().step(line("2")) {
        Ok((client, ClientAction::Connect { name, ip })) => {
            assert_eq!((name.as_str(), ip.as_str()), ("tv", "tv:1"));
            client
        }
        _ => panic!("not connected"),
    };
    let client = match client.step(ClientEvent::Done) {
        Ok((client, ClientAction::ShowIndex)) => client,
        _ => panic!("nothing shown"),
    };
    match client.step(ClientEvent::Done) {
        Ok((client, ClientAction::Ask { prompt })) => {
            assert_eq!(prompt, "Do you want to request/download a file? (y/n)");
            client
        }
        _ => panic!("not asked"),
    }
}

#[test]
fn client_downloads() {
    let client = match asking().step(line("Y")) {
        Ok((client, ClientAction::Ask { prompt })) => {
            assert_eq!(prompt, "Enter the file/s number (split with a comma): ");
            client
        }
        _ => panic!("not asked"),
    };
    let client = match client.step(line("1, 3,x,,7")) {
        Ok((client, ClientAction::Download { ids })) => {
            assert_eq!(ids, vec![1, 3, 7]);
            client
        }
        _ => panic!("nothing downloaded"),
    };
    match client.step(ClientEvent::Done) {
        Ok((Client::Done, ClientAction::Stop { message })) => {
            assert_eq!(message, "Finished all requests successfully.")
        }
        _ => panic!("went on"),
    }
}

#[test]
fn client_may_download_nothing() {
    assert!(matches!(asking().step(line("n")), Ok((Client::Done, ClientAction::Finish))));
    assert!(matches!(asking().step(line("yes")), Ok((Client::Done, ClientAction::Finish))));
}

#[test]
fn client_must_choose_a_device() {
    match choosing().step(line("3")) {
        Err(AppError::ServerNotFound) => {}
        _ => panic!("found"),
    }
    match choosing().step(line("two")) {
        Err(AppError::InvalidInput(message)) => assert_eq!(message, "Invalid number"),
        _ => panic!("read"),
    }
}

#[test]
fn client_cannot_count_more_devices() {
    let (mut client, _) = Client::begin();
    for _ in 0..254 {
        let event = ClientEvent::Message { text: "d".to_string(), from: "i".to_string() };
        client = match client.step(event) {
            Ok((client, _)) => client,
            Err(e) => panic!("{:?}", e),
        };
    }
    let event = ClientEvent::Message { text: "d".to_string(), from: "i".to_string() };
    assert!(matches!(client.step(event), Err(AppError::InvalidInput(_))));
}

#[test]
fn device_is_chosen_by_its_number() {
    let devices = vec![device(1, "pc"), device(2, "tv")];
    let (name, ip) = choose_device(&devices, " 2 ").unwrap();
    assert_eq!((name.as_str(), ip.as_str()), ("tv", "10.0.0.2:8888"));
    assert!(matches!(choose_device(&devices, "0"), Err(AppError::ServerNotFound)));
    assert!(matches!(choose_device(&devices, "256"), Err(AppError::InvalidInput(_))));
}
