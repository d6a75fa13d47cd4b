use devices_manager::config::AppConfig;
use devices_manager::discovery::{
    discovery_query, discovery_reply, name_in, received, reply_to, DeviceInfo, DiscoveryEvent,
    DiscoverySession, DiscoveryStep, MAX_DEVICES, OVERSIZED_DATAGRAM,
};
use devices_manager::error::AppError;
use devices_manager::gui::{
    download_request, get_download_directory, get_remote_device_files, get_share_roots,
    scan_network_devices, update_download_directory, update_share_roots, GuiDeviceInfo,
    GuiFileIndexing, GuiPairingEvent, GuiServer, StartStep,
};
use devices_manager::identity::Identity;
use devices_manager::index::{DeviceIndex, FileIndexing};
use devices_manager::peers::PeersStorage;
use devices_manager::trust::PairingRequest;

fn device(index: u8, name: &str, ip: &str) -> DeviceInfo {
    DeviceInfo { index, name: name.to_string(), ip: ip.to_string() }
}

fn config(name: &str) -> AppConfig {
    AppConfig {
        device_name: name.to_string(),
        share_roots: vec!["/a".to_string()],
        download_dir: "/dl".to_string(),
        broadcast_addr: "10.0.0.255:8888".to_string(),
    }
}

fn request(name: &str) -> PairingRequest {
    PairingRequest { device_name: name.to_string(), fingerprint: format!("fp-{}", name) }
}

fn identity() -> Identity {
    Identity { cert: vec![1], key: vec![2], fresh: true }
}

fn failed() -> AppError {
    AppError::IoError("disk".to_string())
}

/// Whether a server shows pairing requests: it answers with an event only while it does.
fn started(name: &str) -> GuiServer {
    let mut server = GuiServer::new();
    server.listen();
    assert!(matches!(server.start_gui_server(Ok(config(name))), Ok(StartStep::NeedsIdentity)));
    let run = server.identified(Ok(identity())).unwrap();
    assert_eq!(run.message, format!("Server started as: {}", name));
    assert_eq!((run.identity.cert, run.identity.key), (vec![1], vec![2]));
    server
}

#[test]
fn query_is_answered() {
    assert_eq!(discovery_query(), b"WHO IS THE SERVER?");
    assert_eq!(discovery_reply(&discovery_query(), Some("pc")), Some(b"DM1:pc".to_vec()));
    assert_eq!(discovery_reply(b" WHO IS THE SERVER?\r\n", None), Some(b"DM1:Unknown".to_vec()));
    assert_eq!(discovery_reply(b"who is the server?", Some("pc")), None);
    assert_eq!(discovery_reply(b"\xff", Some("pc")), None);
    assert_eq!(reply_to("hello", Some("pc")), None);
}

#[test]
fn answer_carries_the_name() {
    let reply = discovery_reply(&discovery_query(), Some("Büro PC ")).unwrap();
    match received(&reply, "10.0.0.1:8888".to_string()) {
        DiscoveryEvent::Message { text, from } => {
            assert_eq!(name_in(&text), Some("Büro PC".to_string()));
            assert_eq!(from, "10.0.0.1:8888");
        }
        other => panic!("{:?}", other),
    }
    assert_eq!(name_in("DM1:"), Some(String::new()));
    assert_eq!(name_in("DM2:x"), None);
    match received(b"DM1:\xff", "a".to_string()) {
        DiscoveryEvent::Message { text, .. } => assert_eq!(text, "DM1:\u{fffd}"),
        other => panic!("{:?}", other),
    }
}

#[test]
fn search_collects_answers() {
    let mut session = DiscoverySession::new();
    let mut take = |bytes: &[u8], from: &str| session.on_event(received(bytes, from.to_string()));
    assert_eq!(take(b"DM1:pc", "10.0.0.1:1"), DiscoveryStep::Continue);
    assert_eq!(take(b"noise", "10.0.0.2:1"), DiscoveryStep::Continue);
    assert_eq!(take(b" DM1:tv\n", "10.0.0.3:1"), DiscoveryStep::Continue);
    let too_large = DiscoveryEvent::Failure { os_code: Some(OVERSIZED_DATAGRAM) };
    assert_eq!(session.on_event(too_large), DiscoveryStep::Continue);
    let broken = DiscoveryEvent::Failure { os_code: Some(1) };
    assert_eq!(session.on_event(broken), DiscoveryStep::Finished);
    let odd = DiscoveryEvent::Failure { os_code: None };
    assert_eq!(session.on_event(odd), DiscoveryStep::Finished);
    assert_eq!(session.on_event(DiscoveryEvent::Silence), DiscoveryStep::Finished);
    let devices = session.into_devices();
    assert_eq!(devices.len(), 2);
    assert_eq!((devices[0].index, devices[0].name.as_str()), (1, "pc"));
    assert_eq!((devices[1].index, devices[1].name.as_str()), (2, "tv"));
    assert_eq!(devices[1].ip, "10.0.0.3:1");
}

#[test]
fn search_ends_where_indices_do() {
    let mut session = DiscoverySession::new();
    for _ in 0..MAX_DEVICES {
        assert_eq!(session.add("d".to_string(), "i".to_string()), DiscoveryStep::Continue);
    }
    assert_eq!(session.add("d".to_string(), "i".to_string()), DiscoveryStep::Overflow);
    let devices = session.into_devices();
    assert_eq!(devices.len(), 254);
    assert_eq!(devices[253].index, 254);
}

#[test]
fn active_and_absent_devices_are_shown() {
    let mut known = PeersStorage::empty();
    known.insert("tv".to_string(), "1".to_string());
    known.insert("phone".to_string(), "2".to_string());
    let active = vec![device(7, "pc", "10.0.0.1:1"), device(9, "tv", "10.0.0.2:1")];
    let shown = scan_network_devices(active, &known).unwrap();
    let seen: Vec<(u8, &str, &str)> =
        shown.iter().map(|d| (d.index, d.name.as_str(), d.ip.as_str())).collect();
    assert_eq!(
        seen,
        vec![(1, "pc", "10.0.0.1:1"), (2, "tv", "10.0.0.2:1"), (3, "phone", "Offline")]
    );
}

#[test]
fn two_devices_of_one_name_are_both_shown() {
    let active = vec![device(1, "pc", "a"), device(2, "pc", "b")];
    let shown = scan_network_devices(active, &PeersStorage::empty()).unwrap();
    assert_eq!(shown.len(), 2);
    assert_eq!(shown[1].index, 2);
}

#[test]
fn too_many_devices_cannot_be_shown() {
    let active: Vec<DeviceInfo> = (0..254).map(|i| device(1, &format!("d{}", i), "a")).collect();
    let mut known = PeersStorage::empty();
    assert_eq!(scan_network_devices(active.clone(), &known).unwrap().len(), 254);
    known.insert("d0".to_string(), "1".to_string());
    assert_eq!(scan_network_devices(active.clone(), &known).unwrap().len(), 254);
    known.insert("other".to_string(), "1".to_string());
    assert!(scan_network_devices(active, &known).is_none());
    let many: Vec<DeviceInfo> = (0..255).map(|_| device(1, "d", "a")).collect();
    assert!(scan_network_devices(many, &PeersStorage::empty()).is_none());
}

#[test]
fn conversions_keep_everything() {
    let shown = GuiDeviceInfo::from(device(3, "pc", "10.0.0.1:1").clone()).clone();
    assert_eq!((shown.index, shown.name.as_str(), shown.ip.as_str()), (3, "pc", "10.0.0.1:1"));
    let file = FileIndexing {
        id: 77,
        name: "n".to_string(),
        size: 5,
        path: "/p/n".to_string(),
        is_dir: true,
        parent_dir: Some("p".to_string()),
    };
    let shown = GuiFileIndexing::from(file).clone();
    assert_eq!((shown.id, shown.size, shown.is_dir), (77, 5, true));
    assert_eq!((shown.name.as_str(), shown.path.as_str()), ("n", "/p/n"));
    assert_eq!(shown.parent_dir.as_deref(), Some("p"));
    let event = GuiPairingEvent { device_name: "d".to_string(), fingerprint: "f".to_string() };
    let copy = event.clone();
    assert_eq!((copy.device_name.as_str(), copy.fingerprint.as_str()), ("d", "f"));
}

#[test]
fn remote_files_keep_their_order() {
    let file = |id: u64| FileIndexing {
        id,
        name: id.to_string(),
        size: id * 2,
        path: format!("/{}", id),
        is_dir: false,
        parent_dir: None,
    };
    let index = DeviceIndex { files: vec![file(5), file(3), file(4)] };
    let files = get_remote_device_files(Ok(index)).unwrap();
    let ids: Vec<usize> = files.iter().map(|f| f.id).collect();
    assert_eq!(ids, vec![5, 3, 4]);
    assert_eq!(files[2].size, 8);
    assert_eq!(get_remote_device_files(Err(failed())).unwrap_err(), "I/O Error: disk");
}

#[test]
fn shown_id_is_requested() {
    assert_eq!(download_request(0x0102), vec![3, 0, 0, 0, 0, 0, 0, 1, 2]);
}

#[test]
fn server_starts_once() {
    let mut server = started("pc");
    match server.start_gui_server(Ok(config("new"))) {
        Ok(StartStep::Running(message)) => assert_eq!(message, "Server running as: new"),
        _ => panic!("started again"),
    }
    assert!(server.stop_gui_server());
    assert!(!server.stop_gui_server());
    assert!(matches!(server.start_gui_server(Ok(config("pc"))), Ok(StartStep::NeedsIdentity)));
}

#[test]
fn failures_to_start() {
    let mut server = GuiServer::new();
    assert_eq!(server.start_gui_server(Err(failed())).unwrap_err(), "I/O Error: disk");
    assert!(matches!(server.start_gui_server(Ok(config("pc"))), Ok(StartStep::NeedsIdentity)));
    let error = AppError::NetworkError("x".to_string());
    assert_eq!(server.identified(Err(error)).unwrap_err(), "Network Error: x");
    assert!(!server.stop_gui_server());
}

#[test]
fn pairing_is_about_the_last_request() {
    let mut server = started("pc");
    let event = server.pairing_requested(request("a")).unwrap();
    assert_eq!((event.device_name.as_str(), event.fingerprint.as_str()), ("a", "fp-a"));
    server.pairing_requested(request("b"));
    let accepted = server.respond_pairing_decision(true).unwrap();
    assert_eq!((accepted.device_name.as_str(), accepted.fingerprint.as_str()), ("b", "fp-b"));
    assert!(server.respond_pairing_decision(true).is_none());
}

#[test]
fn refused_request_is_forgotten() {
    let mut server = GuiServer::new();
    assert!(server.pairing_requested(request("a")).is_none());
    assert!(server.respond_pairing_decision(false).is_none());
    assert!(server.respond_pairing_decision(true).is_none());
}

#[test]
fn settings_of_the_interface() {
    assert_eq!(get_share_roots(Ok(config("pc"))).unwrap(), vec!["/a"]);
    assert_eq!(get_share_roots(Err(failed())).unwrap_err(), "I/O Error: disk");
    assert_eq!(get_download_directory(Ok(config("pc"))).unwrap(), "/dl");
    assert_eq!(get_download_directory(Err(failed())).unwrap_err(), "I/O Error: disk");
    let roots = vec!["/x".to_string(), "/y".to_string()];
    let changed = update_share_roots(Ok(config("pc")), &roots).unwrap();
    assert_eq!(changed.share_roots, roots);
    assert_eq!(changed.download_dir, "/dl");
    assert_eq!(update_share_roots(Err(failed()), &roots).unwrap_err(), "I/O Error: disk");
    let moved = update_download_directory(Ok(config("pc")), "/new").unwrap();
    assert_eq!(moved.download_dir, "/new");
    assert_eq!(moved.share_roots, vec!["/a"]);
    assert_eq!(update_download_directory(Err(failed()), "/new").unwrap_err(), "I/O Error: disk");
}

#[test]
fn stored_settings_reach_the_server() {
    let mut server = started("pc");
    let mut other = config("other");
    other.share_roots = vec!["/x".to_string()];
    other.download_dir = "/y".to_string();
    assert!(server.share_roots_stored(Ok(other.clone())).is_ok());
    let live = server.live().unwrap();
    assert_eq!(live.share_roots, vec!["/x"]);
    assert_eq!((live.download_dir.as_str(), live.device_name.as_str()), ("/dl", "pc"));
    assert!(server.download_directory_stored(Ok(other)).is_ok());
    let live = server.live().unwrap();
    assert_eq!((live.download_dir.as_str(), live.device_name.as_str()), ("/y", "pc"));
    let mut idle = GuiServer::new();
    assert!(idle.share_roots_stored(Ok(config("other"))).is_ok());
    assert!(idle.live().is_none());
    assert_eq!(server.share_roots_stored(Err(failed())).unwrap_err(), "I/O Error: disk");
    assert_eq!(server.download_directory_stored(Err(failed())).unwrap_err(), "I/O Error: disk");
}
