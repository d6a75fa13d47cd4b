use devices_manager::config::{AppConfig, ConfigWrite, LegacyConfig, StoredConfig};
use devices_manager::digest::fingerprint;
use devices_manager::error::AppError;
use devices_manager::identity::{
    certificate_names, desktop_name, fresh_identity, get_fallback_device_name, make_cert_and_key, meaningful_name, SystemKind,
};
use devices_manager::peers::PeersStorage;
use devices_manager::trust::{PairingRequest, TofuClientVerifier, TofuVerifier, Verdict};

fn peers(pairs: &[(&str, &str)]) -> PeersStorage {
    let mut storage = PeersStorage::empty();
    for (name, fp) in pairs {
        storage.insert(name.to_string(), fp.to_string());
    }
    storage
}

fn config(name: &str) -> AppConfig {
    AppConfig {
        device_name: name.to_string(),
        share_roots: vec!["/a".to_string(), "/b".to_string()],
        download_dir: "/dl".to_string(),
        broadcast_addr: "10.0.0.255:8888".to_string(),
    }
}

#[test]
fn missing_file_trusts_nobody() {
    let storage = PeersStorage::load(None).unwrap();
    assert_eq!(storage.len(), 0);
    assert!(storage.get("x").is_none());
    assert!(!storage.knows_fingerprint("f"));
    assert_eq!(PeersStorage::path(&None), "./data/peers.json");
}

#[test]
fn peers_file_is_read() {
    let storage = PeersStorage::load(Some("{ \"b\": \"2\", \"a\": \"1\" }")).unwrap();
    assert_eq!(storage.len(), 2);
    assert_eq!(storage.get("a").map(|s| s.as_str()), Some("1"));
    assert_eq!(storage.get("b").map(|s| s.as_str()), Some("2"));
    assert!(storage.get("c").is_none());
    assert!(storage.knows_fingerprint("2"));
    assert!(!storage.knows_fingerprint("a"));
    let mut names = vec![storage.name_at(0).clone(), storage.name_at(1).clone()];
    names.sort();
    assert_eq!(names, vec!["a", "b"]);
}

#[test]
fn broken_peers_file_is_an_error() {
    for text in ["", "[]", "{\"a\": 1}", "{"] {
        match PeersStorage::load(Some(text)) {
            Err(AppError::JsonError(message)) => {
                let e = serde_json::from_str::<std::collections::HashMap<String, String>>(text)
                    .unwrap_err();
                assert_eq!(message, e.to_string());
            }
            _ => panic!("{}", text),
        }
    }
}

#[test]
fn trusted_devices_survive_the_file() {
    let storage = peers(&[("ö \"q\"", "1"), ("b", "2"), ("b", "3")]);
    assert_eq!(storage.len(), 2);
    let json = storage.save().unwrap();
    let again = PeersStorage::load(Some(&json)).unwrap();
    assert_eq!(again.len(), 2);
    assert_eq!(again.get("ö \"q\"").map(|s| s.as_str()), Some("1"));
    assert_eq!(again.get("b").map(|s| s.as_str()), Some("3"));
    assert_eq!(peers(&[("n", "f")]).save().unwrap(), "{\n  \"n\": \"f\"\n}");
}

#[test]
fn trusting_adds_to_the_file() {
    let first = PeersStorage::trust_peer(None, "a".to_string(), "1".to_string()).unwrap();
    let second = PeersStorage::trust_peer(Some(&first), "b".to_string(), "2".to_string()).unwrap();
    let third = PeersStorage::trust_peer(Some(&second), "a".to_string(), "9".to_string()).unwrap();
    let storage = PeersStorage::load(Some(&third)).unwrap();
    assert_eq!(storage.get("a").map(|s| s.as_str()), Some("9"));
    assert_eq!(storage.get("b").map(|s| s.as_str()), Some("2"));
    let broken = PeersStorage::trust_peer(Some("nonsense"), "a".to_string(), "1".to_string());
    assert!(matches!(broken, Err(AppError::JsonError(_))));
}

#[test]
fn server_is_trusted_if_it_is_pinned() {
    let verifier = TofuVerifier { target_device_name: "pc".to_string() };
    let known = Ok(peers(&[("pc", &fingerprint(b"cert"))]));
    assert!(matches!(verifier.verify_server_cert(b"cert", &known), Verdict::Trusted));
    match verifier.verify_server_cert(b"other", &known) {
        Verdict::Changed { message } => assert_eq!(message, "Host key fingerprint mismatch!"),
        other => panic!("{:?}", other),
    }
    let renamed = TofuVerifier { target_device_name: "tv".to_string() };
    assert!(matches!(renamed.verify_server_cert(b"cert", &known), Verdict::Unknown { .. }));
}

#[test]
fn unknown_server_can_be_paired() {
    let verifier = TofuVerifier { target_device_name: "pc".to_string() };
    let request = match verifier.verify_server_cert(b"cert", &Ok(PeersStorage::empty())) {
        Verdict::Unknown { message, request } => {
            assert_eq!(message, "Untrusted server: pc. Pairing requested.");
            request
        }
        other => panic!("{:?}", other),
    };
    assert_eq!(request.device_name, "pc");
    assert_eq!(request.fingerprint, fingerprint(b"cert"));
    let copy = request.clone();
    let json = PeersStorage::trust_peer(None, copy.device_name, copy.fingerprint).unwrap();
    let known = PeersStorage::load(Some(&json));
    assert!(matches!(verifier.verify_server_cert(b"cert", &known), Verdict::Trusted));
    assert!(matches!(verifier.verify_server_cert(b"other", &known), Verdict::Changed { .. }));
}

#[test]
fn unknown_client_can_be_paired() {
    let verifier = TofuClientVerifier {};
    let request = match verifier.verify_client_cert(b"abc", &Ok(PeersStorage::empty())) {
        Verdict::Unknown { message, request } => {
            assert_eq!(message, "Untrusted client: Peer-ba7816bf. Pairing requested.");
            request
        }
        other => panic!("{:?}", other),
    };
    assert_eq!(request.device_name, "Peer-ba7816bf");
    assert_eq!(request.fingerprint, fingerprint(b"abc"));
    let mut known = PeersStorage::empty();
    known.insert(request.device_name, request.fingerprint);
    assert!(matches!(verifier.verify_client_cert(b"abc", &Ok(known)), Verdict::Trusted));
}

#[test]
fn client_is_trusted_under_any_name() {
    let verifier = TofuClientVerifier {};
    let known = Ok(peers(&[("whatever", &fingerprint(b"cert"))]));
    assert!(matches!(verifier.verify_client_cert(b"cert", &known), Verdict::Trusted));
    assert!(matches!(verifier.verify_client_cert(b"other", &known), Verdict::Unknown { .. }));
}

#[test]
fn nobody_is_trusted_while_the_file_is_broken() {
    let failed = || PeersStorage::load(Some("[]"));
    let message = match failed() {
        Err(e) => format!("Failed to load trusted peers: {}", e.message()),
        Ok(_) => panic!("loaded"),
    };
    let server = TofuVerifier { target_device_name: "pc".to_string() };
    match server.verify_server_cert(b"cert", &failed()) {
        Verdict::Unavailable { message: m } => assert_eq!(m, message),
        other => panic!("{:?}", other),
    }
    match (TofuClientVerifier {}).verify_client_cert(b"cert", &failed()) {
        Verdict::Unavailable { message: m } => assert_eq!(m, message),
        other => panic!("{:?}", other),
    }
}

#[test]
fn trusting_one_device_leaves_the_others() {
    let verifier = TofuVerifier { target_device_name: "pc".to_string() };
    let known = Ok(peers(&[("pc", &fingerprint(b"cert")), ("tv", "f")]));
    assert!(matches!(verifier.verify_server_cert(b"cert", &known), Verdict::Trusted));
}

#[test]
fn requests_are_copied() {
    let q = PairingRequest { device_name: "d".to_string(), fingerprint: "f".to_string() };
    let c = q.clone();
    assert_eq!((c.device_name, c.fingerprint), ("d".to_string(), "f".to_string()));
}

#[test]
fn current_settings_are_kept() {
    let (c, write) =
        AppConfig::load_or_create(StoredConfig::Current(config("pc")), &None, SystemKind::Desktop);
    assert_eq!(write, ConfigWrite::Nothing);
    assert_eq!(c.device_name, "pc");
    assert_eq!(c.share_roots, vec!["/a", "/b"]);
    let copy = c.clone();
    assert_eq!(copy.share_roots, c.share_roots);
    assert_eq!(copy.broadcast_addr, "10.0.0.255:8888");
}

#[test]
fn old_settings_are_upgraded() {
    let old = LegacyConfig {
        device_name: "pc".to_string(),
        share_root: "/only".to_string(),
        download_dir: "/dl".to_string(),
        broadcast_addr: "1.2.3.4:5".to_string(),
    };
    let (c, write) =
        AppConfig::load_or_create(StoredConfig::Legacy(old), &None, SystemKind::Desktop);
    assert_eq!(write, ConfigWrite::BestEffort);
    assert_eq!(c.device_name, "pc");
    assert_eq!(c.share_roots, vec!["/only"]);
    assert_eq!(c.download_dir, "/dl");
    assert_eq!(c.broadcast_addr, "1.2.3.4:5");
}

#[test]
fn default_settings() {
    let chosen = Some("/var/app".to_string());
    for stored in [StoredConfig::Missing, StoredConfig::Unreadable] {
        let (c, write) = AppConfig::load_or_create(stored, &chosen, SystemKind::Android);
        assert_eq!(write, ConfigWrite::Required);
        assert_eq!(c.device_name, "Android Device");
        assert_eq!(c.share_roots, vec!["/var/app/shared"]);
        assert_eq!(c.download_dir, "/var/app/downloads");
        assert_eq!(c.broadcast_addr, "192.168.1.255:8888");
    }
    assert_eq!(AppConfig::path(&chosen), "/var/app/config.json");
}

#[test]
fn settings_can_be_changed() {
    let mut c = config("pc");
    c.set_share_roots(&vec!["/c".to_string()]);
    c.set_download_dir("/e");
    assert_eq!(c.share_roots, vec!["/c"]);
    assert_eq!(c.download_dir, "/e");
    assert_eq!(c.device_name, "pc");
}

#[test]
fn fallback_names() {
    assert_eq!(get_fallback_device_name(SystemKind::Android), "Android Device");
    assert_eq!(get_fallback_device_name(SystemKind::Other), "Generic Device");
    let name = get_fallback_device_name(SystemKind::Desktop);
    assert!(!name.is_empty() && name != "localhost");
    let told = whoami::devicename().unwrap_or_else(|_| "Desktop-Unknown".to_string());
    if told != "localhost" && !told.is_empty() {
        assert_eq!(name, told);
    } else {
        assert_eq!(name, whoami::platform().to_string());
    }
}

#[test]
fn meaningless_names_are_passed_over() {
    assert_eq!(meaningful_name(Some("pc".to_string())), Some("pc".to_string()));
    assert_eq!(meaningful_name(Some("localhost".to_string())), None);
    assert_eq!(meaningful_name(Some(String::new())), None);
    assert_eq!(meaningful_name(None), Some("Desktop-Unknown".to_string()));
}

#[test]
fn desktop_names() {
    let platform = || "Linux".to_string();
    assert_eq!(desktop_name(Some("pc".to_string()), platform()), "pc");
    assert_eq!(desktop_name(Some("localhost".to_string()), platform()), "Linux");
    assert_eq!(desktop_name(Some(String::new()), platform()), "Linux");
    assert_eq!(desktop_name(None, platform()), "Desktop-Unknown");
}

#[test]
fn stored_identity_is_used() {
    let id = make_cert_and_key(Some(vec![1]), Some(vec![2])).unwrap();
    assert_eq!((id.cert, id.key, id.fresh), (vec![1], vec![2], false));
}

#[test]
fn missing_identity_is_made() {
    assert_eq!(certificate_names(), vec!["localhost"]);
    for (cert, key) in [(None, None), (Some(vec![1]), None), (None, Some(vec![2]))] {
        let id = make_cert_and_key(cert, key).unwrap();
        assert!(id.fresh);
        assert!(id.cert.len() > 100);
        assert!(id.key.len() > 30);
        assert_eq!(id.cert[0], 0x30);
        assert_eq!(id.key[0], 0x30);
        assert!(id.cert.windows(9).any(|w| w == b"localhost"));
        let public = &id.key[id.key.len() - 65..];
        assert!(id.cert.windows(65).any(|w| w == public));
    }
}

#[test]
fn failure_to_make_an_identity() {
    match fresh_identity(Err("no entropy".to_string())) {
        Err(AppError::NetworkError(message)) => assert_eq!(message, "no entropy"),
        _ => panic!("made"),
    }
    let id = fresh_identity(Ok((vec![3], vec![4]))).unwrap();
    assert_eq!((id.cert, id.key, id.fresh), (vec![3], vec![4], true));
}
