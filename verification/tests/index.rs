use devices_manager::digest::{
    compute_stable_file_id, fingerprint, fingerprint_from_digest, id_from_digest,
};
use devices_manager::index::{
    find_file_flat, get_optimal_worker_count, is_private, scan_folder, DeviceIndex, FileIndexing,
    FolderEntry, IndexBuilder,
};
use devices_manager::paths::{get_app_data_path, part_file_name, set_app_data_dir};
use devices_manager::sort::{may_precede, sort_entries};

fn file(id: u64, name: &str, is_dir: bool) -> FileIndexing {
    FileIndexing {
        id,
        name: name.to_string(),
        size: 0,
        path: format!("/{}", name),
        is_dir,
        parent_dir: None,
    }
}

fn entry(dir: &str, name: &str, is_dir: Option<bool>, size: Option<u64>) -> FolderEntry {
    FolderEntry { name: name.to_string(), path: format!("{}/{}", dir, name), is_dir, size }
}

fn names(files: &[FileIndexing]) -> Vec<String> {
    files.iter().map(|f| f.name.clone()).collect()
}

#[test]
fn fingerprint_is_the_hex_digest() {
    assert_eq!(
        fingerprint(b"abc"),
        "ba7816bf8f01cfea414140de5dae2223b00361a396177a9cb410ff61f20015ad"
    );
    assert_eq!(
        fingerprint(b""),
        "e3b0c44298fc1c149afbf4c8996fb92427ae41e4649b934ca495991b7852b855"
    );
    assert_eq!(fingerprint_from_digest(&[0x00, 0x0f, 0xf0, 0xab]), "000ff0ab");
}

#[test]
fn file_id_is_the_head_of_the_digest() {
    assert_eq!(compute_stable_file_id("abc"), 0xba78_16bf_8f01_cfea);
    assert_eq!(compute_stable_file_id(""), 0xe3b0_c442_98fc_1c14);
    assert_eq!(id_from_digest(&[0, 0, 0, 0, 0, 0, 1, 2, 99]), 0x0102);
}

#[test]
fn private_names() {
    for name in ["key.der", "cert.der", "peers.json", "config.json", "film.mkv.17.part", ".part"] {
        assert!(is_private(name), "{}", name);
    }
    for name in ["key.der.bak", "Key.der", "part", "film.part.mkv", ""] {
        assert!(!is_private(name), "{}", name);
    }
    assert!(is_private(&part_file_name("film.mkv", 17)));
}

#[test]
fn scanning_a_folder() {
    let scanned = scan_folder(
        "music",
        vec![
            entry("/srv/music", "a.txt", Some(false), Some(7)),
            entry("/srv/music", "key.der", Some(false), Some(9)),
            entry("/srv/music", "sub", Some(true), Some(4096)),
            entry("/srv/music", "broken", None, None),
            entry("/srv/music", "x.1.part", Some(true), None),
        ],
    );
    assert_eq!(names(&scanned.items), vec!["a.txt", "sub", "broken"]);
    assert_eq!(scanned.items[0].size, 7);
    assert_eq!(scanned.items[1].size, 0);
    assert!(scanned.items[1].is_dir);
    assert_eq!(scanned.items[2].size, 0);
    assert!(!scanned.items[2].is_dir);
    for f in &scanned.items {
        assert_eq!(f.parent_dir.as_deref(), Some("music"));
        assert_eq!(f.id, compute_stable_file_id(&f.path));
    }
    assert_eq!(scanned.folders, vec![("/srv/music/sub".to_string(), "sub".to_string())]);
}

#[test]
fn building_an_index() {
    let mut builder = IndexBuilder::new();
    builder.add_root("/srv/music");
    builder.add_root("/");
    let (path, name) = builder.take_folder().unwrap();
    assert_eq!((path.as_str(), name.as_str()), ("/", "/"));
    let (path, name) = builder.take_folder().unwrap();
    assert_eq!((path.as_str(), name.as_str()), ("/srv/music", "music"));
    builder.absorb(scan_folder(
        &name,
        vec![
            entry("/srv/music", "b.txt", Some(false), Some(1)),
            entry("/srv/music", "sub", Some(true), None),
            entry("/srv/music", "a.txt", Some(false), Some(2)),
        ],
    ));
    let (path, name) = builder.take_folder().unwrap();
    assert_eq!((path.as_str(), name.as_str()), ("/srv/music/sub", "sub"));
    assert!(builder.take_folder().is_none());
    let index = builder.finish();
    assert_eq!(names(&index.files), vec!["/", "music", "sub", "a.txt", "b.txt"]);
    assert_eq!(index.files[1].parent_dir, None);
    assert_eq!(index.files[1].size, 0);
    assert_eq!(index.files[1].id, compute_stable_file_id("/srv/music"));
    assert_eq!(index.files[2].parent_dir.as_deref(), Some("music"));
}

/// The index of some roots in a small tree: one folder below `/r`, and nothing else.
fn build(roots: &[&str]) -> Vec<(String, Option<String>)> {
    let mut builder = IndexBuilder::new();
    for root in roots {
        builder.add_root(root);
    }
    while let Some((path, name)) = builder.take_folder() {
        let entries = match path.as_str() {
            "/r" => vec![entry("/r", "sub", Some(true), None), entry("/r", "f", Some(false), Some(1))],
            "/r/sub" => vec![entry("/r/sub", "g", Some(false), Some(2))],
            _ => continue,
        };
        builder.absorb(scan_folder(&name, entries));
    }
    let mut all: Vec<(String, Option<String>)> =
        builder.finish().files.into_iter().map(|f| (f.path, f.parent_dir)).collect();
    all.sort();
    all
}

#[test]
fn indices_add_up() {
    for (a, b) in [(vec!["/r"], vec!["/r/sub"]), (vec!["/r"], vec!["/r"]), (vec!["/x"], vec![])] {
        let mut apart = build(&a);
        apart.extend(build(&b));
        apart.sort();
        let mut roots = a.clone();
        roots.extend(b);
        assert_eq!(build(&roots), apart);
    }
    assert_eq!(build(&["/r", "/r"]).len(), 8);
}

#[test]
fn folders_come_first_and_names_follow_their_bytes() {
    let sorted = sort_entries(vec![
        file(1, "b", false),
        file(2, "a", false),
        file(3, "z", true),
        file(4, "Z", true),
        file(5, "é", false),
        file(6, "ab", false),
    ]);
    assert_eq!(names(&sorted), vec!["Z", "z", "a", "ab", "b", "é"]);
    assert!(may_precede(&file(0, "z", true), &file(0, "a", false)));
    assert!(!may_precede(&file(0, "a", false), &file(0, "z", true)));
    assert!(may_precede(&file(0, "a", false), &file(0, "a", false)));
}

#[test]
fn equal_entries_keep_their_order() {
    let mut input = Vec::new();
    for id in 0..40u64 {
        input.push(file(id, if id % 3 == 0 { "x" } else { "y" }, id % 2 == 0));
    }
    let mut expected = input.clone();
    expected.sort_by(|a, b| b.is_dir.cmp(&a.is_dir).then_with(|| a.name.cmp(&b.name)));
    let ids = |files: &[FileIndexing]| files.iter().map(|f| f.id).collect::<Vec<u64>>();
    assert_eq!(ids(&sort_entries(input)), ids(&expected));
    assert!(sort_entries(Vec::new()).is_empty());
}

#[test]
fn finding_by_id() {
    let index = DeviceIndex { files: vec![file(3, "a", false), file(4, "b", false), file(4, "c", false)] };
    assert_eq!(find_file_flat(index.clone(), 4).unwrap().name, "b");
    assert!(find_file_flat(index, 5).is_none());
    assert!(find_file_flat(DeviceIndex::default(), 0).is_none());
}

#[test]
fn copies_say_the_same() {
    let mut f = file(9, "n", true);
    f.parent_dir = Some("p".to_string());
    let g = f.clone();
    assert_eq!((g.id, g.name, g.size, g.path, g.is_dir), (9, "n".to_string(), 0, "/n".to_string(), true));
    assert_eq!(g.parent_dir.as_deref(), Some("p"));
}

#[test]
fn worker_counts() {
    assert_eq!(get_optimal_worker_count(None, false), 4);
    assert_eq!(get_optimal_worker_count(None, true), 2);
    assert_eq!(get_optimal_worker_count(Some(1), false), 2);
    assert_eq!(get_optimal_worker_count(Some(1), true), 1);
    assert_eq!(get_optimal_worker_count(Some(8), false), 8);
    assert_eq!(get_optimal_worker_count(Some(9), false), 6);
    assert_eq!(get_optimal_worker_count(Some(28), false), 21);
    assert_eq!(get_optimal_worker_count(Some(28), true), 2);
}

#[test]
fn own_files() {
    let mut chosen = None;
    assert_eq!(get_app_data_path(&chosen, "peers.json"), "./data/peers.json");
    set_app_data_dir(&mut chosen, "/var/app".to_string());
    assert_eq!(get_app_data_path(&chosen, "peers.json"), "/var/app/peers.json");
    set_app_data_dir(&mut chosen, "/tmp".to_string());
    assert_eq!(get_app_data_path(&chosen, "peers.json"), "/var/app/peers.json");
    assert_eq!(get_app_data_path(&chosen, "/etc/x"), "/etc/x");
    let separator = std::path::MAIN_SEPARATOR;
    let drive = Some("C:\\data".to_string());
    assert_eq!(get_app_data_path(&drive, "x"), format!("C:\\data{}x", separator));
    let trailing = Some("/var/app/".to_string());
    assert_eq!(get_app_data_path(&trailing, "x"), "/var/app/x");
}

#[test]
fn unfinished_files_have_their_own_names() {
    assert_eq!(part_file_name("film.mkv", 17), "film.mkv.17.part");
    assert_eq!(part_file_name("", 0), ".0.part");
}
