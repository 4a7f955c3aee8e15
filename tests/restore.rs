use duplicati_restore::blockid::{parse_dlist, Field, FileEntry, FileType, IEntry, MalformedListing};
use duplicati_restore::codec::{base64_plain_to_url, base64_url_to_plain};
use duplicati_restore::database::{ArchiveMembers, ManifestError, DB};
use duplicati_restore::image::write_at;
use duplicati_restore::restore::{block_list_writes, restore_passes, RestoreAction};
use duplicati_restore::snapshot::{is_dlist_name, name_lt, newest_dlist};
use std::collections::{BTreeMap, HashMap};

/// A backup in memory: content blocks by standard id, and an index over
/// archives whose members carry the URL-safe names of those blocks.
struct Backup {
    db: DB,
    blocks: HashMap<String, Vec<u8>>,
    number_to_name: BTreeMap<usize, String>,
}

fn hash_of(tag: u8) -> Vec<u8> {
    (0..32u8).map(|i| i.wrapping_mul(7).wrapping_add(tag)).collect()
}

fn id_of(tag: u8) -> String {
    base64::encode(hash_of(tag))
}

fn backup(block_size: i64, blocks: Vec<(String, Vec<u8>)>) -> Backup {
    let names: Vec<String> = blocks.iter().map(|(id, _)| base64_plain_to_url(id)).collect();
    let archive = ArchiveMembers { number: 0, names };
    let db = DB::new(block_size).unwrap().create_block_id_to_filenames(&vec![archive]);
    let mut number_to_name = BTreeMap::new();
    number_to_name.insert(0usize, "b-dblock.zip".to_string());
    Backup { db, blocks: blocks.into_iter().collect(), number_to_name }
}

impl Backup {
    fn fetch(&self, id: &str) -> Option<Vec<u8>> {
        self.db.get_filename_from_block_id(id, &self.number_to_name)?;
        self.blocks.get(id).cloned()
    }

    /// Restores one file entry in memory; returns its bytes and the number
    /// of diagnostics emitted.
    fn restore(&self, entry: &FileEntry) -> (Vec<u8>, usize) {
        let mut image = Vec::new();
        let mut diagnostics = 0;
        match entry.restore_action() {
            RestoreAction::WriteBlock { block_id, report_if_absent } => match self.fetch(&block_id) {
                Some(b) => write_at(&mut image, 0, &b),
                None => {
                    if report_if_absent {
                        diagnostics += 1;
                    }
                }
            },
            RestoreAction::WriteBlockLists => {
                for (i, list_id) in entry.block_lists.iter().enumerate() {
                    match self.fetch(list_id) {
                        Some(payload) => {
                            for w in block_list_writes(&self.db, i, &payload) {
                                match self.fetch(&w.block_id) {
                                    Some(b) => write_at(&mut image, w.offset as usize, &b),
                                    None => diagnostics += 1,
                                }
                            }
                        }
                        None => diagnostics += 1,
                    }
                }
            }
            _ => {}
        }
        (image, diagnostics)
    }
}

fn file_entry(path: &str, hash: &str, size: i64, block_lists: Vec<String>) -> FileEntry {
    FileEntry {
        path: path.to_string(),
        metahash: "m".to_string(),
        metasize: 1,
        file_type: FileType::File { hash: hash.to_string(), size, time: "t".to_string() },
        block_lists,
    }
}

fn folder_entry(path: &str) -> FileEntry {
    FileEntry {
        path: path.to_string(),
        metahash: "m".to_string(),
        metasize: 1,
        file_type: FileType::Folder { metablockhash: "mb".to_string() },
        block_lists: Vec::new(),
    }
}

fn raw(filetype: &str) -> IEntry {
    IEntry {
        hash: None,
        metablockhash: None,
        metahash: "mh".to_string(),
        metasize: 7,
        path: "/x".to_string(),
        filetype: filetype.to_string(),
        size: None,
        time: None,
        blocklists: None,
    }
}

#[test]
fn small_file_single_block() {
    let h = id_of(1);
    let b = backup(32, vec![(h.clone(), b"abc".to_vec())]);
    let entry = file_entry("/a", &h, 3, Vec::new());
    assert_eq!(entry.relative_path(), "a");
    assert_eq!(b.restore(&entry), (b"abc".to_vec(), 0));
}

#[test]
fn large_file_one_block_list_two_blocks() {
    // 64-byte blocks: one block-list holds two hashes.
    let x: Vec<u8> = (0..64u8).collect();
    let y = b"45".to_vec();
    let mut payload = hash_of(2);
    payload.extend(hash_of(3));
    let list = id_of(9);
    let b = backup(64, vec![(list.clone(), payload), (id_of(2), x.clone()), (id_of(3), y.clone())]);
    let entry = file_entry("/big", &id_of(8), 66, vec![list]);
    let mut expected = x;
    expected.extend(y);
    assert_eq!(b.restore(&entry), (expected, 0));
}

#[test]
fn large_file_two_block_lists() {
    // 32-byte blocks: each block-list holds one hash, so the second list
    // starts at offset (32 / 32) * 32 = 32.
    let a = vec![b'p'; 32];
    let c = vec![b'r'; 32];
    let (l0, l1) = (id_of(10), id_of(11));
    let b = backup(
        32,
        vec![(l0.clone(), hash_of(4)), (l1.clone(), hash_of(5)), (id_of(4), a.clone()), (id_of(5), c.clone())],
    );
    assert_eq!(b.db.offset_size(), 32);
    let entry = file_entry("/two", &id_of(12), 64, vec![l0, l1]);
    let mut expected = a;
    expected.extend(c);
    assert_eq!(b.restore(&entry), (expected, 0));
}

#[test]
fn missing_content_block_leaves_hole() {
    let x: Vec<u8> = (0..64u8).collect();
    let mut payload = hash_of(2);
    payload.extend(hash_of(3));
    let list = id_of(9);
    let b = backup(64, vec![(list.clone(), payload), (id_of(2), x.clone())]);
    let entry = file_entry("/big", &id_of(8), 66, vec![list]);
    let (bytes, diagnostics) = b.restore(&entry);
    // The second block would have started at 64; nothing was written there.
    assert_eq!(bytes, x);
    assert_eq!(diagnostics, 1);
    // A hole followed by a later write reads as zeros.
    let mut image = Vec::new();
    write_at(&mut image, 0, b"0123");
    write_at(&mut image, 6, b"7");
    assert_eq!(image, b"0123\0\07".to_vec());
}

#[test]
fn folder_before_file() {
    let entries = vec![folder_entry("/d"), file_entry("/d/f", &id_of(20), 0, Vec::new())];
    let passes = restore_passes(&entries);
    assert_eq!(passes.folders, vec![0]);
    assert_eq!(passes.files, vec![1]);
    assert!(matches!(entries[0].restore_action(), RestoreAction::CreateDir));
    assert_eq!(entries[0].relative_path(), "d");
    assert_eq!(entries[1].relative_path(), "d/f");
    let b = backup(32, Vec::new());
    // An absent block for an empty file is no diagnostic.
    assert_eq!(b.restore(&entries[1]), (Vec::new(), 0));
    match entries[1].restore_action() {
        RestoreAction::WriteBlock { report_if_absent, .. } => assert!(!report_if_absent),
        _ => panic!("expected a direct block"),
    }
}

#[test]
fn two_dlists_newest_wins() {
    let names = vec![
        "backup/20200101-dlist.zip".to_string(),
        "backup/x-dblock.zip".to_string(),
        "backup/20200202-dlist.zip".to_string(),
        "backup/y-dblock.zip".to_string(),
    ];
    assert_eq!(newest_dlist(&names), Some(2));
    let reversed: Vec<String> = names.iter().rev().cloned().collect();
    assert_eq!(newest_dlist(&reversed), Some(1));
    assert_eq!(newest_dlist(&vec!["a-dblock.zip".to_string()]), None);
    assert!(is_dlist_name("20200101-dlist.zip"));
    assert!(!is_dlist_name("list.zip"));
    assert!(name_lt("20200101", "20200202"));
    assert!(name_lt("ab", "abc"));
    assert!(!name_lt("abc", "abc"));
}

#[test]
fn base64_alphabets_round_trip() {
    let url = "ab-_cd-9";
    let std_form = base64_url_to_plain(url);
    assert_eq!(std_form, "ab+/cd+9");
    assert_eq!(base64_plain_to_url(&std_form), url);
    let s = "Zm9v+/x=";
    assert_eq!(base64_url_to_plain(&base64_plain_to_url(s)), s);
    assert_eq!(base64_url_to_plain(""), "");
}

#[test]
fn block_list_ids_are_standard_base64() {
    let db = DB::new(32).unwrap();
    let payload = vec![0u8; 32];
    let writes = block_list_writes(&db, 3, &payload);
    assert_eq!(writes.len(), 1);
    assert_eq!(writes[0].block_id, format!("{}=", "A".repeat(43)));
    assert_eq!(writes[0].offset, 3 * 32);
    let payload: Vec<u8> = vec![0xfb; 32];
    let writes = block_list_writes(&db, 0, &payload);
    assert!(writes[0].block_id.contains('+') || writes[0].block_id.contains('/'));
}

#[test]
fn block_list_offsets_follow_lists_and_blocks() {
    let db = DB::new(64).unwrap();
    assert_eq!(db.block_size(), 64);
    assert_eq!(db.hash_size(), 32);
    assert_eq!(db.offset_size(), 128);
    let payload = vec![1u8; 70];
    let writes = block_list_writes(&db, 2, &payload);
    let offsets: Vec<u64> = writes.iter().map(|w| w.offset).collect();
    assert_eq!(offsets, vec![256, 320, 384]);
    assert_eq!(writes[2].block_id, base64::encode([1u8; 6]));
    assert!(block_list_writes(&db, 0, &[]).is_empty());
}

#[test]
fn manifest_block_size_errors() {
    assert_eq!(DB::new(0).err(), Some(ManifestError::NonPositiveBlockSize));
    assert_eq!(DB::new(-32).err(), Some(ManifestError::NonPositiveBlockSize));
    assert_eq!(DB::new(100).err(), Some(ManifestError::NotMultipleOfHashSize));
    assert_eq!(DB::new(1i64 << 40).err(), Some(ManifestError::BlockSizeTooLarge));
    assert_eq!(DB::new(102400).unwrap().offset_size(), 3200 * 102400);
}

#[test]
fn index_covers_every_member() {
    let a0 = ArchiveMembers { number: 0, names: vec!["a-b".to_string(), "c_d".to_string()] };
    let a1 = ArchiveMembers { number: 1, names: vec!["e".to_string(), "a-b".to_string()] };
    let db = DB::new(32).unwrap().create_block_id_to_filenames(&vec![a0, a1]);
    assert_eq!(db.locate("c/d"), Some(0));
    assert_eq!(db.locate("e"), Some(1));
    assert!(matches!(db.locate("a+b"), Some(0) | Some(1)));
    assert_eq!(db.locate("a-b"), None);
    assert_eq!(db.locate("zz"), None);
    let mut number_to_name = BTreeMap::new();
    number_to_name.insert(0usize, "zero-dblock.zip".to_string());
    assert_eq!(db.get_filename_from_block_id("c/d", &number_to_name), Some("zero-dblock.zip".to_string()));
    assert_eq!(db.get_filename_from_block_id("e", &number_to_name), None);
    assert_eq!(db.get_filename_from_block_id("zz", &number_to_name), None);
}

#[test]
fn add_archive_records_members() {
    let mut db = DB::new(32).unwrap();
    db.add_archive(&ArchiveMembers { number: 5, names: vec!["x_y".to_string()] });
    assert_eq!(db.locate("x/y"), Some(5));
}

#[test]
fn listing_entries_by_kind() {
    let mut file = raw("File");
    file.hash = Some("h".to_string());
    file.size = Some(10);
    file.time = Some("now".to_string());
    file.blocklists = Some(vec!["l0".to_string(), "l1".to_string()]);
    let mut folder = raw("Folder");
    folder.metablockhash = Some("mb".to_string());
    let link = raw("SymLink");
    let entries = parse_dlist(&vec![file, folder, link]).unwrap();
    assert_eq!(entries.len(), 3);
    assert!(entries[0].is_file() && !entries[0].is_folder());
    assert_eq!(entries[0].block_lists, vec!["l0".to_string(), "l1".to_string()]);
    match &entries[0].file_type {
        FileType::File { hash, size, time } => {
            assert_eq!((hash.as_str(), *size, time.as_str()), ("h", 10, "now"))
        }
        _ => panic!("expected a file"),
    }
    assert!(entries[1].is_folder() && !entries[1].is_file());
    assert!(matches!(entries[2].file_type, FileType::SymLink));
    assert!(matches!(entries[2].restore_action(), RestoreAction::Skip));
    assert_eq!(entries[2].metasize, 7);
    assert_eq!(entries[2].metahash, "mh");
}

#[test]
fn listing_missing_fields() {
    let mut file = raw("File");
    assert_eq!(FileEntry::from_ientry(&file).err(), Some(Field::Hash));
    file.hash = Some("h".to_string());
    assert_eq!(FileEntry::from_ientry(&file).err(), Some(Field::Size));
    file.size = Some(1);
    assert_eq!(FileEntry::from_ientry(&file).err(), Some(Field::Time));
    file.time = Some("t".to_string());
    assert!(FileEntry::from_ientry(&file).is_ok());
    let folder = raw("Folder");
    assert_eq!(
        parse_dlist(&vec![file, folder]).err(),
        Some(MalformedListing { entry: 1, field: Field::MetaBlockHash })
    );
    assert!(parse_dlist(&Vec::new()).unwrap().is_empty());
}

#[test]
fn restore_twice_gives_same_bytes() {
    let x: Vec<u8> = (0..64u8).collect();
    let mut payload = hash_of(2);
    payload.extend(hash_of(3));
    let list = id_of(9);
    let b = backup(64, vec![(list.clone(), payload), (id_of(2), x), (id_of(3), b"45".to_vec())]);
    let entry = file_entry("/big", &id_of(8), 66, vec![list]);
    assert_eq!(b.restore(&entry), b.restore(&entry));
}
