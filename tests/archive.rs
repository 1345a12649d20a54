use rhg_engine::archive::{Archive, ArchiveFile, ARCHIVE_MAGIC_NUMBER, ARCHIVE_VERSION};
use rhg_engine::error::ErrorKind;
use rhg_engine::filter::Filter;
use rhg_engine::select::filter_files;

fn le(bytes: &[u8], at: usize) -> u64 {
    let mut b = [0u8; 8];
    b.copy_from_slice(&bytes[at..at + 8]);
    u64::from_le_bytes(b)
}

fn sample() -> Archive {
    let mut a = Archive::default();
    a.add_file("dir/a.txt", b"hello").expect("add a");
    a.add_file("b.bin", &[]).expect("add b");
    let magic = ARCHIVE_MAGIC_NUMBER.to_le_bytes();
    a.add(ArchiveFile::with_times("x/y/c.dat", &magic, Some(1700000000), Some(1700000100)))
        .expect("add c");
    a
}

#[test]
fn round_trip() {
    let mut a = sample();
    let bytes = a.save(Some(String::from("out.pak")), 1800000000).expect("save");
    let b = Archive::load("out.pak", &bytes).expect("load");
    assert_eq!(b.files().len(), 3);
    for (x, y) in a.files().iter().zip(b.files().iter()) {
        assert_eq!(x.path(), y.path());
        assert_eq!(x.content(), y.content());
        assert_eq!(x.created_at(), y.created_at());
        assert_eq!(x.modified_at(), y.modified_at());
        assert_eq!(x.offset(), y.offset());
        assert_eq!(y.archived_at(), Some(1800000000));
    }
    assert_eq!(b.files()[2].created_at(), Some(1700000000));
    assert_eq!(b.files()[0].created_at(), None);
}

#[test]
fn layout_is_bit_exact() {
    let mut a = Archive::new();
    a.add_file("ab", b"xyz").expect("add");
    let bytes = a.save(None, 7).expect("save");
    let v = ARCHIVE_VERSION.len();
    let header = 24 + v + 48 + 2;
    assert_eq!(bytes.len(), header + 3);
    assert_eq!(le(&bytes, 0), 0xdeadbeef);
    assert_eq!(le(&bytes, 8), v as u64);
    assert_eq!(&bytes[16..16 + v], ARCHIVE_VERSION.as_bytes());
    assert_eq!(le(&bytes, 16 + v), 1);
    let e = 24 + v;
    assert_eq!(le(&bytes, e), 2);
    assert_eq!(&bytes[e + 8..e + 10], b"ab");
    assert_eq!(le(&bytes, e + 10), 3);
    assert_eq!(le(&bytes, e + 18), header as u64);
    assert_eq!(le(&bytes, e + 26), 0);
    assert_eq!(le(&bytes, e + 34), 0);
    assert_eq!(le(&bytes, e + 42), 7);
    assert_eq!(&bytes[header..], b"xyz");
    assert_eq!(a.files()[0].offset(), header as u64);
    assert_eq!(a.files()[0].archived_at(), Some(7));
}

#[test]
fn offsets_stay_inside_and_apart() {
    let mut a = sample();
    let bytes = a.save(None, 1).expect("save");
    let files = a.files();
    for f in files {
        assert!(f.offset() as usize + f.content_len() <= bytes.len());
        assert_eq!(&bytes[f.offset() as usize..f.offset() as usize + f.content_len()], &f.content()[..]);
    }
    for i in 0..files.len() {
        for j in i + 1..files.len() {
            assert!(files[i].offset() as usize + files[i].content_len() <= files[j].offset() as usize);
        }
    }
}

#[test]
fn duplicate_names_are_rejected() {
    let mut a = sample();
    let before = a.files().len();
    let e = a.add_file("other/dir/a.txt", b"new").unwrap_err();
    assert_eq!(e.kind(), ErrorKind::IO);
    assert_eq!(a.files().len(), before);
    assert_eq!(a.files()[0].content(), &b"hello".to_vec());
    assert!(a.add_file("b.bin", b"").is_err());
    assert!(a.add_file("dir/a.txt2", b"").is_ok());
}

#[test]
fn identity_matching() {
    let f = ArchiveFile::new("dir/sub/name.txt", b"");
    assert!(f.matches("dir/sub/name.txt"));
    assert!(f.matches("elsewhere/name.txt"));
    assert!(f.matches("name.txt"));
    assert!(!f.matches("dir/sub/other.txt"));
    let dotted = ArchiveFile::new("a/x/.", b"");
    assert!(dotted.matches("b/x"));
    assert!(ArchiveFile::new("a/b/x.txt", b"").matches("c/x.txt"));
    let root = ArchiveFile::new("/", b"");
    assert!(root.matches("/"));
    assert!(!root.matches("//"));
}

#[test]
fn names_and_extensions() {
    let cases: [(&str, Option<&str>, Option<&str>); 15] = [
        ("a/.", Some("a"), None),
        ("a/x/./", Some("x"), None),
        ("a/b.c/.//.", Some("b.c"), Some("c")),
        (".", None, None),
        ("./.", None, None),
        ("/.", None, None),
        ("a/b/c.txt", Some("c.txt"), Some("txt")),
        ("c.tar.gz", Some("c.tar.gz"), Some("gz")),
        ("dir/", Some("dir"), None),
        (".bashrc", Some(".bashrc"), None),
        ("a/..", None, None),
        ("", None, None),
        ("/", None, None),
        ("x.", Some("x."), Some("")),
        ("..a", Some("..a"), Some("a")),
    ];
    for (p, name, ext) in cases {
        let f = ArchiveFile::new(p, b"");
        assert_eq!(f.name().as_deref(), name, "name of {:?}", p);
        assert_eq!(f.extension().as_deref(), ext, "extension of {:?}", p);
    }
}

#[test]
fn magic_number_gate() {
    let mut a = sample();
    let mut bytes = a.save(None, 3).expect("save");
    bytes[0] ^= 1;
    let e = Archive::load("x", &bytes).unwrap_err();
    assert_eq!(e.kind(), ErrorKind::IO);
    assert!(Archive::load("x", &[]).is_err());
    assert!(Archive::load("x", &[0xef, 0xbe, 0xad, 0xde]).is_err());
}

#[test]
fn truncated_archives_fail() {
    let mut a = sample();
    let bytes = a.save(None, 3).expect("save");
    for cut in [bytes.len() - 1, 30, 16] {
        assert!(Archive::load("x", &bytes[..cut]).is_err(), "cut at {}", cut);
    }
}

#[test]
fn empty_archive_round_trips() {
    let mut a = Archive::default();
    let bytes = a.save(None, 3).expect("save");
    assert_eq!(bytes.len(), 24 + ARCHIVE_VERSION.len());
    let b = Archive::load("e", &bytes).expect("load");
    assert!(b.files().is_empty());
}

#[test]
fn lookup_and_removal() {
    let mut a = sample();
    assert!(a.contains_file("a.txt"));
    assert!(!a.contains_file("zzz"));
    assert_eq!(a.get_file("q/c.dat").expect("found").path(), "x/y/c.dat");
    let removed = a.remove_file("c.dat").expect("removed");
    assert_eq!(removed.path(), "x/y/c.dat");
    assert_eq!(a.files().len(), 2);
    assert!(a.remove_file("c.dat").is_none());
    assert_eq!(a.files().len(), 2);
}

#[test]
fn mutable_accessors() {
    let mut f = ArchiveFile::new("p", b"ab");
    f.content_mut().push(b'c');
    *f.offset_mut() = 9;
    f.path_mut().push_str("q");
    assert_eq!(f.content_len(), 3);
    assert_eq!(f.offset(), 9);
    assert_eq!(f.path(), "pq");
    let mut a = Archive::new();
    a.files_mut().push(f);
    assert_eq!(a.files()[0].path(), "pq");
    let g = a.add_file("r", b"").expect("add");
    *g.offset_mut() = 4;
    assert_eq!(a.files()[1].offset(), 4);
}

#[test]
fn selection_by_filters() {
    let a = sample();
    let all = filter_files(&a, &[]).expect("all");
    assert_eq!(all.len(), 3);
    let txt = vec![Filter::parse("*.txt").unwrap(), Filter::parse("*.dat").unwrap()];
    let sel = filter_files(&a, &txt).expect("some");
    let names: Vec<String> = sel.iter().map(|f| f.path().clone()).collect();
    assert_eq!(names, vec![String::from("dir/a.txt"), String::from("x/y/c.dat")]);
    assert!(filter_files(&a, &[Filter::parse("*.png").unwrap()]).is_none());
}

#[test]
fn non_utf8_paths_load_lossily() {
    let mut a = Archive::new();
    a.add_file("ok", b"1").expect("add");
    let mut bytes = a.save(None, 1).expect("save");
    let e = 24 + ARCHIVE_VERSION.len();
    bytes[e + 8] = 0xff;
    let b = Archive::load("x", &bytes).expect("load");
    assert_eq!(b.files()[0].path(), "\u{fffd}k");
}

#[test]
fn stored_version_is_read_back() {
    let mut a = sample();
    let bytes = a.save(None, 5).expect("save");
    assert_eq!(Archive::stored_version(&bytes).as_deref(), Some(ARCHIVE_VERSION));
    assert_eq!(Archive::stored_version(&bytes[..12]), None);
    let mut other = bytes.clone();
    other[16] = b'9';
    let b = Archive::load("x", &other).expect("other versions still load");
    assert_eq!(b.files().len(), 3);
    assert_ne!(Archive::stored_version(&other).as_deref(), Some(ARCHIVE_VERSION));
}

#[test]
fn saving_again_gives_the_same_bytes() {
    let mut a = sample();
    let first = a.save(None, 11).expect("save");
    let offsets: Vec<u64> = a.files().iter().map(|f| f.offset()).collect();
    let second = a.save(None, 11).expect("save again");
    assert_eq!(first, second);
    let again: Vec<u64> = a.files().iter().map(|f| f.offset()).collect();
    assert_eq!(offsets, again);
    let third = a.save(None, 12).expect("save later");
    assert_ne!(first, third);
    assert!(a.files().iter().all(|f| f.archived_at() == Some(12)));
}

#[test]
fn archived_time_zero_comes_back() {
    let mut a = Archive::new();
    a.add_file("f", b"1").expect("add");
    let bytes = a.save(None, 0).expect("save");
    let b = Archive::load("x", &bytes).expect("load");
    assert_eq!(b.files()[0].archived_at(), Some(0));
    assert_eq!(b.files()[0].created_at(), None);
}

#[test]
fn default_file_is_empty() {
    let f = ArchiveFile::default();
    assert_eq!(f.path(), "");
    assert_eq!(f.content_len(), 0);
    assert_eq!(f.offset(), 0);
    assert_eq!(f.archived_at(), None);
}

#[test]
fn epoch_timestamps_read_back_as_unknown() {
    let mut a = Archive::new();
    a.add(ArchiveFile::with_times("f", b"x", Some(0), Some(5))).expect("add");
    let bytes = a.save(None, 9).expect("save");
    let b = Archive::load("x", &bytes).expect("load");
    assert_eq!(b.files()[0].path(), "f");
    assert_eq!(b.files()[0].content(), &b"x".to_vec());
    assert_eq!(b.files()[0].created_at(), None);
    assert_eq!(b.files()[0].modified_at(), Some(5));
}
