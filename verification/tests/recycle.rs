use eksplora::recycle::{
    drive_bin_root, find_in_bin_under, is_info_file, norm_bin_path, paired_data_path,
    parse_bin_info, restore_from_bin, restore_from_bin_under, BinInfoError, InfoFile, RestoreError,
    RestoreFacts,
};
use eksplora::FilePath;

/// Build one `$I` metadata blob: header(1) + size + FILETIME + UTF-16 path.
fn bin_info_bytes(size: u64, deleted_at: u64, original: &str) -> Vec<u8> {
    let mut b = Vec::new();
    b.extend_from_slice(&1u64.to_le_bytes());
    b.extend_from_slice(&size.to_le_bytes());
    b.extend_from_slice(&deleted_at.to_le_bytes());
    for w in original.encode_utf16() {
        b.extend_from_slice(&w.to_le_bytes());
    }
    b.extend_from_slice(&0u16.to_le_bytes());
    b
}

#[test]
fn parses_bin_info_and_rejects_garbage() {
    let (size, at, path) = parse_bin_info(&bin_info_bytes(42, 777, "C:\\Users\\x\\a.txt")).unwrap();
    assert_eq!((size, at), (42, 777));
    assert_eq!(path, FilePath::new("C:\\Users\\x\\a.txt"));
    assert!(parse_bin_info(&[0u8; 10]).is_err()); // truncated
    let mut bad = bin_info_bytes(1, 1, "C:\\x");
    bad[0] = 9; // unknown header version
    assert!(parse_bin_info(&bad).is_err());
    let mut no_null = bin_info_bytes(1, 1, "C:\\x");
    no_null.truncate(no_null.len() - 2); // cut the terminator
    assert!(parse_bin_info(&no_null).is_err());
}

/// Build a v2 `$I` blob: header(2) + size + FILETIME + u32 wchar length
/// (including the null) + UTF-16 path + null.
fn bin_info_bytes_v2(size: u64, deleted_at: u64, original: &str) -> Vec<u8> {
    let mut b = Vec::new();
    b.extend_from_slice(&2u64.to_le_bytes());
    b.extend_from_slice(&size.to_le_bytes());
    b.extend_from_slice(&deleted_at.to_le_bytes());
    let w: Vec<u16> = original.encode_utf16().collect();
    b.extend_from_slice(&((w.len() + 1) as u32).to_le_bytes());
    for c in w {
        b.extend_from_slice(&c.to_le_bytes());
    }
    b.extend_from_slice(&0u16.to_le_bytes());
    b
}

#[test]
fn parses_bin_info_v2_layout() {
    let (size, at, path) =
        parse_bin_info(&bin_info_bytes_v2(2352118, 999, "C:\\Users\\michal\\Desktop\\a.wav"))
            .unwrap();
    assert_eq!((size, at), (2352118, 999));
    assert_eq!(path, FilePath::new("C:\\Users\\michal\\Desktop\\a.wav"));
    // Zero length / overrun / truncated are errors, not panics.
    let mut zero = bin_info_bytes_v2(1, 1, "C:\\x");
    zero[24..28].copy_from_slice(&0u32.to_le_bytes());
    assert!(parse_bin_info(&zero).is_err());
    let mut over = bin_info_bytes_v2(1, 1, "C:\\x");
    over.truncate(over.len() - 4);
    assert!(parse_bin_info(&over).is_err());
    assert!(parse_bin_info(&[0u8; 10]).is_err());
}

#[test]
fn each_bin_info_error_has_its_input() {
    assert_eq!(parse_bin_info(&[0u8; 27]).unwrap_err(), BinInfoError::TooShort(27));
    let mut bad = bin_info_bytes(1, 1, "C:\\x");
    bad[0] = 9;
    assert_eq!(parse_bin_info(&bad).unwrap_err(), BinInfoError::BadHeader(9));
    let mut zero = bin_info_bytes_v2(1, 1, "C:\\x");
    zero[24..28].copy_from_slice(&0u32.to_le_bytes());
    assert_eq!(parse_bin_info(&zero).unwrap_err(), BinInfoError::ZeroLength);
    let mut over = bin_info_bytes_v2(1, 1, "C:\\x");
    over.truncate(over.len() - 4);
    assert_eq!(parse_bin_info(&over).unwrap_err(), BinInfoError::Overrun);
    let mut open = bin_info_bytes(1, 1, "C:\\x");
    open.truncate(open.len() - 2);
    assert_eq!(parse_bin_info(&open).unwrap_err(), BinInfoError::NotTerminated);
    let mut empty = bin_info_bytes_v2(1, 1, "C:\\x");
    empty[24..28].copy_from_slice(&1u32.to_le_bytes());
    assert_eq!(parse_bin_info(&empty).unwrap_err(), BinInfoError::EmptyPath);
    let mut lone = bin_info_bytes_v2(1, 1, "C:\\x");
    lone[28..30].copy_from_slice(&0xd800u16.to_le_bytes());
    assert_eq!(parse_bin_info(&lone).unwrap_err(), BinInfoError::NotUtf16);
}

#[test]
fn bin_info_survives_writing_and_parsing() {
    let path = "C:\\Żółć\\😀 notes.txt";
    for bytes in [bin_info_bytes(7, u64::MAX, path), bin_info_bytes_v2(7, u64::MAX, path)] {
        let (size, at, original) = parse_bin_info(&bytes).unwrap();
        assert_eq!((size, at), (7, u64::MAX));
        assert_eq!(original.as_str(), path);
    }
}

const HERE: RestoreFacts = RestoreFacts { exists: false, parent_is_dir: true, data_exists: true };

fn info(path: &str, bytes: Vec<u8>) -> InfoFile {
    InfoFile { path: FilePath::new(path), bytes: Some(bytes) }
}

#[test]
fn restores_latest_match_from_fake_bin() {
    let orig = "C:\\t\\docs\\notes.txt";
    // Two deletions of the same path: the newer one wins. An unrelated entry
    // must not match.
    let mut bin = vec![
        info("C:\\bin\\SID-1\\$Iaaaaaa.txt", bin_info_bytes(3, 100, orig)),
        info("C:\\bin\\SID-1\\$Icccccc.txt", bin_info_bytes(1, 300, "C:\\t\\docs\\other.txt")),
        info("C:\\bin\\SID-2\\$Ibbbbbb.txt", bin_info_bytes(3, 200, orig)),
        info("C:\\bin\\SID-2\\$Rbbbbbb.txt", b"new".to_vec()),
    ];
    let item = restore_from_bin_under(Some(&bin), &FilePath::new(orig), &HERE).unwrap();
    assert_eq!(item.original_path, FilePath::new(orig));
    assert_eq!(item.info_path.as_str(), "C:\\bin\\SID-2\\$Ibbbbbb.txt");
    assert_eq!(item.data_path.as_str(), "C:\\bin\\SID-2\\$Rbbbbbb.txt");
    assert_eq!((item.size, item.deleted_at), (3, 200));
    // Restoring twice refuses: the target now exists.
    bin.push(info("C:\\bin\\SID-1\\$Idddddd.txt", bin_info_bytes(5, 400, orig)));
    let back = RestoreFacts { exists: true, ..HERE };
    assert_eq!(
        restore_from_bin_under(Some(&bin), &FilePath::new(orig), &back).unwrap_err(),
        RestoreError::AlreadyExists
    );
}

#[test]
fn restore_refuses_when_bin_has_no_match() {
    let orig = FilePath::new("C:\\t\\docs\\gone.txt");
    assert!(restore_from_bin_under(Some(&Vec::new()), &orig, &HERE).is_err());
}

#[test]
fn restores_from_v2_bin_entries() {
    let orig = "C:\\t\\docs\\loop.wav";
    let bin = vec![info("C:\\bin\\SID-9\\$Ixxxxxx.wav", bin_info_bytes_v2(5, 500, orig))];
    let item = restore_from_bin_under(Some(&bin), &FilePath::new(orig), &HERE).unwrap();
    assert_eq!(item.original_path, FilePath::new(orig));
    assert_eq!(item.data_path.as_str(), "C:\\bin\\SID-9\\$Rxxxxxx.wav");
    assert_eq!(item.size, 5);
}

#[test]
fn restores_directories_not_just_files() {
    // `$R` entries for deleted folders are directories, so the restore check
    // must accept anything that exists, not files.
    let orig = "C:\\t\\docs\\Nowy folder";
    let bin = vec![info("C:\\bin\\SID-7\\$I777777", bin_info_bytes_v2(0, 600, orig))];
    let item = restore_from_bin_under(Some(&bin), &FilePath::new(orig), &HERE).unwrap();
    assert_eq!(item.data_path.as_str(), "C:\\bin\\SID-7\\$R777777");
}

#[test]
fn each_restore_error_has_its_input() {
    let orig = FilePath::new("C:\\docs\\a.txt");
    let bin = vec![info("C:\\b\\$I1", bin_info_bytes(1, 1, "C:\\docs\\a.txt"))];
    let root = drive_bin_root(&orig);
    let say = |e: RestoreError| e.message(&root, &orig);
    let e = restore_from_bin(&orig, None, &HERE).unwrap_err();
    assert_eq!(e, RestoreError::BinUnreadable);
    assert_eq!(say(e), "cannot read Recycle Bin at C:\\$Recycle.Bin");
    let e = restore_from_bin(&orig, Some(&Vec::new()), &HERE).unwrap_err();
    assert_eq!(say(e), "not found in Recycle Bin — it may have been emptied: C:\\docs\\a.txt");
    let there = RestoreFacts { exists: true, parent_is_dir: false, data_exists: false };
    let e = restore_from_bin(&orig, Some(&bin), &there).unwrap_err();
    assert_eq!(say(e), "already exists: C:\\docs\\a.txt");
    let orphan = RestoreFacts { exists: false, parent_is_dir: false, data_exists: false };
    let e = restore_from_bin(&orig, Some(&bin), &orphan).unwrap_err();
    assert_eq!(say(e), "original folder no longer exists: C:\\docs");
    let empty = RestoreFacts { data_exists: false, ..HERE };
    let e = restore_from_bin(&orig, Some(&bin), &empty).unwrap_err();
    assert_eq!(say(e), "Recycle Bin data is missing for C:\\docs\\a.txt");
    assert!(restore_from_bin(&orig, Some(&bin), &HERE).is_ok());
}

#[test]
fn first_of_equal_deletions_is_found() {
    let orig = "C:\\a.txt";
    let bin = vec![
        info("C:\\b\\$I1", bin_info_bytes(1, 5, orig)),
        info("C:\\b\\$I2", bin_info_bytes(2, 5, orig)),
        InfoFile { path: FilePath::new("C:\\b\\$I3"), bytes: None },
        info("C:\\b\\other", bin_info_bytes(3, 9, orig)),
        info("C:\\b\\$I4", vec![1, 2, 3]),
    ];
    // Slashes, trailing separators and case do not matter.
    let item = find_in_bin_under(&bin, &FilePath::new("c:/A.TXT/")).unwrap();
    assert_eq!(item.size, 1);
}

#[test]
fn bin_names_pair_up() {
    assert!(is_info_file(&FilePath::new("C:\\b\\$Iab12cd.txt")));
    assert!(!is_info_file(&FilePath::new("C:\\b\\$Rab12cd.txt")));
    assert!(!is_info_file(&FilePath::new("C:\\")));
    let data = paired_data_path(&FilePath::new("C:\\b\\$Iab12cd.txt"));
    assert_eq!(data.as_str(), "C:\\b\\$Rab12cd.txt");
    let odd = paired_data_path(&FilePath::new("C:\\b\\x"));
    assert_eq!(odd.as_str(), "C:\\b\\$Rx");
}

#[test]
fn bin_paths_compare_without_case_and_slashes() {
    assert_eq!(norm_bin_path(&FilePath::new("C:/Users\\X\\")), "c:\\users\\x");
    assert_eq!(norm_bin_path(&FilePath::new("C:\\")), "c:");
    assert_eq!(drive_bin_root(&FilePath::new("C:\\foo\\bar.txt")).as_str(), "C:\\$Recycle.Bin");
}
