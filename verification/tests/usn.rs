use eksplora::usn::{
    drive_letter_of, page_request, parse_usn_record, query_journal, read_deltas, reason_to_str,
    status_string, volume_device, volume_root_of, DeltaReader, JournalProbe, PageRead, UsnError,
    UsnJournalInfo,
};
use eksplora::FilePath;

fn p(s: &str) -> FilePath {
    FilePath::new(s)
}

fn record(major: u16, usn: i64, reason: u32, attrs: u32, name: &[u16]) -> Vec<u8> {
    let len = 60 + name.len() * 2;
    let mut b = Vec::new();
    b.extend_from_slice(&(len as u32).to_le_bytes());
    b.extend_from_slice(&major.to_le_bytes());
    b.extend_from_slice(&0u16.to_le_bytes());
    b.extend_from_slice(&7u64.to_le_bytes());
    b.extend_from_slice(&5u64.to_le_bytes());
    b.extend_from_slice(&usn.to_le_bytes());
    b.extend_from_slice(&0i64.to_le_bytes());
    b.extend_from_slice(&reason.to_le_bytes());
    b.extend_from_slice(&0u32.to_le_bytes());
    b.extend_from_slice(&0u32.to_le_bytes());
    b.extend_from_slice(&attrs.to_le_bytes());
    b.extend_from_slice(&((name.len() * 2) as u16).to_le_bytes());
    b.extend_from_slice(&60u16.to_le_bytes());
    for w in name {
        b.extend_from_slice(&w.to_le_bytes());
    }
    b
}

fn units(s: &str) -> Vec<u16> {
    s.encode_utf16().collect()
}

fn page(next: i64, records: &[Vec<u8>]) -> Vec<u8> {
    let mut b = next.to_le_bytes().to_vec();
    for r in records {
        b.extend_from_slice(r);
    }
    b
}

fn journal_bytes(id: u64, first: i64, next: i64) -> Vec<u8> {
    let mut b = id.to_le_bytes().to_vec();
    for n in [first, next, 0, i64::MAX] {
        b.extend_from_slice(&n.to_le_bytes());
    }
    b
}

fn journal(first: i64, next: i64) -> JournalProbe {
    JournalProbe::Data(journal_bytes(0xab, first, next))
}

#[test]
fn reasons_are_named() {
    assert_eq!(reason_to_str(0x100), "FILE_CREATE");
    assert_eq!(reason_to_str(0x8000_0003), "DATA_OVERWRITE|DATA_EXTEND|CLOSE");
    assert_eq!(reason_to_str(0), "0x0");
    assert_eq!(reason_to_str(0x0840_0008), "0x8400008");
}

#[test]
fn volumes_of_paths() {
    assert_eq!(volume_root_of(&p("d:\\foo")).as_str(), "d:\\");
    assert_eq!(volume_root_of(&p("\\\\?\\E:\\x")).as_str(), "E:\\");
    assert_eq!(volume_root_of(&p("\\\\?\\E:")).as_str(), "C:\\");
    assert_eq!(volume_root_of(&p("/home")).as_str(), "C:\\");
    assert_eq!(drive_letter_of(&p("E:\\")), 'E');
    assert_eq!(drive_letter_of(&p("")), 'C');
    assert_eq!(volume_device('E'), "\\\\.\\E:");
}

#[test]
fn records_parse() {
    let e = parse_usn_record(&record(2, -3, 0x100, 0x1000_0000, &units("dir"))).unwrap();
    assert_eq!((e.frn, e.parent_frn, e.usn, e.reason), (7, 5, -3, 0x100));
    assert_eq!((e.reason_str.as_str(), e.name.as_str(), e.is_dir), ("FILE_CREATE", "dir", true));
    let lone = parse_usn_record(&record(3, 1, 0x200, 0, &[0x61, 0xd800, 0x62])).unwrap();
    assert_eq!(lone.name, "a\u{fffd}b");
    assert!(!lone.is_dir);
    assert!(parse_usn_record(&record(4, 1, 0, 0, &units("x"))).is_none());
    assert!(parse_usn_record(&[0u8; 59]).is_none());
    let mut odd = record(2, 1, 0, 0, &units("x"));
    odd[56] = 1;
    assert!(parse_usn_record(&odd).is_none());
    let mut long = record(2, 1, 0, 0, &units("x"));
    long[56] = 4;
    assert!(parse_usn_record(&long).is_none());
}

#[test]
fn deltas_read_page_after_page() {
    let pages = vec![
        PageRead::Page(page(20, &[
            record(2, 10, 1, 0, &units("a")),
            record(4, 11, 1, 0, &units("skip")),
            record(2, 12, 1, 0, &units("b")),
        ])),
        PageRead::Page(page(30, &[record(2, 21, 1, 0, &units("c"))])),
        PageRead::Page(page(40, &[record(2, 31, 1, 0, &units("never"))])),
    ];
    let (entries, next) = read_deltas(&p("C:\\"), &journal(5, 30), Some(10), 100, &pages).unwrap();
    let names: Vec<&str> = entries.iter().map(|e| e.name.as_str()).collect();
    assert_eq!(names, vec!["a", "b", "c"]);
    assert_eq!(next, 30); // the journal's end
    let (few, next) = read_deltas(&p("C:\\"), &journal(5, 30), None, 1, &pages).unwrap();
    // "b" was left: reading goes on from it.
    assert_eq!((few.len(), few[0].name.as_str(), next), (1, "a", 12));
    let rest = vec![PageRead::Page(page(20, &[record(2, 12, 1, 0, &units("b"))]))];
    let (more, next) = read_deltas(&p("C:\\"), &journal(5, 30), Some(next), 1, &rest).unwrap();
    assert_eq!((more.len(), more[0].name.as_str(), next), (1, "b", 20));
}

#[test]
fn deltas_stop_without_progress() {
    let stuck = vec![
        PageRead::Page(page(10, &[record(2, 1, 1, 0, &units("a"))])),
        PageRead::Page(page(20, &[record(2, 2, 1, 0, &units("b"))])),
    ];
    let (entries, next) = read_deltas(&p("C:\\"), &journal(5, 90), Some(10), 9, &stuck).unwrap();
    assert_eq!((entries.len(), next), (1, 10));
    let empty = vec![PageRead::Page(page(50, &[]))];
    let (entries, next) = read_deltas(&p("C:\\"), &journal(5, 90), Some(10), 9, &empty).unwrap();
    assert_eq!((entries.len(), next), (0, 10));
    // A record that overruns the page ends it.
    let mut cut = page(20, &[record(2, 1, 1, 0, &units("a")), record(2, 2, 1, 0, &units("b"))]);
    cut.truncate(cut.len() - 1);
    let (entries, _) =
        read_deltas(&p("C:\\"), &journal(5, 20), Some(10), 9, &vec![PageRead::Page(cut)]).unwrap();
    assert_eq!(entries.len(), 1);
}

#[test]
fn stale_positions_restart_at_the_first() {
    let info = UsnJournalInfo {
        journal_id: 1,
        first_usn: 100,
        next_usn: 200,
        lowest_valid_usn: 0,
        max_usn: 0,
    };
    assert_eq!(DeltaReader::begin(&info, None, 0).next_request(), Some(100));
    assert_eq!(DeltaReader::begin(&info, Some(99), 1).next_request(), Some(100));
    assert_eq!(DeltaReader::begin(&info, Some(150), 1).next_request(), Some(150));
    assert_eq!(DeltaReader::begin(&info, Some(201), 1).next_request(), Some(100));
}

#[test]
fn journal_errors_are_told() {
    let path = p("D:\\x");
    let says = |r: Result<UsnJournalInfo, UsnError>| r.unwrap_err().message();
    assert_eq!(says(query_journal(&JournalProbe::NotWindows)), "USN is Windows/NTFS only");
    assert_eq!(
        says(query_journal(&JournalProbe::OpenFailed('D'))),
        "open volume \\\\.\\D: (needs admin)"
    );
    assert_eq!(
        says(query_journal(&JournalProbe::QueryFailed("no".to_string()))),
        "FSCTL_QUERY_USN_JOURNAL failed: no (needs admin + NTFS)"
    );
    let failed = vec![PageRead::Failed("gone".to_string())];
    let e = read_deltas(&path, &journal(1, 9), None, 9, &failed).unwrap_err();
    assert_eq!(
        e.message(),
        "FSCTL_READ_USN_JOURNAL failed: gone (is USN journal enabled on D:\\?)"
    );
    assert!(read_deltas(&path, &JournalProbe::NotWindows, None, 9, &failed).is_err());
}

#[test]
fn status_tells_of_the_journal() {
    let path = p("D:\\x");
    assert_eq!(
        status_string(&path, &JournalProbe::NotWindows),
        "USN unavailable (non-windows, path=D:\\x)"
    );
    assert_eq!(
        status_string(&path, &journal(-1, 9)),
        "USN ready: journal_id=0xab first_usn=-1 next_usn=9 (elevated, NTFS)"
    );
    assert_eq!(
        status_string(&path, &JournalProbe::OpenFailed('D')),
        "USN unavailable (open volume \\\\.\\D: (needs admin)). Run elevated + NTFS for journal boost; base uses scan+watch."
    );
    let info = query_journal(&journal(3, 4)).unwrap();
    assert_eq!((info.journal_id, info.first_usn, info.max_usn), (0xab, 3, i64::MAX));
}

#[test]
fn page_requests_are_laid_out() {
    let b = page_request(-2, 0x1122);
    assert_eq!(b.len(), 48);
    assert_eq!(b[0..8], (-2i64).to_le_bytes());
    assert_eq!(b[8..12], [0xff; 4]);
    assert_eq!(b[12..32], [0; 20]);
    assert_eq!(b[32..40], 0x1122u64.to_le_bytes());
    assert_eq!(b[40..44], [2, 0, 4, 0]);
}
