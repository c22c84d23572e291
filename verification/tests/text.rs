use eksplora::bytes::{decode_utf16, decode_utf16_lossy, push_utf16, read_i64, read_u64};
use eksplora::sort::{sort, Ranking};
use eksplora::text::{
    decimal_text, find_text, hex_lower_text, hex_upper_text, is_text_less, signed_decimal_text,
    trim,
};
use eksplora::tree::{order_dfs, Siblings};
use eksplora::{FileEntry, FilePath};

#[test]
fn numbers_are_written() {
    assert_eq!(decimal_text(0), "0");
    assert_eq!(decimal_text(u64::MAX), "18446744073709551615");
    assert_eq!(hex_upper_text(0xbeef), "BEEF");
    assert_eq!(hex_lower_text(0xbeef), "beef");
    assert_eq!(signed_decimal_text(i64::MIN), "-9223372036854775808");
    assert_eq!(signed_decimal_text(7), "7");
}

#[test]
fn text_is_trimmed_and_found() {
    assert_eq!(trim("\u{3000} a b\t\r\n"), "a b");
    assert_eq!(trim(" \u{85}"), "");
    let hay: Vec<char> = "abcabd".chars().collect();
    assert!(find_text(&hay, &"abd".chars().collect()));
    assert!(!find_text(&hay, &"abe".chars().collect()));
    assert!(find_text(&hay, &Vec::new()));
}

#[test]
fn text_order_is_that_of_strings() {
    for (a, b) in [("a", "b"), ("a", "ab"), ("", "a"), ("Z", "a"), ("é", "😀"), ("b", "a")] {
        assert_eq!(is_text_less(a, b), a < b);
        assert_eq!(is_text_less(b, a), b < a);
    }
    assert!(!is_text_less("a", "a"));
}

#[test]
fn utf16_goes_there_and_back() {
    let mut u = Vec::new();
    push_utf16(&mut u, "aé😀\0");
    let want: Vec<u16> = "aé😀\0".encode_utf16().collect();
    assert_eq!(u, want);
    assert_eq!(decode_utf16(&u).as_deref(), Some("aé😀\0"));
    assert_eq!(decode_utf16(&vec![0xdc00]), None);
    let broken = vec![0xd83d, 0x41, 0xdc00];
    assert_eq!(decode_utf16_lossy(&broken), String::from_utf16_lossy(&broken));
}

#[test]
fn bytes_are_little_endian() {
    assert_eq!(read_u64(&0x0102_0304_0506_0708u64.to_le_bytes(), 0), 0x0102_0304_0506_0708);
    assert_eq!(read_i64(&i64::MIN.to_le_bytes(), 0), i64::MIN);
    assert_eq!(read_i64(&(-1i64).to_le_bytes(), 0), -1);
}

#[test]
fn positions_are_sorted_stably() {
    let entries: Vec<FileEntry> = ["C:\\b", "C:\\x\\a", "C:\\y\\A", "C:\\0"]
        .iter()
        .map(|q| FileEntry::from_path(FilePath::new(q), false, 0, 0, 0))
        .collect();
    let rank = Siblings { entries: &entries, dirs_first: true };
    assert!(rank.precedes(1, 2));
    assert_eq!(sort(&vec![0, 2, 1, 3], &rank), vec![3, 1, 2, 0]);
    let order = order_dfs(&entries, &vec![0, 1, 2, 3], &FilePath::new("C:\\"), true);
    assert_eq!(order, vec![3, 0, 1, 2]);
}
