use eksplora::windows_integration::{
    clipboard_payload, clipboard_step, is_cloud_placeholder, known_folders, open_with_default_app,
    set_clipboard_files, usn_status, volume_path, volume_readiness, ClipboardOutcome,
    ClipboardStep, FolderProbe, VolumeProbe,
};
use eksplora::FilePath;

fn p(s: &str) -> FilePath {
    FilePath::new(s)
}

#[test]
fn known_folders_with_a_path_are_named() {
    let mut paths: Vec<Option<String>> = vec![None; 9];
    paths[0] = Some("C:\\d".to_string());
    paths[2] = Some(String::new());
    paths[6] = Some("C:\\me".to_string());
    let got = known_folders(&FolderProbe::Known(paths));
    let shown: Vec<(&str, &str)> = got.iter().map(|(n, q)| (n.as_str(), q.as_str())).collect();
    assert_eq!(shown, vec![("Desktop", "C:\\d"), ("Profile", "C:\\me")]);
    let home = known_folders(&FolderProbe::Home(Some("/home/me".to_string())));
    assert_eq!((home[0].0.as_str(), home[0].1.as_str()), ("Home", "/home/me"));
    let none = known_folders(&FolderProbe::Home(None));
    assert_eq!(none[0].1.as_str(), ".");
}

#[test]
fn cloud_placeholders_have_the_bit() {
    assert!(is_cloud_placeholder(0x0040_0020));
    assert!(!is_cloud_placeholder(0x0020_0000));
}

#[test]
fn volumes_are_the_closest_root() {
    assert_eq!(volume_path(&p("C:\\a\\b")).as_str(), "C:\\");
    assert_eq!(volume_path(&p("C:\\")).as_str(), "C:\\");
    assert_eq!(volume_path(&p("a\\b")).as_str(), "");
    assert_eq!(volume_path(&p("\\\\s\\h\\x")).as_str(), "\\\\s\\h\\");
}

#[test]
fn readiness_names_the_file_system() {
    let mut name: Vec<u16> = "NTFS".encode_utf16().collect();
    name.resize(32, 0);
    let open = VolumeProbe::Volume { fs_name: Some(name), can_open: true };
    assert_eq!(volume_readiness(&open), ("NTFS (can_open_volume=true)".to_string(), true));
    assert_eq!(
        usn_status(&open),
        "USN ready on NTFS (can_open_volume=true) — incremental journal possible"
    );
    let shut = VolumeProbe::Volume { fs_name: None, can_open: false };
    assert_eq!(volume_readiness(&shut), ("unknown (can_open_volume=false)".to_string(), false));
    assert_eq!(
        usn_status(&VolumeProbe::Other),
        "USN unavailable (non-windows). Running in portable mode: parallel scan + watcher. Elevate for USN/MFT boost."
    );
}

#[test]
fn clipboard_holds_the_paths() {
    let b = clipboard_payload(&vec![p("C:\\a"), p("D:\\ü")]);
    assert_eq!(b[0..4], 20u32.to_le_bytes());
    assert_eq!(b[4..16], [0; 12]);
    assert_eq!(b[16..20], 1u32.to_le_bytes());
    let units: Vec<u16> = b[20..].chunks(2).map(|c| u16::from_le_bytes([c[0], c[1]])).collect();
    let want: Vec<u16> = "C:\\a\0D:\\ü\0\0".encode_utf16().collect();
    assert_eq!(units, want);
}

#[test]
fn the_clipboard_is_tried_ten_times() {
    for failed in 0..9 {
        assert_eq!(clipboard_step(failed, false), ClipboardStep::TryAgain);
    }
    assert_eq!(clipboard_step(9, false), ClipboardStep::GiveUp);
    assert_eq!(clipboard_step(usize::MAX, false), ClipboardStep::GiveUp);
    assert_eq!(clipboard_step(0, true), ClipboardStep::Fill);
    assert_eq!(clipboard_step(9, true), ClipboardStep::Fill);
}

#[test]
fn clipboard_errors_are_told() {
    let some = vec![p("C:\\a")];
    let says = |o: ClipboardOutcome| set_clipboard_files(&some, &o).unwrap_err();
    assert!(set_clipboard_files(&some, &ClipboardOutcome::Done).is_ok());
    assert_eq!(
        set_clipboard_files(&Vec::new(), &ClipboardOutcome::Done).unwrap_err(),
        "nothing to copy"
    );
    assert_eq!(says(ClipboardOutcome::Busy), "clipboard is busy");
    assert_eq!(says(ClipboardOutcome::Failed("clipboard set failed".to_string())), "clipboard set failed");
    assert_eq!(says(ClipboardOutcome::Unsupported), "system clipboard not supported on this platform");
}

#[test]
fn shell_codes_up_to_a_bound_are_errors() {
    assert!(open_with_default_app(33, &p("C:\\a")).is_ok());
    assert_eq!(
        open_with_default_app(32, &p("C:\\a")).unwrap_err(),
        "ShellExecute failed (32) for C:\\a"
    );
    assert_eq!(
        open_with_default_app(-1, &p("C:\\a")).unwrap_err(),
        "ShellExecute failed (-1) for C:\\a"
    );
}
