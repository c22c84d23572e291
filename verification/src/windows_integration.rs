//! Windows integration base: known folders, attributes, volume checks, the
//! clipboard. What the system answers comes in as values.

use crate::bytes::{
    decode_utf16_lossy, kept_bytes, le16, le32, push_u16, push_u32, push_utf16, utf16_text_lossy,
    utf16_units,
};
use crate::file_path::FilePath;
use crate::path_laws::parent_shorter;
use crate::paths::parent;
use crate::text::{chars_of, concat2, concat3, signed_decimal, signed_decimal_text, string_of_range};
use vstd::prelude::*;

verus! {

// ---------------------------------------------------------------------
// Known folders

/// The display names of the known folders, in the order in which they are
/// asked for.
pub open spec fn folder_names() -> Seq<Seq<char>> {
    seq![
        "Desktop"@,
        "Documents"@,
        "Downloads"@,
        "Pictures"@,
        "Music"@,
        "Videos"@,
        "Profile"@,
        "LocalAppData"@,
        "RoamingAppData"@,
    ]
}

/// What asking the system for its folders came to.
#[derive(Debug)]
pub enum FolderProbe {
    /// The path of each known folder in turn, as far as known.
    Known(Vec<Option<String>>),
    /// The home folder, on a system without known folders.
    Home(Option<String>),
}

/// A name and a path.
pub ghost struct Folder {
    pub name: Seq<char>,
    pub path: Seq<char>,
}

/// The known folders among the first `n` that have a path.
pub open spec fn known_among(paths: Seq<Option<String>>, n: int) -> Seq<Folder>
    decreases n,
{
    if n <= 0 || n > paths.len() || n > folder_names().len() {
        Seq::empty()
    } else {
        let front = known_among(paths, n - 1);
        match paths[n - 1] {
            Some(p) => if p@.len() > 0 {
                front.push(Folder { name: folder_names()[n - 1], path: p@ })
            } else {
                front
            },
            None => front,
        }
    }
}

/// The folders that the user knows by name.
pub open spec fn folders(probe: FolderProbe) -> Seq<Folder> {
    match probe {
        FolderProbe::Known(paths) => known_among(
            paths@,
            if paths@.len() < folder_names().len() {
                paths@.len() as int
            } else {
                folder_names().len() as int
            },
        ),
        FolderProbe::Home(Some(p)) => seq![Folder { name: "Home"@, path: p@ }],
        FolderProbe::Home(None) => seq![Folder { name: "Home"@, path: "."@ }],
    }
}

/// The values of named folders.
pub open spec fn folder_views(v: Seq<(String, FilePath)>) -> Seq<Folder> {
    Seq::new(v.len(), |i: int| Folder { name: v[i].0@, path: v[i].1@ })
}

fn folder_table() -> (r: Vec<&'static str>)
    ensures
        r@.len() == folder_names().len(),
        forall|i: int| 0 <= i < r@.len() ==> (#[trigger] r@[i])@ == folder_names()[i],
{
    let r: Vec<&'static str> = vec![
        "Desktop",
        "Documents",
        "Downloads",
        "Pictures",
        "Music",
        "Videos",
        "Profile",
        "LocalAppData",
        "RoamingAppData",
    ];
    r
}

/// The folders that the user knows by name: those of the known folders that
/// have a path, or the home folder where there are none.
pub fn known_folders(probe: &FolderProbe) -> (r: Vec<(String, FilePath)>)
    ensures
        folder_views(r@) == folders(*probe),
{
    let mut out: Vec<(String, FilePath)> = Vec::new();
    match probe {
        FolderProbe::Known(paths) => {
            let names = folder_table();
            let n: usize = if paths.len() < names.len() {
                paths.len()
            } else {
                names.len()
            };
            for i in 0..n
                invariant
                    n <= paths@.len(),
                    n <= names@.len(),
                    names@.len() == folder_names().len(),
                    forall|i: int|
                        0 <= i < names@.len() ==> (#[trigger] names@[i])@ == folder_names()[i],
                    folder_views(out@) =~= known_among(paths@, i as int),
            {
                if let Some(p) = &paths[i] {
                    if chars_of(p.as_str()).len() > 0 {
                        let ghost was = folder_views(out@);
                        let name = String::from_str(names[i]);
                        out.push((name, FilePath::new(p.as_str())));
                        assert(folder_views(out@) =~= was.push(
                            Folder { name: folder_names()[i as int], path: p@ },
                        ));
                    }
                }
            }
        },
        FolderProbe::Home(home) => {
            let path = match home {
                Some(p) => FilePath::new(p.as_str()),
                None => FilePath::new("."),
            };
            out.push((String::from_str("Home"), path));
        },
    }
    out
}

// ---------------------------------------------------------------------
// Attributes and volumes

/// 0x400000 = FILE_ATTRIBUTE_RECALL_ON_DATA_ACCESS (OneDrive placeholder).
pub fn is_cloud_placeholder(attributes: u32) -> (r: bool)
    ensures
        r == (attributes & 0x0040_0000 != 0),
{
    attributes & 0x0040_0000 != 0
}

/// Whether a text ends in `:\`.
pub open spec fn ends_drive(t: Seq<char>) -> bool {
    t.len() >= 2 && t[t.len() - 2] == ':' && t[t.len() - 1] == '\\'
}

/// The closest of a path and its ancestors that is a drive's root or has no
/// parent.
pub open spec fn volume_of(t: Seq<char>) -> Seq<char>
    decreases t.len(),
    via volume_of_decreases
{
    match parent(t) {
        Some(p) => if ends_drive(t) {
            t
        } else {
            volume_of(p)
        },
        None => t,
    }
}

#[via_fn]
proof fn volume_of_decreases(t: Seq<char>) {
    parent_shorter(t);
}

/// The root of the volume that a path is on, as the system wants it.
pub fn volume_path(root: &FilePath) -> (r: FilePath)
    ensures
        r@ == volume_of(root@),
{
    let mut at = root.clone();
    loop
        invariant
            volume_of(root@) == volume_of(at@),
        decreases at@.len(),
    {
        proof {
            parent_shorter(at@);
        }
        let v = chars_of(at.as_str());
        let n: usize = v.len();
        if n >= 2 && v[n - 2] == ':' && v[n - 1] == '\\' {
            return at;
        }
        match at.parent() {
            Some(p) => {
                at = p;
            },
            None => {
                return at;
            },
        }
    }
}

/// What asking the system about a volume came to.
#[derive(Debug)]
pub enum VolumeProbe {
    /// The system has no such volumes.
    Other,
    /// The name of the file system, padded with nulls, if it was told, and
    /// whether the volume could be opened.
    Volume { fs_name: Option<Vec<u16>>, can_open: bool },
}

/// A text without the nulls in front.
pub open spec fn unpadded_start(s: Seq<char>) -> Seq<char>
    decreases s.len(),
{
    if s.len() > 0 && s[0] == '\0' {
        unpadded_start(s.drop_first())
    } else {
        s
    }
}

/// A text without the nulls at the end.
pub open spec fn unpadded_end(s: Seq<char>) -> Seq<char>
    decreases s.len(),
{
    if s.len() > 0 && s.last() == '\0' {
        unpadded_end(s.drop_last())
    } else {
        s
    }
}

fn unpad(s: &str) -> (r: String)
    ensures
        r@ == unpadded_end(unpadded_start(s@)),
{
    let v = chars_of(s);
    let mut from: usize = 0;
    assert(v@.skip(0) =~= v@);
    while from < v.len() && v[from] == '\0'
        invariant
            from <= v@.len(),
            unpadded_start(v@) == unpadded_start(v@.skip(from as int)),
        decreases v@.len() - from,
    {
        assert(v@.skip(from as int).drop_first() =~= v@.skip(from + 1));
        from += 1;
    }
    let mut to: usize = v.len();
    while to > from && v[to - 1] == '\0'
        invariant
            from <= to <= v@.len(),
            unpadded_end(unpadded_start(v@)) == unpadded_end(v@.subrange(from as int, to as int)),
        decreases to,
    {
        assert(v@.subrange(from as int, to as int).drop_last() =~= v@.subrange(
            from as int,
            to - 1,
        ));
        to -= 1;
    }
    string_of_range(&v, from, to)
}

/// What is shown of a volume.
pub open spec fn readiness_text(probe: VolumeProbe) -> Seq<char> {
    match probe {
        VolumeProbe::Other => "non-windows"@,
        VolumeProbe::Volume { fs_name, can_open } => {
            let fs = match fs_name {
                Some(u) => unpadded_end(unpadded_start(utf16_text_lossy(u@))),
                None => "unknown"@,
            };
            fs + " (can_open_volume="@ + if can_open {
                "true)"@
            } else {
                "false)"@
            }
        },
    }
}

/// Whether the volume could be opened.
pub open spec fn volume_opens(probe: VolumeProbe) -> bool {
    probe matches VolumeProbe::Volume { can_open: true, .. }
}

/// What is shown of a volume, and whether its handle could be opened (needs
/// admin). Base app must work when it could not — fall back to scan+watch.
pub fn volume_readiness(probe: &VolumeProbe) -> (r: (String, bool))
    ensures
        r.0@ == readiness_text(*probe),
        r.1 == volume_opens(*probe),
{
    match probe {
        VolumeProbe::Other => (String::from_str("non-windows"), false),
        VolumeProbe::Volume { fs_name, can_open } => {
            let fs = match fs_name {
                Some(u) => {
                    let s = decode_utf16_lossy(u);
                    unpad(s.as_str())
                },
                None => String::from_str("unknown"),
            };
            let end = if *can_open {
                "true)"
            } else {
                "false)"
            };
            (concat3(fs.as_str(), " (can_open_volume=", end), *can_open)
        },
    }
}

/// What is shown of the journal on a volume.
pub open spec fn usn_status_text(probe: VolumeProbe) -> Seq<char> {
    if volume_opens(probe) {
        "USN ready on "@ + readiness_text(probe) + " — incremental journal possible"@
    } else {
        "USN unavailable ("@ + readiness_text(probe)
            + "). Running in portable mode: parallel scan + watcher. Elevate for USN/MFT boost."@
    }
}

/// What is shown of the journal on a volume.
pub fn usn_status(probe: &VolumeProbe) -> (r: String)
    ensures
        r@ == usn_status_text(*probe),
{
    let (info, can_open) = volume_readiness(probe);
    if can_open {
        concat3("USN ready on ", info.as_str(), " — incremental journal possible")
    } else {
        concat3(
            "USN unavailable (",
            info.as_str(),
            "). Running in portable mode: parallel scan + watcher. Elevate for USN/MFT boost.",
        )
    }
}

// ---------------------------------------------------------------------
// Opening files

/// Opens a file with its default application: whether the code that the
/// system's shell returned means that it worked. Codes up to 32 are errors.
pub fn open_with_default_app(code: i64, path: &FilePath) -> (r: Result<(), String>)
    ensures
        match r {
            Ok(()) => code > 32,
            Err(m) => code <= 32 && m@ == "ShellExecute failed ("@ + signed_decimal(code as int)
                + ") for "@ + path@,
        },
{
    if code <= 32 {
        let digits = signed_decimal_text(code);
        let head = concat2("ShellExecute failed (", digits.as_str());
        return Err(concat3(head.as_str(), ") for ", path.as_str()));
    }
    Ok(())
}

// ---------------------------------------------------------------------
// The clipboard

/// How often the clipboard is tried while another app holds it.
pub const CLIPBOARD_TRIES: usize = 10;

/// Milliseconds between two tries.
pub const CLIPBOARD_PAUSE_MS: u64 = 20;

/// What follows a try to open the clipboard.
#[derive(Debug, Clone, Copy, PartialEq, Eq, Structural)]
pub enum ClipboardStep {
    /// It is open: fill it.
    Fill,
    /// Another app holds it: pause, then try again.
    TryAgain,
    /// Another app held it all the time: give up.
    GiveUp,
}

/// What follows a try to open the clipboard, after `failed` tries that failed.
pub open spec fn step_after_try(failed: int, opened: bool) -> ClipboardStep {
    if opened {
        ClipboardStep::Fill
    } else if failed + 1 < CLIPBOARD_TRIES {
        ClipboardStep::TryAgain
    } else {
        ClipboardStep::GiveUp
    }
}

/// Computes [`step_after_try`].
pub fn clipboard_step(failed: usize, opened: bool) -> (r: ClipboardStep)
    ensures
        r == step_after_try(failed as int, opened),
{
    if opened {
        ClipboardStep::Fill
    } else if failed < CLIPBOARD_TRIES - 1 {
        ClipboardStep::TryAgain
    } else {
        ClipboardStep::GiveUp
    }
}

/// How a row of tries ends, `failed` others before them; nothing while it
/// goes on.
pub open spec fn tries_end(opened: Seq<bool>, failed: int) -> Option<ClipboardStep>
    decreases opened.len(),
{
    if opened.len() == 0 {
        None
    } else {
        match step_after_try(failed, opened[0]) {
            ClipboardStep::TryAgain => tries_end(opened.skip(1), failed + 1),
            end => Some(end),
        }
    }
}

/// The clipboard is filled exactly when one of the first ten tries opens it,
/// and given up exactly when all ten fail.
pub proof fn ten_tries_are_made(opened: Seq<bool>)
    ensures
        tries_end(opened, 0) == Some(ClipboardStep::Fill) <==> exists|i: int|
            0 <= i < 10 && i < opened.len() && #[trigger] opened[i],
        tries_end(opened, 0) == Some(ClipboardStep::GiveUp) <==> opened.len() >= 10 && (forall|i: int|
            0 <= i < 10 ==> !#[trigger] opened[i]),
{
    tries_left(opened, 0);
}

proof fn tries_left(opened: Seq<bool>, failed: int)
    requires
        0 <= failed < 10,
    ensures
        tries_end(opened, failed) == Some(ClipboardStep::Fill) <==> exists|i: int|
            0 <= i < 10 - failed && i < opened.len() && #[trigger] opened[i],
        tries_end(opened, failed) == Some(ClipboardStep::GiveUp) <==> opened.len() >= 10 - failed
            && forall|i: int| 0 <= i < 10 - failed ==> !#[trigger] opened[i],
    decreases opened.len(),
{
    if opened.len() > 0 && !opened[0] && failed + 1 < 10 {
        let rest = opened.skip(1);
        tries_left(rest, failed + 1);
        assert forall|i: int| 0 <= i < rest.len() implies rest[i] == #[trigger] opened[i + 1] by {}
        if exists|i: int| 0 <= i < 10 - failed && i < opened.len() && #[trigger] opened[i] {
            let i = choose|i: int|
                0 <= i < 10 - failed && i < opened.len() && #[trigger] opened[i];
            assert(rest[i - 1]);
        }
        if exists|i: int| 0 <= i < 9 - failed && i < rest.len() && #[trigger] rest[i] {
            let i = choose|i: int| 0 <= i < 9 - failed && i < rest.len() && #[trigger] rest[i];
            assert(opened[i + 1]);
        }
        if forall|i: int| 0 <= i < 9 - failed ==> !#[trigger] rest[i] {
            assert forall|i: int|
                0 <= i < 10 - failed && opened.len() >= 10 - failed implies !#[trigger] opened[i] by {
                if i > 0 {
                    assert(!rest[i - 1]);
                }
            }
        }
        if opened.len() >= 10 - failed && forall|i: int|
            0 <= i < 10 - failed ==> !#[trigger] opened[i] {
            assert forall|i: int| 0 <= i < 9 - failed implies !#[trigger] rest[i] by {
                assert(!opened[i + 1]);
            }
        }
    }
}

/// The number of bytes of the header in front of the files.
pub const DROP_HEADER_LEN: usize = 20;

/// The paths one after the other, each ended by a null.
pub open spec fn path_units(paths: Seq<FilePath>) -> Seq<u16>
    decreases paths.len(),
{
    if paths.len() == 0 {
        Seq::empty()
    } else {
        path_units(paths.drop_last()) + utf16_units(paths.last()@).push(0)
    }
}

/// The list of files on the clipboard: null-terminated paths and one more
/// null.
pub open spec fn file_list(paths: Seq<FilePath>) -> Seq<u16> {
    path_units(paths).push(0)
}

/// Whether the bytes are a DROPFILES header for wide paths (offset of the
/// list, no point, not in the frame, wide) and the list of files.
pub open spec fn is_drop_payload(b: Seq<u8>, list: Seq<u16>) -> bool {
    &&& b.len() == DROP_HEADER_LEN + 2 * list.len()
    &&& le32(b, 0) == DROP_HEADER_LEN
    &&& le32(b, 4) == 0
    &&& le32(b, 8) == 0
    &&& le32(b, 12) == 0
    &&& le32(b, 16) == 1
    &&& forall|i: int|
        0 <= i < list.len() ==> #[trigger] le16(b, DROP_HEADER_LEN + 2 * i) == list[i]
}

/// What goes on the clipboard under CF_HDROP: DROPFILES header (wide paths) +
/// double-null-terminated list.
pub fn clipboard_payload(paths: &Vec<FilePath>) -> (r: Vec<u8>)
    ensures
        is_drop_payload(r@, file_list(paths@)),
{
    let mut units: Vec<u16> = Vec::new();
    for i in 0..paths.len()
        invariant
            units@ == path_units(paths@.take(i as int)),
    {
        proof {
            assert(paths@.take(i + 1).drop_last() =~= paths@.take(i as int));
        }
        let ghost was = units@;
        push_utf16(&mut units, paths[i].as_str());
        units.push(0);
    }
    assert(paths@.take(paths@.len() as int) =~= paths@);
    units.push(0);
    let mut out: Vec<u8> = Vec::new();
    push_u32(&mut out, 20);
    push_u32(&mut out, 0);
    push_u32(&mut out, 0);
    push_u32(&mut out, 0);
    push_u32(&mut out, 1);
    for i in 0..units.len()
        invariant
            is_drop_payload(out@, units@.take(i as int)),
    {
        let ghost was = out@;
        push_u16(&mut out, units[i]);
        proof {
            kept_bytes(was, out@);
            let list = units@.take(i + 1);
            assert forall|j: int| 0 <= j < list.len() implies #[trigger] le16(
                out@,
                DROP_HEADER_LEN + 2 * j,
            ) == list[j] by {
                if j < i {
                    assert(le16(was, DROP_HEADER_LEN + 2 * j) == units@.take(i as int)[j]);
                }
            }
        }
    }
    out
}

/// What came of putting files on the clipboard.
#[derive(Debug)]
pub enum ClipboardOutcome {
    /// The platform has no such clipboard.
    Unsupported,
    /// Another app held it all the time.
    Busy,
    /// Something failed, in these words.
    Failed(String),
    /// They are there.
    Done,
}

/// Why files are not on the clipboard, in the words that are shown.
pub open spec fn clipboard_error(empty: bool, outcome: ClipboardOutcome) -> Option<Seq<char>> {
    if empty {
        Some("nothing to copy"@)
    } else {
        match outcome {
            ClipboardOutcome::Unsupported => Some(
                "system clipboard not supported on this platform"@,
            ),
            ClipboardOutcome::Busy => Some("clipboard is busy"@),
            ClipboardOutcome::Failed(m) => Some(m@),
            ClipboardOutcome::Done => None,
        }
    }
}

/// Places file paths on the OS clipboard as CF_HDROP, so the user can paste
/// into Explorer as well as back into the app: whether what came of it means
/// that it worked. Without paths nothing is tried.
pub fn set_clipboard_files(paths: &Vec<FilePath>, outcome: &ClipboardOutcome) -> (r: Result<
    (),
    String,
>)
    ensures
        match r {
            Ok(()) => clipboard_error(paths@.len() == 0, *outcome) is None,
            Err(m) => clipboard_error(paths@.len() == 0, *outcome) == Some(m@),
        },
{
    if paths.len() == 0 {
        return Err(String::from_str("nothing to copy"));
    }
    match outcome {
        ClipboardOutcome::Unsupported => Err(
            String::from_str("system clipboard not supported on this platform"),
        ),
        ClipboardOutcome::Busy => Err(String::from_str("clipboard is busy")),
        ClipboardOutcome::Failed(m) => Err(m.clone()),
        ClipboardOutcome::Done => Ok(()),
    }
}

/// The code units up to the first null.
pub open spec fn first_name(list: Seq<u16>) -> Seq<u16>
    decreases list.len(),
{
    if list.len() == 0 || list[0] == 0 {
        Seq::empty()
    } else {
        seq![list[0]] + first_name(list.skip(1))
    }
}

/// The names that a host reads from a list of files: null-terminated ones up
/// to the first empty one.
pub open spec fn read_list(list: Seq<u16>) -> Seq<Seq<u16>>
    decreases list.len(),
{
    let name = first_name(list);
    if name.len() == 0 || name.len() >= list.len() {
        Seq::empty()
    } else {
        seq![name] + read_list(list.skip(name.len() as int + 1))
    }
}

proof fn path_units_front(paths: Seq<FilePath>)
    requires
        paths.len() > 0,
    ensures
        path_units(paths) == utf16_units(paths[0]@).push(0) + path_units(paths.skip(1)),
    decreases paths.len(),
{
    let last = utf16_units(paths.last()@).push(0);
    if paths.len() == 1 {
        assert(paths.drop_last() =~= Seq::empty());
        assert(paths.skip(1) =~= Seq::empty());
    } else {
        let front = paths.drop_last();
        path_units_front(front);
        assert(front.skip(1) =~= paths.skip(1).drop_last());
    }
}

proof fn first_name_of(u: Seq<u16>, rest: Seq<u16>)
    requires
        forall|i: int| 0 <= i < u.len() ==> #[trigger] u[i] != 0,
    ensures
        first_name(u.push(0) + rest) == u,
    decreases u.len(),
{
    let list = u.push(0) + rest;
    if u.len() > 0 {
        let v = u.skip(1);
        assert forall|i: int| 0 <= i < v.len() implies #[trigger] v[i] != 0 by {
            assert(v[i] == u[i + 1]);
        }
        first_name_of(v, rest);
        assert(list.skip(1) =~= v.push(0) + rest);
    } else {
        assert(u =~= Seq::empty());
    }
}

/// Whether a path can be listed: it is not empty and holds no null.
pub open spec fn listable(p: Seq<char>) -> bool {
    utf16_units(p).len() > 0 && forall|i: int|
        0 <= i < utf16_units(p).len() ==> #[trigger] utf16_units(p)[i] != 0
}

/// A host reads from the clipboard exactly the paths that were put there, in
/// order.
pub proof fn clipboard_round_trip(paths: Seq<FilePath>)
    requires
        forall|i: int| 0 <= i < paths.len() ==> listable((#[trigger] paths[i])@),
    ensures
        read_list(file_list(paths)) == Seq::new(paths.len(), |i: int| utf16_units(paths[i]@)),
    decreases paths.len(),
{
    let list = file_list(paths);
    let want = Seq::new(paths.len(), |i: int| utf16_units(paths[i]@));
    if paths.len() == 0 {
        assert(read_list(list) =~= want);
    } else {
        path_units_front(paths);
        let u = utf16_units(paths[0]@);
        let tail = paths.skip(1);
        assert forall|i: int| 0 <= i < tail.len() implies listable((#[trigger] tail[i])@) by {
            assert(tail[i] == paths[i + 1]);
        }
        clipboard_round_trip(tail);
        let rest = file_list(tail);
        first_name_of(u, rest);
        assert(list.skip(u.len() as int + 1) =~= rest);
    }
}

} // verus!
