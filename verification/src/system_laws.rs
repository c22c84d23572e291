//! What is made of what the system answers.

use crate::bytes::{le16, le32, utf16_text_lossy};
use crate::file_path::FilePath;
use crate::operation_laws::{falls_into, parts_of_name};
use crate::paths::file_name;
use crate::scanner::thread_count;
use crate::session::folder_lines;
use crate::spelling_laws::{
    is_name, is_start, parents_lack_the_last_name, spelled, start_is_read, start_text, Start,
};
use crate::text::lowercase;
use crate::types::entry_at;
use crate::usn::{drive_letter, first_cursor, volume_root, UsnJournalInfo};
use crate::windows_integration::{
    ends_drive, folders, is_drop_payload, known_among, readiness_text, step_after_try, unpadded_end,
    unpadded_start, volume_of, volume_opens, ClipboardStep, Folder, FolderProbe, VolumeProbe,
};
use vstd::prelude::*;

verus! {

// ---------------------------------------------------------------------
// Entries

/// The entry of a path: its file name, that name in lowercase, and what
/// follows the last dot of the name, in lowercase, unless the dot comes first;
/// size, time, kind and attributes as they are given.
pub proof fn entries_say_what_is_there(
    path: Seq<char>,
    is_dir: bool,
    size: u64,
    mtime_ms: i64,
    attributes: u32,
    name: Seq<char>,
    stem: Seq<char>,
    ending: Seq<char>,
)
    requires
        file_name(path) == Some(name),
        falls_into(name, false, stem, ending),
    ensures
        ({
            let e = entry_at(path, is_dir, size, mtime_ms, attributes);
            &&& e.path == path
            &&& e.name == name
            &&& e.name_lower == lowercase(name)
            &&& ending.len() == 0 ==> e.ext.len() == 0
            &&& ending.len() > 0 ==> e.ext == lowercase(ending.skip(1))
            &&& e.size == size
            &&& e.mtime_ms == mtime_ms
            &&& e.is_dir == is_dir
            &&& e.attributes == attributes
        }),
{
    parts_of_name(name, stem, ending);
}

/// A scan uses as many threads as asked for, otherwise all cores but one, three
/// where their number is not known; always at least one.
pub proof fn threads_leave_a_core(n: usize)
    ensures
        n > 0 ==> thread_count(Some(n), None) == n,
        thread_count(Some(0), None) == 1,
        n > 1 ==> thread_count(None, Some(n)) == n - 1,
        n <= 1 ==> thread_count(None, Some(n)) == 1,
        thread_count(None, None) == 3,
        forall|c: Option<usize>| #[trigger] thread_count(Some(n), c) == thread_count(Some(n), None),
{
}

// ---------------------------------------------------------------------
// Folders

/// The folders that are asked for, in order.
pub open spec fn asked_folders() -> Seq<Seq<char>> {
    seq![
        "Desktop"@,
        "Documents"@,
        "Downloads"@,
        "Pictures"@,
        "Music"@,
        "Videos"@,
        "Profile"@,
        "LocalAppData"@,
        "RoamingAppData"@,
    ]
}

proof fn known_are_listed(paths: Seq<Option<String>>, n: int, f: Folder)
    requires
        0 <= n <= paths.len(),
        n <= 9,
    ensures
        known_among(paths, n).contains(f) <==> exists|i: int|
            0 <= i < n && is_known(#[trigger] paths[i], i, f),
    decreases n,
{
    assert(asked_folders() =~= crate::windows_integration::folder_names());
    if n > 0 {
        let front = known_among(paths, n - 1);
        known_are_listed(paths, n - 1, f);
        let p = paths[n - 1];
        if let Some(t) = p {
            let new = Folder { name: asked_folders()[n - 1], path: t@ };
            vstd::seq_lib::lemma_seq_contains_after_push(front, new, f);
        }
        if exists|i: int| 0 <= i < n - 1 && is_known(#[trigger] paths[i], i, f) {
            let i = choose|i: int| 0 <= i < n - 1 && is_known(#[trigger] paths[i], i, f);
            assert(is_known(paths[i], i, f));
        }
        if exists|i: int| 0 <= i < n && is_known(#[trigger] paths[i], i, f) {
            let i = choose|i: int| 0 <= i < n && is_known(#[trigger] paths[i], i, f);
        }
        if is_known(paths[n - 1], n - 1, f) {
            assert(is_known(paths[n - 1], n - 1, f));
        }
    }
}

/// Whether `f` is the `i`-th folder that is asked for, at the path that the
/// system gave.
pub open spec fn is_known(answer: Option<String>, i: int, f: Folder) -> bool {
    answer matches Some(p) && p@.len() > 0 && f.path == p@ && f.name == asked_folders()[i]
}

/// The known folders are those for which the system gave a path, each under
/// its name; where the system has none, home is, or the folder one is in.
pub proof fn answered_folders_are_known(paths: Vec<Option<String>>, home: String, f: Folder)
    requires
        paths@.len() <= 9,
    ensures
        folders(FolderProbe::Known(paths)).contains(f) <==> exists|i: int|
            0 <= i < paths@.len() && is_known(#[trigger] paths@[i], i, f),
        folders(FolderProbe::Home(Some(home))) == seq![Folder { name: "Home"@, path: home@ }],
        folders(FolderProbe::Home(None)) == seq![Folder { name: "Home"@, path: "."@ }],
{
    assert(asked_folders() =~= crate::windows_integration::folder_names());
    known_are_listed(paths@, paths@.len() as int, f);
}

// ---------------------------------------------------------------------
// Volumes

/// The volume of a path on a drive is the drive's root.
pub proof fn volumes_are_drive_roots(c: char, names: Seq<Seq<char>>)
    requires
        is_start(Start::Drive(c)),
        forall|i: int| 0 <= i < names.len() ==> is_name(#[trigger] names[i]),
    ensures
        volume_of(spelled(Start::Drive(c), names, '\\')) == seq![c, ':', '\\'],
        volume_root(spelled(Start::Drive(c), names, '\\')) == seq![c, ':', '\\'],
        drive_letter(volume_root(spelled(Start::Drive(c), names, '\\'))) == c,
    decreases names.len(),
{
    reveal_strlit(":\\");
    let s = Start::Drive(c);
    let t = spelled(s, names, '\\');
    parents_lack_the_last_name(s, names, '\\');
    start_is_read(s, names, '\\');
    assert(start_text(s, '\\') =~= seq![c, ':', '\\']);
    assert(t.take(3) =~= seq![c, ':', '\\']);
    assert(t[0] == c && t[1] == ':') by {
        assert(t.take(3)[0] == t[0] && t.take(3)[1] == t[1]);
    }
    assert(seq![t[0]] + ":\\"@ =~= seq![c, ':', '\\']);
    if names.len() > 0 {
        let front = names.drop_last();
        assert forall|i: int| 0 <= i < front.len() implies is_name(#[trigger] front[i]) by {
            assert(front[i] == names[i]);
        }
        volumes_are_drive_roots(c, front);
        assert(!ends_drive(t));
    } else {
        assert(t =~= seq![c, ':', '\\']);
    }
}

/// A volume's journal can be used exactly when the volume opens.
pub proof fn open_volumes_are_ready(fs_name: Option<Vec<u16>>, can_open: bool)
    ensures
        volume_opens(VolumeProbe::Volume { fs_name, can_open }) <==> can_open,
        !volume_opens(VolumeProbe::Other),
{
}

/// Reading begins where it was left off, if the journal still reaches there,
/// and otherwise at the journal's first change.
pub proof fn reading_begins_where_it_can(j: UsnJournalInfo, at: i64)
    ensures
        j.first_usn <= at <= j.next_usn ==> first_cursor(j, Some(at)) == at,
        at < j.first_usn || at > j.next_usn ==> first_cursor(j, Some(at)) == j.first_usn,
        first_cursor(j, None) == j.first_usn,
{
}

// ---------------------------------------------------------------------
// The clipboard

/// What goes on the clipboard has a header of twenty bytes, which says so,
/// and that what follows is in wide characters.
pub proof fn payloads_have_a_header(b: Seq<u8>, list: Seq<u16>)
    requires
        is_drop_payload(b, list),
    ensures
        b.len() == 20 + 2 * list.len(),
        le32(b, 0) == 20,
        le32(b, 16) == 1,
        forall|i: int| 0 <= i < list.len() ==> #[trigger] le16(b, 20 + 2 * i) == list[i],
{
}

/// A clipboard that opens is filled at once; one that does not is tried again
/// nine times.
pub proof fn tries_follow_failures(failed: nat)
    ensures
        step_after_try(failed as int, true) == ClipboardStep::Fill,
        failed < 9 ==> step_after_try(failed as int, false) == ClipboardStep::TryAgain,
        failed >= 9 ==> step_after_try(failed as int, false) == ClipboardStep::GiveUp,
{
}

/// Nulls.
pub open spec fn all_null(s: Seq<char>) -> bool {
    forall|i: int| 0 <= i < s.len() ==> #[trigger] s[i] == '\0'
}

proof fn start_padding_goes(a: Seq<char>, t: Seq<char>)
    requires
        all_null(a),
        t.len() > 0 ==> t[0] != '\0',
    ensures
        unpadded_start(a + t) == t,
    decreases a.len(),
{
    if a.len() == 0 {
        assert(a + t =~= t);
    } else {
        let rest = a.drop_first();
        assert(a[0] == '\0');
        assert forall|i: int| 0 <= i < rest.len() implies #[trigger] rest[i] == '\0' by {
            assert(rest[i] == a[i + 1]);
        }
        start_padding_goes(rest, t);
        assert((a + t).drop_first() =~= rest + t);
    }
}

proof fn end_padding_goes(t: Seq<char>, b: Seq<char>)
    requires
        all_null(b),
        t.len() > 0 ==> t.last() != '\0',
    ensures
        unpadded_end(t + b) == t,
    decreases b.len(),
{
    if b.len() == 0 {
        assert(t + b =~= t);
    } else {
        let rest = b.drop_last();
        assert(b[b.len() - 1] == '\0');
        assert forall|i: int| 0 <= i < rest.len() implies #[trigger] rest[i] == '\0' by {
            assert(rest[i] == b[i]);
        }
        end_padding_goes(t, rest);
        assert((t + b).drop_last() =~= t + rest);
        assert((t + b).last() == '\0');
    }
}

/// The name of a file system is told without the nulls around it, and whether
/// the volume opens.
pub proof fn file_systems_are_named(
    u: Vec<u16>,
    can_open: bool,
    name: Seq<char>,
    a: Seq<char>,
    b: Seq<char>,
)
    requires
        utf16_text_lossy(u@) == a + name + b,
        all_null(a),
        all_null(b),
        name.len() > 0,
        name[0] != '\0',
        name.last() != '\0',
    ensures
        readiness_text(VolumeProbe::Volume { fs_name: Some(u), can_open }) == name
            + " (can_open_volume="@ + if can_open {
            "true)"@
        } else {
            "false)"@
        },
{
    assert(a + name + b =~= a + (name + b));
    start_padding_goes(a, name + b);
    end_padding_goes(name, b);
}

/// Known folders are told one after the other, a line each.
pub proof fn folders_are_told_in_lines(
    a: Seq<(String, FilePath)>,
    b: Seq<(String, FilePath)>,
    name: String,
    path: FilePath,
)
    ensures
        folder_lines(a + b) == folder_lines(a) + folder_lines(b),
        folder_lines(seq![(name, path)]) == name@ + ": "@ + path@ + "\n"@,
    decreases b.len(),
{
    let one = seq![(name, path)];
    assert(one.drop_last() =~= Seq::empty());
    assert(folder_lines(one.drop_last()) =~= Seq::empty());
    assert(folder_lines(one) =~= name@ + ": "@ + path@ + "\n"@);
    if b.len() == 0 {
        assert(a + b =~= a);
        assert(folder_lines(a) + folder_lines(b) =~= folder_lines(a));
    } else {
        folders_are_told_in_lines(a, b.drop_last(), name, path);
        assert((a + b).drop_last() =~= a + b.drop_last());
        assert((a + b).last() == b.last());
        assert(folder_lines(a + b) =~= folder_lines(a) + folder_lines(b));
    }
}

} // verus!
