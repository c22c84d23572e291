//! When file operations succeed and where they lead to.

use crate::file_path::FilePath;
use crate::fs_ops::{
    copy_place, duplicate_result, is_path, is_plan, move_result, name_error, paste_name,
    paste_result, recycle_error, rename_result, CopyPlan, Facts, FsError, RecycleError,
    RecycleOutcome,
};
use crate::paths::{extension_of, file_name, joined, last_dot, parent, same_path, stem_of, under};
use crate::text::{decimal, hex_lower, trimmed};
use vstd::prelude::*;

verus! {

// ---------------------------------------------------------------------
// Moving

/// Moving succeeds exactly when it should: the source exists and has a name,
/// the target is a folder, and the source is there already, or nothing is in
/// its way and it is not a folder that would come to lie in itself. It then
/// leads to the name in the target folder, wherever the source was.
pub proof fn moving_succeeds_when_it_should(
    src: Seq<char>,
    dir: Seq<char>,
    here: Facts,
    dir_is_dir: bool,
    taken: bool,
    name: Seq<char>,
)
    requires
        file_name(src) == Some(name),
    ensures
        move_result(src, dir, here, dir_is_dir, taken) is Ok <==> {
            &&& here.exists
            &&& dir_is_dir
            &&& same_path(joined(dir, name), src) || (!taken && !(here.is_dir && under(
                joined(dir, name),
                src,
            )))
        },
        move_result(src, dir, here, dir_is_dir, taken) matches Ok(dst) ==> dst == joined(dir, name),
{
}

/// A file can be moved into any folder in which its name is free, also into
/// one above its own.
pub proof fn files_move_anywhere(
    src: Seq<char>,
    dir: Seq<char>,
    here: Facts,
    name: Seq<char>,
)
    requires
        here.exists,
        !here.is_dir,
        file_name(src) == Some(name),
    ensures
        move_result(src, dir, here, true, false) == Ok::<Seq<char>, FsError>(joined(dir, name)),
{
}

/// Why moving is refused: the source is gone, the target is no folder, the
/// source has no name, the name is taken, or a folder would come to lie in
/// itself; in this order.
pub proof fn refused_moves_say_why(
    src: Seq<char>,
    dir: Seq<char>,
    here: Facts,
    dir_is_dir: bool,
    taken: bool,
)
    ensures
        move_result(src, dir, here, dir_is_dir, taken) matches Err(e) ==> {
            &&& e == FsError::Gone <==> !here.exists
            &&& e == FsError::NotAFolder <==> here.exists && !dir_is_dir
            &&& e == FsError::NoFileName <==> here.exists && dir_is_dir && file_name(src) is None
            &&& e == FsError::NameTaken <==> here.exists && dir_is_dir && file_name(src) is Some
                && taken
            &&& e == FsError::IntoItself <==> here.exists && dir_is_dir && file_name(src) is Some
                && !taken
        },
        file_name(src) is None ==> move_result(src, dir, here, dir_is_dir, taken) is Err,
{
}

// ---------------------------------------------------------------------
// Names

/// Whether a name can be given: without the space around it, it is not empty
/// and holds no separator and no null.
pub open spec fn can_be_given(name: Seq<char>) -> bool {
    let t = trimmed(name);
    t.len() > 0 && forall|i: int|
        0 <= i < t.len() ==> #[trigger] t[i] != '/' && t[i] != '\\' && t[i] != '\0'
}

proof fn names_are_checked(name: Seq<char>)
    ensures
        name_error(name) is None <==> can_be_given(name),
        name_error(name) == Some(FsError::EmptyName) <==> trimmed(name).len() == 0,
        name_error(name) == Some(FsError::BadName) <==> trimmed(name).len() > 0 && !can_be_given(
            name,
        ),
{
    let t = trimmed(name);
    if t.contains('/') {
        let i = choose|i: int| 0 <= i < t.len() && t[i] == '/';
        assert(t[i] == '/');
    }
    if t.contains('\\') {
        let i = choose|i: int| 0 <= i < t.len() && t[i] == '\\';
        assert(t[i] == '\\');
    }
    if t.contains('\0') {
        let i = choose|i: int| 0 <= i < t.len() && t[i] == '\0';
        assert(t[i] == '\0');
    }
    if !can_be_given(name) && t.len() > 0 {
        let i = choose|i: int|
            0 <= i < t.len() && !(#[trigger] t[i] != '/' && t[i] != '\\' && t[i] != '\0');
        assert(t.contains(t[i]));
    }
}

/// Renaming succeeds exactly when the name can be given, the path exists and
/// lies in a folder, the name is another than before, and nothing has it. It
/// leads to the new name in that folder.
pub proof fn renaming_succeeds_when_it_should(
    path: Seq<char>,
    new_name: Seq<char>,
    exists: bool,
    taken: bool,
)
    ensures
        rename_result(path, new_name, exists, taken) is Ok <==> can_be_given(new_name) && exists
            && parent(path) is Some && file_name(path) != Some(trimmed(new_name)) && !taken,
        rename_result(path, new_name, exists, taken) matches Ok(dst) ==> dst == joined(
            parent(path).unwrap(),
            trimmed(new_name),
        ),
        rename_result(path, new_name, exists, taken) matches Err(e) ==> {
            let fine = can_be_given(new_name);
            &&& e == FsError::EmptyName <==> trimmed(new_name).len() == 0
            &&& e == FsError::BadName <==> trimmed(new_name).len() > 0 && !fine
            &&& e == FsError::Gone <==> fine && !exists
            &&& e == FsError::NoParent <==> fine && exists && parent(path) is None
            &&& e == FsError::SameName <==> fine && exists && parent(path) is Some && file_name(
                path,
            ) == Some(trimmed(new_name))
            &&& e == FsError::NameTaken <==> fine && exists && parent(path) is Some && file_name(
                path,
            ) != Some(trimmed(new_name))
        },
{
    names_are_checked(new_name);
}

/// Duplicating succeeds exactly when the name can be given, the source exists
/// and lies in a folder, and nothing has the name. It leads to the new name in
/// that folder.
pub proof fn duplicating_succeeds_when_it_should(
    src: Seq<char>,
    new_name: Seq<char>,
    exists: bool,
    taken: bool,
)
    ensures
        duplicate_result(src, new_name, exists, taken) is Ok <==> can_be_given(new_name) && exists
            && parent(src) is Some && !taken,
        duplicate_result(src, new_name, exists, taken) matches Ok(dst) ==> dst == joined(
            parent(src).unwrap(),
            trimmed(new_name),
        ),
        duplicate_result(src, new_name, exists, taken) matches Err(e) ==> {
            let fine = can_be_given(new_name);
            &&& e == FsError::EmptyName <==> trimmed(new_name).len() == 0
            &&& e == FsError::BadName <==> trimmed(new_name).len() > 0 && !fine
            &&& e == FsError::Gone <==> fine && !exists
            &&& e == FsError::NoParent <==> fine && exists && parent(src) is None
            &&& e == FsError::NameTaken <==> fine && exists && parent(src) is Some
        },
{
    names_are_checked(new_name);
}

/// A planned copy is a folder's for a folder and a file's for a file; what is
/// neither is not copied.
pub proof fn plans_keep_the_kind(
    r: Result<CopyPlan, FsError>,
    want: Result<Seq<char>, FsError>,
    here: Facts,
)
    requires
        is_plan(r, want, here),
    ensures
        r is Ok <==> want is Ok && (here.is_dir || here.is_file),
        r matches Ok(p) ==> p.dst@ == want.unwrap() && p.is_dir == here.is_dir,
        want matches Err(x) ==> r == Err::<CopyPlan, FsError>(x),
        want is Ok && !here.is_dir && !here.is_file ==> r == Err::<CopyPlan, FsError>(
            FsError::NotFileOrDir,
        ),
{
}

// ---------------------------------------------------------------------
// Copies

/// Whether a name falls into a stem and an ending: a folder's has no ending; a
/// file's ending begins with its last dot, unless that comes first.
pub open spec fn falls_into(
    name: Seq<char>,
    is_dir: bool,
    stem: Seq<char>,
    ending: Seq<char>,
) -> bool {
    &&& name == stem + ending
    &&& if is_dir || ending.len() == 0 {
        ending.len() == 0 && (is_dir || forall|i: int|
            1 <= i < name.len() ==> #[trigger] name[i] != '.')
    } else {
        &&& stem.len() > 0
        &&& ending[0] == '.'
        &&& forall|i: int| 1 <= i < ending.len() ==> #[trigger] ending[i] != '.'
    }
}

proof fn last_dot_is_last(name: Seq<char>, k: int)
    requires
        -1 <= k < name.len(),
        k >= 0 ==> name[k] == '.',
        forall|i: int| k < i < name.len() ==> #[trigger] name[i] != '.',
    ensures
        last_dot(name) == k,
    decreases name.len(),
{
    if name.len() > 0 && k < name.len() - 1 {
        let front = name.drop_last();
        assert forall|i: int| k < i < front.len() implies #[trigger] front[i] != '.' by {
            assert(name[i] != '.');
        }
        last_dot_is_last(front, k);
    }
}

pub proof fn parts_of_name(name: Seq<char>, stem: Seq<char>, ending: Seq<char>)
    requires
        falls_into(name, false, stem, ending),
    ensures
        stem_of(name) == stem,
        ending.len() > 0 ==> extension_of(name) == Some(ending.skip(1)),
        ending.len() == 0 ==> extension_of(name) is None,
{
    if ending.len() == 0 {
        if name.len() > 0 && name[0] == '.' {
            last_dot_is_last(name, 0);
        } else {
            last_dot_is_last(name, -1);
        }
        assert(name =~= stem);
    } else {
        let k = stem.len() as int;
        assert forall|i: int| k < i < name.len() implies #[trigger] name[i] != '.' by {
            assert(ending[i - k] != '.');
        }
        last_dot_is_last(name, k);
        assert(name.take(k) =~= stem);
        assert(name.skip(k + 1) =~= ending.skip(1));
    }
}

/// The `n`-th place of a copy is in the folder of the original: its stem,
/// ` - Copy`, from the second on the number in brackets, and its ending. There
/// are 9999 places.
pub proof fn copies_are_named(
    src: Seq<char>,
    is_dir: bool,
    n: nat,
    name: Seq<char>,
    stem: Seq<char>,
    ending: Seq<char>,
)
    requires
        parent(src) is Some,
        file_name(src) == Some(name),
        falls_into(name, is_dir, stem, ending),
        stem.len() > 0,
    ensures
        n == 0 ==> copy_place(src, is_dir, n) == Ok::<Seq<char>, FsError>(
            joined(parent(src).unwrap(), stem + " - Copy"@ + ending),
        ),
        0 < n < 9_999 ==> copy_place(src, is_dir, n) == Ok::<Seq<char>, FsError>(
            joined(
                parent(src).unwrap(),
                stem + " - Copy"@ + " ("@ + decimal(n + 1) + ")"@ + ending,
            ),
        ),
        n >= 9_999 ==> copy_place(src, is_dir, n) == Err::<Seq<char>, FsError>(
            FsError::TooManyCopies,
        ),
{
    reveal_strlit(".");
    if is_dir {
        assert(name =~= stem);
        assert(ending =~= Seq::empty());
    } else {
        parts_of_name(name, stem, ending);
        if ending.len() > 0 {
            assert("."@ + ending.skip(1) =~= ending);
        } else {
            assert(ending =~= Seq::empty());
        }
    }
}

/// What cannot be copied next to itself: what lies in no folder, and what has
/// no name.
pub proof fn only_named_paths_are_copied(src: Seq<char>, is_dir: bool, n: nat)
    ensures
        parent(src) is None ==> copy_place(src, is_dir, n) == Err::<Seq<char>, FsError>(
            FsError::NoParent,
        ),
        parent(src) is Some && file_name(src) is None ==> copy_place(src, is_dir, n) == Err::<
            Seq<char>,
            FsError,
        >(FsError::CannotCopy),
{
}

/// The `n`-th name for pasting: the name itself, then its stem, `-copy`, from
/// the second copy on the number in brackets, and its ending. After 9999 the
/// fraction of a second makes the name.
pub proof fn pasted_names(
    name: Seq<char>,
    is_dir: bool,
    n: nat,
    nanos: u32,
    stem: Seq<char>,
    ending: Seq<char>,
)
    requires
        falls_into(name, is_dir, stem, ending),
    ensures
        n == 0 ==> paste_name(name, is_dir, n, nanos) == name,
        n == 1 ==> paste_name(name, is_dir, n, nanos) == stem + "-copy"@ + ending,
        2 <= n <= 9_999 ==> paste_name(name, is_dir, n, nanos) == stem + "-copy"@ + " ("@ + decimal(
            n,
        ) + ")"@ + ending,
        n > 9_999 ==> paste_name(name, is_dir, n, nanos) == stem + "-copy-"@ + hex_lower(
            nanos as nat,
        ) + ending,
{
    if is_dir {
        assert(name =~= stem);
        assert(name.skip(name.len() as int) =~= ending);
    } else {
        parts_of_name(name, stem, ending);
        assert(name.skip(stem.len() as int) =~= ending);
    }
}

/// Pasting succeeds exactly when the source exists and has a name and the
/// target is a folder, and leads into that folder.
pub proof fn pasting_succeeds_when_it_should(
    src: Seq<char>,
    dir: Seq<char>,
    here: Facts,
    dir_is_dir: bool,
    n: nat,
    nanos: u32,
)
    ensures
        paste_result(src, dir, here, dir_is_dir, n, nanos) is Ok <==> here.exists && dir_is_dir
            && file_name(src) is Some,
        paste_result(src, dir, here, dir_is_dir, n, nanos) matches Ok(dst) ==> dst == joined(
            dir,
            paste_name(file_name(src).unwrap(), here.is_dir, n, nanos),
        ),
        paste_result(src, dir, here, dir_is_dir, n, nanos) matches Err(e) ==> {
            &&& e == FsError::SourceGone <==> !here.exists
            &&& e == FsError::NotAFolder <==> here.exists && !dir_is_dir
            &&& e == FsError::NoFileName <==> here.exists && dir_is_dir
        },
{
}

/// Something went to the Recycle Bin exactly when the system says so: the code
/// is zero and nothing was aborted.
pub proof fn recycled_when_the_system_says_so(code: i32, aborted: bool)
    ensures
        recycle_error(RecycleOutcome::Returned { code, aborted }) is None <==> code == 0
            && !aborted,
        code != 0 ==> recycle_error(RecycleOutcome::Returned { code, aborted }) == Some(
            RecycleError::Failed(code),
        ),
        code == 0 && aborted ==> recycle_error(RecycleOutcome::Returned { code, aborted }) == Some(
            RecycleError::Aborted,
        ),
        recycle_error(RecycleOutcome::Unsupported) == Some(RecycleError::Unsupported),
{
}

/// What is computed of a path is the path or the reason why there is none.
pub proof fn paths_are_told(r: Result<FilePath, FsError>, want: Result<Seq<char>, FsError>)
    requires
        is_path(r, want),
    ensures
        r matches Ok(p) ==> want == Ok::<Seq<char>, FsError>(p@),
        r matches Err(e) ==> want == Err::<Seq<char>, FsError>(e),
{
}

} // verus!
