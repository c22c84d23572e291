//! What is found in the Recycle Bin and restored from it.

use crate::bytes::le64;
use crate::paths::{file_name, joined, parent, top};
use crate::recycle::{
    backslashed, bin_fields, bin_match, bin_path, data_name, data_path, is_latest, latest,
    latest_is_newest, restore_refusal, BinFields, BinInfoError, BinItem, InfoFile, RestoreError,
    RestoreFacts,
};
use crate::spelling_laws::{
    is_name, is_start, joining_adds_a_name, parents_lack_the_last_name, paths_mean_their_names,
    spelled, start_text, Start,
};
use crate::text::lowercase;
use vstd::prelude::*;

verus! {

// ---------------------------------------------------------------------
// Comparing paths

/// Whether two texts differ at most in the kind of their slashes.
pub open spec fn same_but_slashes(a: Seq<char>, b: Seq<char>) -> bool {
    a.len() == b.len() && forall|i: int|
        0 <= i < a.len() ==> #[trigger] a[i] == b[i] || (is_slash(a[i]) && is_slash(b[i]))
}

pub open spec fn is_slash(c: char) -> bool {
    c == '/' || c == '\\'
}

/// Deleted paths are compared without regard to the kind of slashes and to
/// slashes at the end; what is left is compared in lowercase, letter for
/// letter.
pub proof fn bin_paths_compare(a: Seq<char>, b: Seq<char>)
    ensures
        same_but_slashes(a, b) ==> bin_path(a) == bin_path(b),
        bin_path(a.push('\\')) == bin_path(a),
        bin_path(a.push('/')) == bin_path(a),
        a.len() > 0 && !is_slash(a.last()) && (forall|i: int|
            0 <= i < a.len() ==> #[trigger] a[i] != '/') ==> bin_path(a) == lowercase(a),
{
    if same_but_slashes(a, b) {
        assert forall|i: int| 0 <= i < a.len() implies backslashed(a)[i] == backslashed(b)[i] by {
            assert(a[i] == b[i] || (is_slash(a[i]) && is_slash(b[i])));
        }
        assert(backslashed(a) =~= backslashed(b));
    }
    let x = backslashed(a);
    assert(backslashed(a.push('\\')) =~= x.push('\\'));
    assert(backslashed(a.push('/')) =~= x.push('\\'));
    assert(x.push('\\').drop_last() =~= x);
    if a.len() > 0 && !is_slash(a.last()) && (forall|i: int|
        0 <= i < a.len() ==> #[trigger] a[i] != '/') {
        assert(x =~= a);
    }
}

// ---------------------------------------------------------------------
// Finding

/// Whether the file tells of the deletion of a path that compares as `want`:
/// its name begins with `$I` and its bytes say so.
pub open spec fn tells_of(info: InfoFile, want: Seq<char>, f: BinFields) -> bool {
    &&& file_name(info.path@) matches Some(n) && n.len() >= 2 && n[0] == '$' && n[1] == 'I'
    &&& info.bytes matches Some(b) && bin_fields(b@) == Ok::<BinFields, BinInfoError>(f)
    &&& bin_path(f.path) == want
}

proof fn matches_tell(info: InfoFile, want: Seq<char>)
    ensures
        forall|f: BinFields| bin_match(info, want) == Some(f) <==> #[trigger] tells_of(
            info,
            want,
            f,
        ),
{
    reveal_strlit("$I");
    if let Some(n) = file_name(info.path@) {
        if n.len() >= 2 && n[0] == '$' && n[1] == 'I' {
            assert(n.subrange(0, 2) =~= "$I"@);
        }
        if crate::text::begins_with(n, "$I"@) {
            assert(n.subrange(0, 2)[0] == n[0] && n.subrange(0, 2)[1] == n[1]);
        }
    }
}

/// What was deleted is found: where a file tells of the path, one is found,
/// which tells of it too, of a deletion no earlier; where none does, none is.
pub proof fn deleted_paths_are_found(
    infos: Seq<InfoFile>,
    original: Seq<char>,
    k: int,
    f: BinFields,
)
    requires
        0 <= k < infos.len(),
        tells_of(infos[k], bin_path(original), f),
    ensures
        latest(infos, bin_path(original)) matches Some(i) && 0 <= i < infos.len() && exists|
            g: BinFields,
        |
            #[trigger] tells_of(infos[i], bin_path(original), g) && g.deleted_at >= f.deleted_at,
{
    let w = bin_path(original);
    latest_is_newest(infos, w);
    matches_tell(infos[k], w);
    assert(bin_match(infos[k], w) == Some(f));
    let i = latest(infos, w).unwrap();
    matches_tell(infos[i], w);
    assert(tells_of(infos[i], w, bin_match(infos[i], w).unwrap()));
}

/// Nothing is found of a path that no file tells of.
pub proof fn other_paths_are_not_found(infos: Seq<InfoFile>, original: Seq<char>)
    requires
        forall|k: int, f: BinFields|
            0 <= k < infos.len() ==> !#[trigger] tells_of(infos[k], bin_path(original), f),
    ensures
        latest(infos, bin_path(original)) is None,
{
    let w = bin_path(original);
    latest_is_newest(infos, w);
    if let Some(i) = latest(infos, w) {
        matches_tell(infos[i], w);
        assert(tells_of(infos[i], w, bin_match(infos[i], w).unwrap()));
    }
}

/// A metadata file says nothing where it is too short or its header is
/// neither 1 nor 2.
pub proof fn unknown_headers_are_refused(b: Seq<u8>)
    ensures
        b.len() < 28 ==> bin_fields(b) is Err,
        b.len() >= 28 && le64(b, 0) != 1 && le64(b, 0) != 2 ==> bin_fields(b) is Err,
        bin_fields(b) matches Ok(f) ==> f.size == le64(b, 8) && f.deleted_at == le64(b, 16),
{
}

// ---------------------------------------------------------------------
// Restoring

/// A path is restored exactly when the bin can be read and a file tells of it,
/// nothing is at its place, its folder is there, and the data is.
pub proof fn restoring_succeeds_when_it_should(
    bin: Option<Seq<InfoFile>>,
    original: Seq<char>,
    facts: RestoreFacts,
)
    ensures
        restore_refusal(bin, original, facts) is None <==> {
            &&& bin matches Some(infos) && latest(infos, bin_path(original)) is Some
            &&& !facts.exists
            &&& parent(original) is None || facts.parent_is_dir
            &&& facts.data_exists
        },
        bin is None ==> restore_refusal(bin, original, facts) == Some(RestoreError::BinUnreadable),
        bin matches Some(infos) ==> (restore_refusal(bin, original, facts) == Some(
            RestoreError::NotInBin,
        ) <==> latest(infos, bin_path(original)) is None),
        restore_refusal(bin, original, facts) == Some(RestoreError::AlreadyExists) ==> facts.exists,
        restore_refusal(bin, original, facts) == Some(RestoreError::ParentGone) ==> parent(
            original,
        ) is Some && !facts.parent_is_dir && !facts.exists,
        restore_refusal(bin, original, facts) == Some(RestoreError::DataMissing)
            ==> !facts.data_exists && !facts.exists,
{
}

/// The data of a deletion lies beside its metadata, under the same name with
/// `$R` for `$I`.
pub proof fn data_lies_beside_metadata(s: Start, dir: Seq<Seq<char>>, rest: Seq<char>)
    requires
        is_start(s),
        forall|i: int| 0 <= i < dir.len() ==> is_name(#[trigger] dir[i]),
        forall|i: int| 0 <= i < rest.len() ==> #[trigger] rest[i] != '\\' && rest[i] != '/',
    ensures
        data_path(spelled(s, dir.push(seq!['$', 'I'] + rest), '\\')) == spelled(
            s,
            dir.push(seq!['$', 'R'] + rest),
            '\\',
        ),
{
    reveal_strlit("$I");
    reveal_strlit("$R");
    let a = seq!['$', 'I'] + rest;
    let b = seq!['$', 'R'] + rest;
    assert(is_name(a)) by {
        assert(a[0] == '$' && a[1] == 'I');
        assert forall|i: int| 0 <= i < a.len() implies #[trigger] a[i] != '\\' && a[i] != '/' by {
            if i >= 2 {
                assert(a[i] == rest[i - 2]);
            }
        }
    }
    assert(is_name(b)) by {
        assert(b[0] == '$' && b[1] == 'R');
        assert forall|i: int| 0 <= i < b.len() implies #[trigger] b[i] != '\\' && b[i] != '/' by {
            if i >= 2 {
                assert(b[i] == rest[i - 2]);
            }
        }
    }
    let all = dir.push(a);
    let t = spelled(s, all, '\\');
    assert forall|i: int| 0 <= i < all.len() implies is_name(#[trigger] all[i]) by {
        if i < dir.len() {
            assert(all[i] == dir[i]);
        }
    }
    paths_mean_their_names(s, all, '\\');
    parents_lack_the_last_name(s, all, '\\');
    assert(all.drop_last() =~= dir);
    assert("$I"@ =~= seq!['$', 'I']);
    assert("$R"@ =~= seq!['$', 'R']);
    assert(a.subrange(0, 2) =~= "$I"@);
    assert(data_name(a) =~= b) by {
        assert(a.skip(2) =~= rest);
    }
    joining_adds_a_name(s, dir, '\\', b);
}

/// The Recycle Bin of a path on a drive is at the root of that drive.
pub proof fn bins_are_at_the_root(c: char, names: Seq<Seq<char>>)
    requires
        is_start(Start::Drive(c)),
        forall|i: int| 0 <= i < names.len() ==> is_name(#[trigger] names[i]),
    ensures
        joined(top(spelled(Start::Drive(c), names, '\\')), "$Recycle.Bin"@) == seq![c, ':', '\\']
            + "$Recycle.Bin"@,
{
    reveal_strlit("$Recycle.Bin");
    let s = Start::Drive(c);
    let t = spelled(s, names, '\\');
    let bin = "$Recycle.Bin"@;
    assert(is_name(bin)) by {
        assert(bin.len() == 12 && bin[0] == '$' && bin[1] == 'R');
        assert forall|i: int| 0 <= i < bin.len() implies #[trigger] bin[i] != '\\' && bin[i]
            != '/' by {}
    }
    paths_mean_their_names(s, names, '\\');
    crate::spelling_laws::start_is_read(s, names, '\\');
    let none = Seq::<Seq<char>>::empty();
    joining_adds_a_name(s, none, '\\', bin);
    assert(none.push(bin).len() == 1);
    assert(t[0] == c && t[1] == ':') by {
        assert(t.take(3)[0] == t[0] && t.take(3)[1] == t[1]);
        assert(start_text(s, '\\').len() == 3);
    }
    assert(top(t) =~= start_text(s, '\\'));
}

/// What is found says which path was deleted, its size and when, and where its
/// metadata and its data lie.
pub proof fn found_items_say_what_was_deleted(
    r: Option<BinItem>,
    infos: Seq<InfoFile>,
    original: Seq<char>,
)
    requires
        is_latest(r, infos, bin_path(original)),
    ensures
        r is Some <==> latest(infos, bin_path(original)) is Some,
        r matches Some(item) ==> exists|i: int, f: BinFields|
            {
                &&& 0 <= i < infos.len()
                &&& #[trigger] tells_of(infos[i], bin_path(original), f)
                &&& item.original_path@ == f.path
                &&& item.size == f.size
                &&& item.deleted_at == f.deleted_at
                &&& item.info_path@ == infos[i].path@
                &&& item.data_path@ == data_path(infos[i].path@)
                &&& bin_path(item.original_path@) == bin_path(original)
            },
{
    if let Some(i) = latest(infos, bin_path(original)) {
        matches_tell(infos[i], bin_path(original));
        let f = bin_match(infos[i], bin_path(original)).unwrap();
        assert(tells_of(infos[i], bin_path(original), f));
    }
}

} // verus!
