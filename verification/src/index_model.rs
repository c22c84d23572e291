//! What the index holds, and what each change does to it.

use crate::file_path::FilePath;
use crate::path_laws::same_key_same_path;
use crate::paths::{path_key, same_path, under};
use crate::scanner::pruned_path;
use crate::types::FileEntry;
use vstd::prelude::*;

verus! {

/// The entries in their order, and the position at which each path is found.
pub ghost struct IndexState {
    pub entries: Seq<FileEntry>,
    pub pos: Map<Seq<char>, nat>,
}

/// Where each path is found among `entries`: at its last position.
pub open spec fn position_map(entries: Seq<FileEntry>) -> Map<Seq<char>, nat>
    decreases entries.len(),
{
    if entries.len() == 0 {
        Map::empty()
    } else {
        position_map(entries.drop_last()).insert(
            entries.last().key(),
            (entries.len() - 1) as nat,
        )
    }
}

/// Whether no two entries have the same path.
pub open spec fn unique_paths(entries: Seq<FileEntry>) -> bool {
    forall|i: int, j: int|
        0 <= i < j < entries.len() ==> (#[trigger] entries[i]).key() != (
        #[trigger] entries[j]).key()
}

impl IndexState {
    /// Every position that a path is mapped to holds an entry of that path.
    pub open spec fn sound(self) -> bool {
        forall|k: Seq<char>| #[trigger]
            self.pos.contains_key(k) ==> self.pos[k] < self.entries.len()
                && self.entries[self.pos[k] as int].key() == k
    }

    /// Every entry is found at its own position; so no two have the same path.
    pub open spec fn complete(self) -> bool {
        &&& self.sound()
        &&& forall|i: int|
            0 <= i < self.entries.len() ==> self.pos.contains_key(
                (#[trigger] self.entries[i]).key(),
            ) && self.pos[self.entries[i].key()] == i
    }

    /// The entry that a path is mapped to.
    pub open spec fn lookup(self, k: Seq<char>) -> Option<FileEntry> {
        if self.pos.contains_key(k) {
            Some(self.entries[self.pos[k] as int])
        } else {
            None
        }
    }

    /// With `e` in place of the entry of its path, or behind the last entry.
    pub open spec fn inserted(self, e: FileEntry) -> IndexState {
        let k = e.key();
        if self.pos.contains_key(k) {
            IndexState { entries: self.entries.update(self.pos[k] as int, e), pos: self.pos }
        } else {
            IndexState {
                entries: self.entries.push(e),
                pos: self.pos.insert(k, self.entries.len()),
            }
        }
    }

    /// With the entries `es` put in, one after the other.
    pub open spec fn merged(self, es: Seq<FileEntry>) -> IndexState
        decreases es.len(),
    {
        if es.len() == 0 {
            self
        } else {
            self.merged(es.drop_last()).inserted(es.last())
        }
    }

    /// Without the entry at the position of the path with key `k`. The last
    /// entry takes its place.
    pub open spec fn removed(self, k: Seq<char>) -> IndexState {
        if self.pos.contains_key(k) {
            let i = self.pos[k] as int;
            let entries = self.entries.update(i, self.entries.last()).drop_last();
            let pos = self.pos.remove(k);
            IndexState {
                entries,
                pos: if i < entries.len() {
                    pos.insert(entries[i].key(), i as nat)
                } else {
                    pos
                },
            }
        } else {
            self
        }
    }

    /// Without the entries of all these paths, one after the other.
    pub open spec fn removed_all(self, ks: Seq<Seq<char>>) -> IndexState
        decreases ks.len(),
    {
        if ks.len() == 0 {
            self
        } else {
            self.removed_all(ks.drop_last()).removed(ks.last())
        }
    }

    /// Without `dir` and everything below it.
    pub open spec fn without(self, dir: Seq<char>) -> IndexState {
        let entries = self.entries.filter(|e: FileEntry| !under(e.path@, dir));
        if entries.len() < self.entries.len() {
            IndexState { entries, pos: position_map(entries) }
        } else {
            self
        }
    }

    /// Without a path that has vanished: its entry, and if there was one,
    /// everything below it.
    pub open spec fn vanished(self, path: Seq<char>) -> IndexState {
        if self.pos.contains_key(path_key(path)) {
            self.removed(path_key(path)).without(path)
        } else {
            self
        }
    }
}

// ---------------------------------------------------------------------
// Looking at the disk again

/// What was found at a path: its entry and, for a folder, everything in it.
#[derive(Debug)]
pub struct Found {
    pub entry: FileEntry,
    pub children: Vec<FileEntry>,
}

/// A path at which something happened, and what is there now.
#[derive(Debug)]
pub struct Observed {
    pub path: FilePath,
    /// Whether something is there when links are followed.
    pub exists: bool,
    /// What is there when links are not followed.
    pub found: Option<Found>,
}

/// Whether one of the entries has the key `k`.
pub open spec fn has_key(entries: Seq<FileEntry>, k: Seq<char>) -> bool {
    exists|i: int| 0 <= i < entries.len() && (#[trigger] entries[i]).key() == k
}

/// Whether `e` lies below `path` and is no longer among `live`.
pub open spec fn is_stale(e: FileEntry, path: Seq<char>, live: Seq<FileEntry>) -> bool {
    !same_path(e.path@, path) && under(e.path@, path) && !has_key(live, e.key())
}

/// The keys of the entries below `path` that are no longer among `live`.
pub open spec fn stale_keys(
    entries: Seq<FileEntry>,
    path: Seq<char>,
    live: Seq<FileEntry>,
) -> Seq<Seq<char>>
    decreases entries.len(),
{
    if entries.len() == 0 {
        Seq::empty()
    } else {
        let ks = stale_keys(entries.drop_last(), path, live);
        if is_stale(entries.last(), path, live) {
            ks.push(entries.last().key())
        } else {
            ks
        }
    }
}

/// The index after another look at `path`. What is there takes the place of
/// what was; of a folder, what is no longer in it leaves and what is in it
/// now is put in. Where nothing is left, the path vanishes.
pub open spec fn after_stat(st: IndexState, path: Seq<char>, found: Option<Found>) -> IndexState {
    match found {
        Some(f) => {
            let st = st.inserted(f.entry);
            if f.entry.is_dir {
                st.removed_all(stale_keys(st.entries, path, f.children@)).merged(f.children@)
            } else {
                st
            }
        },
        None => st.vanished(path),
    }
}

/// Whether another look at `path` puts something in or takes something out.
pub open spec fn stat_touches(st: IndexState, path: Seq<char>, found: Option<Found>) -> bool {
    found is Some || st.pos.contains_key(path_key(path))
}

/// An index and how many paths were put in and taken out.
pub ghost struct Applied {
    pub state: IndexState,
    pub upserted: nat,
    pub removed: nat,
}

/// The index after another look at each path.
pub open spec fn after_events(st: IndexState, seen: Seq<Observed>) -> Applied
    decreases seen.len(),
{
    if seen.len() == 0 {
        Applied { state: st, upserted: 0, removed: 0 }
    } else {
        let a = after_events(st, seen.drop_last());
        let o = seen.last();
        let known = a.state.pos.contains_key(path_key(o.path@));
        Applied {
            state: after_stat(a.state, o.path@, o.found),
            upserted: if o.found is Some {
                a.upserted + 1
            } else {
                a.upserted
            },
            removed: if o.found is None && known {
                a.removed + 1
            } else {
                a.removed
            },
        }
    }
}

/// The index after one change that was watched below `root`.
pub open spec fn after_watched(a: Applied, root: Seq<char>, o: Observed) -> Applied {
    if pruned_path(root, o.path@) {
        a
    } else if o.exists {
        Applied {
            state: after_stat(a.state, o.path@, o.found),
            upserted: if o.found is Some {
                a.upserted + 1
            } else {
                a.upserted
            },
            removed: a.removed,
        }
    } else {
        Applied {
            state: a.state.vanished(o.path@),
            upserted: a.upserted,
            removed: if a.state.pos.contains_key(path_key(o.path@)) {
                a.removed + 1
            } else {
                a.removed
            },
        }
    }
}

/// The index after a batch of changes that were watched below `root`.
pub open spec fn after_watch_batch(st: IndexState, root: Seq<char>, seen: Seq<Observed>) -> Applied
    decreases seen.len(),
{
    if seen.len() == 0 {
        Applied { state: st, upserted: 0, removed: 0 }
    } else {
        after_watched(after_watch_batch(st, root, seen.drop_last()), root, seen.last())
    }
}

/// Whether a watched change puts something in or takes something out.
pub open spec fn watch_touches(st: IndexState, root: Seq<char>, o: Observed) -> bool {
    !pruned_path(root, o.path@) && ((o.exists && o.found is Some) || st.pos.contains_key(
        path_key(o.path@),
    ))
}

/// Whether one of the watched changes puts something in or takes something
/// out when its turn comes.
pub open spec fn batch_touches(st: IndexState, root: Seq<char>, seen: Seq<Observed>) -> bool
    decreases seen.len(),
{
    seen.len() > 0 && (batch_touches(st, root, seen.drop_last()) || watch_touches(
        after_watch_batch(st, root, seen.drop_last()).state,
        root,
        seen.last(),
    ))
}

/// Whether there is an entry at `dir` or below it.
pub open spec fn holds_below(st: IndexState, dir: Seq<char>) -> bool {
    exists|i: int| 0 <= i < st.entries.len() && under((#[trigger] st.entries[i]).path@, dir)
}

// ---------------------------------------------------------------------
// Laws

/// The position map of a list of entries is sound, and complete where no two
/// entries share a path.
pub proof fn position_map_sound(entries: Seq<FileEntry>)
    ensures
        (IndexState { entries, pos: position_map(entries) }).sound(),
        unique_paths(entries) ==> (IndexState { entries, pos: position_map(entries) }).complete(),
        forall|i: int|
            0 <= i < entries.len() ==> position_map(entries).contains_key(
                (#[trigger] entries[i]).key(),
            ),
    decreases entries.len(),
{
    if entries.len() > 0 {
        let front = entries.drop_last();
        position_map_sound(front);
        let a = IndexState { entries: front, pos: position_map(front) };
        let b = IndexState { entries, pos: position_map(entries) };
        assert forall|k: Seq<char>| #[trigger] b.pos.contains_key(k) implies b.pos[k]
            < entries.len() && entries[b.pos[k] as int].key() == k by {
            if k != entries.last().key() {
                assert(a.pos.contains_key(k));
            }
        }
        assert forall|i: int| 0 <= i < entries.len() implies b.pos.contains_key(
            (#[trigger] entries[i]).key(),
        ) by {
            if i < front.len() {
                assert(front[i] == entries[i]);
            }
        }
        if unique_paths(entries) {
            assert(unique_paths(front)) by {
                assert forall|i: int, j: int| 0 <= i < j < front.len() implies (
                #[trigger] front[i]).key() != (#[trigger] front[j]).key() by {
                    assert(entries[i].key() != entries[j].key());
                }
            }
            assert forall|i: int| 0 <= i < entries.len() implies b.pos.contains_key(
                (#[trigger] entries[i]).key(),
            ) && b.pos[entries[i].key()] == i by {
                if i < front.len() {
                    assert(entries[i].key() != entries[entries.len() - 1].key());
                }
            }
        }
    }
}

/// In a complete index no two entries have the same path, and a path is
/// mapped to `e` exactly when `e` is the entry of that path.
pub proof fn complete_lookup(st: IndexState)
    requires
        st.complete(),
    ensures
        unique_paths(st.entries),
        forall|k: Seq<char>, e: FileEntry|
            #![trigger st.lookup(k), st.entries.contains(e)]
            st.lookup(k) == Some(e) <==> st.entries.contains(e) && e.key() == k,
{
    assert forall|k: Seq<char>, e: FileEntry|
        #![trigger st.lookup(k), st.entries.contains(e)]
        st.lookup(k) == Some(e) <==> st.entries.contains(e) && e.key() == k by {
        if st.entries.contains(e) && e.key() == k {
            let i = choose|i: int| 0 <= i < st.entries.len() && st.entries[i] == e;
        }
    }
}

/// Putting an entry in keeps the index sound and complete; its path is then
/// mapped to it, and every other path as before.
pub proof fn insert_law(st: IndexState, e: FileEntry)
    requires
        st.sound(),
    ensures
        st.inserted(e).sound(),
        st.complete() ==> st.inserted(e).complete(),
        st.inserted(e).lookup(e.key()) == Some(e),
        forall|k: Seq<char>| k != e.key() ==> #[trigger] st.inserted(e).lookup(k) == st.lookup(k),
{
    let t = st.inserted(e);
    let k0 = e.key();
    assert forall|k: Seq<char>| #[trigger] t.pos.contains_key(k) implies t.pos[k]
        < t.entries.len() && t.entries[t.pos[k] as int].key() == k by {
        if k != k0 {
            if st.pos.contains_key(k0) {
                assert(st.entries[st.pos[k0] as int].key() == k0);
            }
        }
    }
    if st.complete() {
        assert forall|i: int| 0 <= i < t.entries.len() implies t.pos.contains_key(
            (#[trigger] t.entries[i]).key(),
        ) && t.pos[t.entries[i].key()] == i by {
            if i < st.entries.len() && t.entries[i] == st.entries[i] {
                assert(st.pos[st.entries[i].key()] == i);
            }
        }
    }
    assert forall|k: Seq<char>| k != k0 implies #[trigger] t.lookup(k) == st.lookup(k) by {
        if st.pos.contains_key(k) {
            if st.pos.contains_key(k0) {
                assert(st.entries[st.pos[k0] as int].key() == k0);
            }
        }
    }
}

/// Taking a path out keeps the index sound and complete. From a complete
/// index the path is then gone, and every other path mapped as before.
pub proof fn remove_law(st: IndexState, k0: Seq<char>)
    requires
        st.sound(),
    ensures
        st.removed(k0).sound(),
        st.complete() ==> st.removed(k0).complete(),
        st.complete() ==> st.removed(k0).lookup(k0) is None,
        st.complete() ==> forall|k: Seq<char>|
            k != k0 ==> #[trigger] st.removed(k0).lookup(k) == st.lookup(k),
{
    if st.pos.contains_key(k0) {
        let t = st.removed(k0);
        let i = st.pos[k0] as int;
        let last = st.entries.len() - 1;
        assert forall|k: Seq<char>| #[trigger] t.pos.contains_key(k) implies t.pos[k]
            < t.entries.len() && t.entries[t.pos[k] as int].key() == k by {
            if !(i < last && k == t.entries[i].key()) {
                assert(st.entries[st.pos[k] as int].key() == k);
            }
        }
        if st.complete() {
            assert forall|j: int| 0 <= j < t.entries.len() implies t.pos.contains_key(
                (#[trigger] t.entries[j]).key(),
            ) && t.pos[t.entries[j].key()] == j by {
                assert(st.pos[st.entries[j].key()] == j);
            }
            assert forall|k: Seq<char>| k != k0 implies #[trigger] t.lookup(k) == st.lookup(k) by {
                if st.pos.contains_key(k) {
                    assert(st.entries[st.pos[k] as int].key() == k);
                }
            }
        }
    }
}

/// A filter keeps paths unique.
proof fn filter_unique(s: Seq<FileEntry>, f: spec_fn(FileEntry) -> bool)
    requires
        unique_paths(s),
    ensures
        unique_paths(s.filter(f)),
        forall|e: FileEntry| #[trigger] s.filter(f).contains(e) <==> s.contains(e) && f(e),
        s.filter(f).len() <= s.len(),
        s.filter(f).len() == s.len() ==> s.filter(f) == s,
    decreases s.len(),
{
    reveal(Seq::filter);
    if s.len() > 0 {
        let front = s.drop_last();
        assert(unique_paths(front)) by {
            assert forall|i: int, j: int| 0 <= i < j < front.len() implies (
            #[trigger] front[i]).key() != (#[trigger] front[j]).key() by {
                assert(s[i].key() != s[j].key());
            }
        }
        filter_unique(front, f);
        let out = s.filter(f);
        let kept = front.filter(f);
        assert forall|e: FileEntry| #[trigger] out.contains(e) <==> s.contains(e) && f(e) by {
            vstd::seq_lib::lemma_seq_contains_after_push(front, s.last(), e);
            vstd::seq_lib::lemma_seq_contains_after_push(kept, s.last(), e);
        }
        assert forall|i: int, j: int| 0 <= i < j < out.len() implies (#[trigger] out[i]).key()
            != (#[trigger] out[j]).key() by {
            if j < kept.len() {
                assert(kept[i].key() != kept[j].key());
            } else {
                assert(kept.contains(kept[i]));
                let n = choose|n: int| 0 <= n < front.len() && front[n] == kept[i];
            }
        }
    }
}

/// Taking a folder out keeps the index sound and complete. From a complete
/// index exactly the folder and what lies below it are gone.
pub proof fn without_law(st: IndexState, dir: Seq<char>)
    requires
        st.sound(),
    ensures
        st.without(dir).sound(),
        st.complete() ==> st.without(dir).complete(),
        st.complete() ==> forall|e: FileEntry| #[trigger]
            st.without(dir).entries.contains(e) <==> st.entries.contains(e) && !under(
                e.path@,
                dir,
            ),
        st.without(dir).entries.len() <= st.entries.len(),
{
    let f = |e: FileEntry| !under(e.path@, dir);
    let entries = st.entries.filter(f);
    st.entries.lemma_filter_len(f);
    position_map_sound(entries);
    if st.complete() {
        complete_lookup(st);
        filter_unique(st.entries, f);
    }
}

/// Taking a folder out makes the index smaller exactly when there is an entry
/// at the folder or below it.
pub proof fn without_shrinks(st: IndexState, dir: Seq<char>)
    ensures
        st.without(dir).entries.len() < st.entries.len() <==> holds_below(st, dir),
        !holds_below(st, dir) ==> st.without(dir) == st,
{
    filter_shrinks(st.entries, dir);
}

proof fn filter_shrinks(s: Seq<FileEntry>, dir: Seq<char>)
    ensures
        s.filter(|e: FileEntry| !under(e.path@, dir)).len() <= s.len(),
        s.filter(|e: FileEntry| !under(e.path@, dir)).len() < s.len() <==> exists|i: int|
            0 <= i < s.len() && under((#[trigger] s[i]).path@, dir),
    decreases s.len(),
{
    reveal(Seq::filter);
    if s.len() > 0 {
        let front = s.drop_last();
        filter_shrinks(front, dir);
        if exists|i: int| 0 <= i < front.len() && under((#[trigger] front[i]).path@, dir) {
            let i = choose|i: int| 0 <= i < front.len() && under((#[trigger] front[i]).path@, dir);
            assert(under(s[i].path@, dir));
        }
        if exists|i: int| 0 <= i < s.len() && under((#[trigger] s[i]).path@, dir) {
            let i = choose|i: int| 0 <= i < s.len() && under((#[trigger] s[i]).path@, dir);
            if i < front.len() {
                assert(under(front[i].path@, dir));
            }
        }
    }
}

/// Putting entries in, one after the other, keeps the index sound and
/// complete; paths that none of them has are mapped as before.
pub proof fn merge_law(st: IndexState, es: Seq<FileEntry>)
    requires
        st.sound(),
    ensures
        st.merged(es).sound(),
        st.merged(es).entries.len() <= st.entries.len() + es.len(),
        st.complete() ==> st.merged(es).complete(),
        forall|k: Seq<char>| !has_key(es, k) ==> #[trigger] st.merged(es).lookup(k) == st.lookup(k),
        forall|i: int|
            0 <= i < es.len() ==> (#[trigger] st.merged(es).lookup(es[i].key())) is Some,
    decreases es.len(),
{
    if es.len() > 0 {
        let front = es.drop_last();
        merge_law(st, front);
        let m = st.merged(front);
        insert_law(m, es.last());
        assert forall|k: Seq<char>| !has_key(es, k) implies #[trigger] st.merged(es).lookup(k)
            == st.lookup(k) by {
            assert(!has_key(front, k)) by {
                if has_key(front, k) {
                    let i = choose|i: int| 0 <= i < front.len() && (#[trigger] front[i]).key() == k;
                }
            }
        }
        assert forall|i: int| 0 <= i < es.len() implies (#[trigger] st.merged(es).lookup(
            es[i].key(),
        )) is Some by {
            if es[i].key() != es.last().key() {
                assert(m.lookup(front[i].key()) is Some);
            }
        }
    }
}

/// Taking paths out, one after the other, keeps the index sound and complete.
pub proof fn remove_all_law(st: IndexState, ks: Seq<Seq<char>>)
    requires
        st.sound(),
    ensures
        st.removed_all(ks).sound(),
        st.removed_all(ks).entries.len() <= st.entries.len(),
        st.complete() ==> st.removed_all(ks).complete(),
        st.complete() ==> forall|k: Seq<char>|
            #![trigger st.removed_all(ks).lookup(k)]
            st.removed_all(ks).lookup(k) == if ks.contains(k) {
                None
            } else {
                st.lookup(k)
            },
    decreases ks.len(),
{
    if ks.len() > 0 {
        let front = ks.drop_last();
        remove_all_law(st, front);
        let r = st.removed_all(front);
        remove_law(r, ks.last());
        if st.complete() {
            assert(ks =~= front.push(ks.last()));
            assert forall|k: Seq<char>|
                #![trigger st.removed_all(ks).lookup(k)]
                st.removed_all(ks).lookup(k) == if ks.contains(k) {
                    None
                } else {
                    st.lookup(k)
                } by {
                vstd::seq_lib::lemma_seq_contains_after_push(front, ks.last(), k);
                assert(r.lookup(k) == if front.contains(k) {
                    None
                } else {
                    st.lookup(k)
                });
            }
        }
    }
}

/// The stale keys are the keys of the stale entries.
pub proof fn stale_keys_contain(entries: Seq<FileEntry>, path: Seq<char>, live: Seq<FileEntry>)
    ensures
        forall|k: Seq<char>| #[trigger]
            stale_keys(entries, path, live).contains(k) <==> exists|i: int|
                0 <= i < entries.len() && is_stale(#[trigger] entries[i], path, live)
                    && entries[i].key() == k,
    decreases entries.len(),
{
    if entries.len() > 0 {
        let front = entries.drop_last();
        let last = entries.last();
        stale_keys_contain(front, path, live);
        let ks = stale_keys(front, path, live);
        assert forall|k: Seq<char>| #[trigger]
            stale_keys(entries, path, live).contains(k) <==> exists|i: int|
                0 <= i < entries.len() && is_stale(#[trigger] entries[i], path, live)
                    && entries[i].key() == k by {
            vstd::seq_lib::lemma_seq_contains_after_push(ks, last.key(), k);
            if ks.contains(k) {
                let i = choose|i: int|
                    0 <= i < front.len() && is_stale(#[trigger] front[i], path, live)
                        && front[i].key() == k;
            }
            if is_stale(last, path, live) && last.key() == k {
                assert(is_stale(entries[entries.len() - 1], path, live));
            }
            if exists|i: int|
                0 <= i < entries.len() && is_stale(#[trigger] entries[i], path, live)
                    && entries[i].key() == k {
                let i = choose|i: int|
                    0 <= i < entries.len() && is_stale(#[trigger] entries[i], path, live)
                        && entries[i].key() == k;
                if i < front.len() {
                    assert(is_stale(front[i], path, live));
                }
            }
        }
    }
}

/// Taking out a path that has vanished keeps the index sound and complete.
/// Where the path was known, nothing at or below it is left and everything
/// else is; where it was not, nothing changes.
pub proof fn vanished_law(st: IndexState, path: Seq<char>)
    requires
        st.sound(),
    ensures
        st.vanished(path).sound(),
        st.vanished(path).entries.len() <= st.entries.len(),
        st.complete() ==> st.vanished(path).complete(),
        st.complete() && st.pos.contains_key(path_key(path)) ==> forall|e: FileEntry| #[trigger]
            st.vanished(path).entries.contains(e) <==> st.entries.contains(e) && !under(
                e.path@,
                path,
            ),
        !st.pos.contains_key(path_key(path)) ==> st.vanished(path) == st,
{
    let k = path_key(path);
    if st.pos.contains_key(k) {
        let r = st.removed(k);
        remove_law(st, k);
        without_law(r, path);
        if st.complete() {
            complete_lookup(st);
            complete_lookup(r);
            assert forall|e: FileEntry| #[trigger] st.vanished(path).entries.contains(e) <==>
                st.entries.contains(e) && !under(e.path@, path) by {
                assert(r.without(path).entries.contains(e) <==> r.entries.contains(e) && !under(
                    e.path@,
                    path,
                ));
                assert(r.lookup(e.key()) == Some(e) <==> r.entries.contains(e));
                if e.key() == k {
                    same_key_same_path(e.path@, path);
                    assert(crate::paths::parts(path) =~= crate::paths::parts(e.path@).subrange(
                        0,
                        crate::paths::parts(path).len() as int,
                    ));
                }
            }
        }
    }
}

/// Another look at a path keeps the index sound and complete.
pub proof fn stat_keeps(st: IndexState, path: Seq<char>, found: Option<Found>)
    requires
        st.sound(),
    ensures
        after_stat(st, path, found).sound(),
        st.complete() ==> after_stat(st, path, found).complete(),
        found matches Some(f) ==> after_stat(st, path, found).entries.len() <= st.entries.len()
            + f.children@.len() + 1,
        found is None ==> after_stat(st, path, found).entries.len() <= st.entries.len(),
{
    match found {
        Some(f) => {
            insert_law(st, f.entry);
            if f.entry.is_dir {
                let a = st.inserted(f.entry);
                let ks = stale_keys(a.entries, path, f.children@);
                remove_all_law(a, ks);
                merge_law(a.removed_all(ks), f.children@);
            }
        },
        None => {
            vanished_law(st, path);
        },
    }
}

/// After another look at a folder a complete index holds below it exactly the
/// paths that are in it, and the folder itself.
pub proof fn stat_reflects_folder(st: IndexState, path: Seq<char>, f: Found, k: Seq<char>)
    requires
        st.complete(),
        f.entry.is_dir,
        f.entry.key() == path_key(path),
    ensures
        after_stat(st, path, Some(f)).lookup(path_key(path)) is Some,
        has_key(f.children@, k) ==> after_stat(st, path, Some(f)).lookup(k) is Some,
        after_stat(st, path, Some(f)).lookup(k) matches Some(e) ==> under(e.path@, path) ==> {
            same_path(e.path@, path) || has_key(f.children@, k)
        },
{
    insert_law(st, f.entry);
    let a = st.inserted(f.entry);
    let ks = stale_keys(a.entries, path, f.children@);
    remove_all_law(a, ks);
    let b = a.removed_all(ks);
    merge_law(b, f.children@);
    stale_keys_contain(a.entries, path, f.children@);
    let c = b.merged(f.children@);
    let pk = path_key(path);
    // The folder itself is never stale.
    assert(!ks.contains(pk)) by {
        if ks.contains(pk) {
            let i = choose|i: int|
                0 <= i < a.entries.len() && is_stale(#[trigger] a.entries[i], path, f.children@)
                    && a.entries[i].key() == pk;
            same_key_same_path(a.entries[i].path@, path);
        }
    }
    if has_key(f.children@, pk) {
        let i = choose|i: int| 0 <= i < f.children@.len() && (#[trigger] f.children@[i]).key() == pk;
    } else {
        assert(c.lookup(pk) == b.lookup(pk));
    }
    if has_key(f.children@, k) {
        let i = choose|i: int| 0 <= i < f.children@.len() && (#[trigger] f.children@[i]).key() == k;
    } else if c.lookup(k) is Some {
        let e = a.lookup(k).unwrap();
        let i = a.pos[k] as int;
        if under(e.path@, path) && !same_path(e.path@, path) {
            assert(is_stale(a.entries[i], path, f.children@));
        }
    }
}

/// Whether every entry of `t` was in `s` or satisfies `f`.
pub open spec fn adds_only(
    s: Seq<FileEntry>,
    t: Seq<FileEntry>,
    f: spec_fn(FileEntry) -> bool,
) -> bool {
    forall|e: FileEntry| #[trigger] t.contains(e) ==> s.contains(e) || f(e)
}

proof fn insert_adds(st: IndexState, e: FileEntry, f: spec_fn(FileEntry) -> bool)
    requires
        st.sound(),
        f(e),
    ensures
        adds_only(st.entries, st.inserted(e).entries, f),
{
    let t = st.inserted(e).entries;
    assert forall|x: FileEntry| #[trigger] t.contains(x) implies st.entries.contains(x) || f(x) by {
        let i = choose|i: int| 0 <= i < t.len() && t[i] == x;
        if x != e {
            assert(st.entries[i] == x);
        }
    }
}

proof fn merge_adds(st: IndexState, es: Seq<FileEntry>, f: spec_fn(FileEntry) -> bool)
    requires
        st.sound(),
        forall|i: int| 0 <= i < es.len() ==> f(#[trigger] es[i]),
    ensures
        adds_only(st.entries, st.merged(es).entries, f),
    decreases es.len(),
{
    if es.len() > 0 {
        let front = es.drop_last();
        assert forall|i: int| 0 <= i < front.len() implies f(#[trigger] front[i]) by {
            assert(front[i] == es[i]);
        }
        merge_adds(st, front, f);
        merge_law(st, front);
        insert_adds(st.merged(front), es.last(), f);
    }
}

proof fn remove_adds(st: IndexState, k: Seq<char>, f: spec_fn(FileEntry) -> bool)
    requires
        st.sound(),
    ensures
        adds_only(st.entries, st.removed(k).entries, f),
{
    let t = st.removed(k).entries;
    assert forall|x: FileEntry| #[trigger] t.contains(x) implies st.entries.contains(x) || f(x) by {
        let i = choose|i: int| 0 <= i < t.len() && t[i] == x;
        if st.pos.contains_key(k) && i == st.pos[k] {
            assert(st.entries[st.entries.len() - 1] == x);
        } else {
            assert(st.entries[i] == x);
        }
    }
}

proof fn remove_all_adds(st: IndexState, ks: Seq<Seq<char>>, f: spec_fn(FileEntry) -> bool)
    requires
        st.sound(),
    ensures
        adds_only(st.entries, st.removed_all(ks).entries, f),
    decreases ks.len(),
{
    if ks.len() > 0 {
        remove_all_adds(st, ks.drop_last(), f);
        remove_all_law(st, ks.drop_last());
        remove_adds(st.removed_all(ks.drop_last()), ks.last(), f);
    }
}

proof fn vanished_adds(st: IndexState, path: Seq<char>, f: spec_fn(FileEntry) -> bool)
    requires
        st.sound(),
    ensures
        adds_only(st.entries, st.vanished(path).entries, f),
{
    let k = path_key(path);
    if st.pos.contains_key(k) {
        let r = st.removed(k);
        remove_adds(st, k, f);
        let g = |e: FileEntry| !under(e.path@, path);
        r.entries.lemma_filter_len(g);
        let t = st.vanished(path).entries;
        assert forall|x: FileEntry| #[trigger] t.contains(x) implies st.entries.contains(x)
            || f(x) by {
            if r.entries.filter(g).len() < r.entries.len() {
                filter_subset(r.entries, g);
            }
        }
    }
}

proof fn filter_subset(s: Seq<FileEntry>, f: spec_fn(FileEntry) -> bool)
    ensures
        forall|e: FileEntry| #[trigger] s.filter(f).contains(e) ==> s.contains(e),
    decreases s.len(),
{
    reveal(Seq::filter);
    if s.len() > 0 {
        let front = s.drop_last();
        filter_subset(front, f);
        assert forall|e: FileEntry| #[trigger] s.filter(f).contains(e) implies s.contains(e) by {
            vstd::seq_lib::lemma_seq_contains_after_push(front, s.last(), e);
            vstd::seq_lib::lemma_seq_contains_after_push(front.filter(f), s.last(), e);
        }
    }
}

/// What was found at a path that the index of `root` covers is covered too.
pub open spec fn found_covered(root: Seq<char>, o: Observed) -> bool {
    !pruned_path(root, o.path@) ==> (o.found matches Some(f) ==> {
        &&& !pruned_path(root, f.entry.path@)
        &&& forall|i: int|
            0 <= i < f.children@.len() ==> !pruned_path(root, (#[trigger] f.children@[i]).path@)
    })
}

/// The number of entries that a batch can add.
pub open spec fn batch_size(seen: Seq<Observed>) -> nat
    decreases seen.len(),
{
    if seen.len() == 0 {
        0
    } else {
        batch_size(seen.drop_last()) + match seen.last().found {
            Some(f) => f.children@.len() + 1,
            None => 0,
        }
    }
}

/// A watched batch never brings in a path outside `root` or in a folder that
/// scans leave out; and it keeps the index sound and complete.
pub proof fn watch_batch_law(st: IndexState, root: Seq<char>, seen: Seq<Observed>)
    requires
        st.sound(),
        forall|i: int| 0 <= i < seen.len() ==> found_covered(root, #[trigger] seen[i]),
    ensures
        ({
            let a = after_watch_batch(st, root, seen);
            &&& a.state.sound()
            &&& st.complete() ==> a.state.complete()
            &&& a.state.entries.len() <= st.entries.len() + batch_size(seen)
            &&& a.upserted + a.removed <= seen.len()
            &&& adds_only(
                st.entries,
                a.state.entries,
                |e: FileEntry| !pruned_path(root, e.path@),
            )
        }),
    decreases seen.len(),
{
    let f = |e: FileEntry| !pruned_path(root, e.path@);
    if seen.len() > 0 {
        let front = seen.drop_last();
        assert forall|i: int| 0 <= i < front.len() implies found_covered(
            root,
            #[trigger] front[i],
        ) by {
            assert(front[i] == seen[i]);
        }
        watch_batch_law(st, root, front);
        let a = after_watch_batch(st, root, front).state;
        let o = seen.last();
        if !pruned_path(root, o.path@) {
            vanished_law(a, o.path@);
            vanished_adds(a, o.path@, f);
            if o.exists && o.found is Some {
                let x = o.found.unwrap();
                stat_keeps(a, o.path@, o.found);
                insert_law(a, x.entry);
                insert_adds(a, x.entry, f);
                if x.entry.is_dir {
                    let b = a.inserted(x.entry);
                    let ks = stale_keys(b.entries, o.path@, x.children@);
                    remove_all_law(b, ks);
                    remove_all_adds(b, ks, f);
                    merge_adds(b.removed_all(ks), x.children@, f);
                }
            }
        }
    }
}

} // verus!
