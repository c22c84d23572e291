//! Saving the index to a table and loading it back.

use crate::index_model::unique_paths;
use crate::indexer::Index;
use crate::tree_laws::same_items;
use crate::types::{
    is_entry_of, is_row_of, row_round_trip, same_row, to_row, Entry, FileEntry, FileRow,
};
use crate::walk::entry_views;
use vstd::prelude::*;

verus! {

/// What is done to the table, one after the other.
#[derive(Debug)]
pub enum SaveStep {
    /// Every row is taken out.
    Clear,
    /// A row is put in, in place of the one with its path if there is one.
    Put(FileRow),
}

/// Whether the steps save these entries: the table is cleared, then each entry
/// put in.
pub open spec fn saves(steps: Seq<SaveStep>, entries: Seq<FileEntry>) -> bool {
    &&& steps.len() == entries.len() + 1
    &&& steps[0] is Clear
    &&& forall|i: int| 0 <= i < entries.len() ==> puts(#[trigger] steps[i + 1], entries[i])
}

/// Whether the step puts in the row of an entry.
pub open spec fn puts(step: SaveStep, e: FileEntry) -> bool {
    step matches SaveStep::Put(row) && is_row_of(row, e)
}

impl Index {
    /// What saves the index, whatever the table held before.
    pub fn save_steps(&self) -> (r: Vec<SaveStep>)
        ensures
            saves(r@, self@.entries),
    {
        let entries = self.entries();
        let mut steps: Vec<SaveStep> = Vec::new();
        steps.push(SaveStep::Clear);
        for i in 0..entries.len()
            invariant
                entries@ == self@.entries,
                steps@.len() == i + 1,
                steps@[0] is Clear,
                forall|j: int| 0 <= j < i ==> puts(#[trigger] steps@[j + 1], entries@[j]),
        {
            steps.push(SaveStep::Put(to_row(&entries[i])));
        }
        steps
    }
}

/// A table: its rows by their paths.
pub type Table = Map<Seq<char>, FileRow>;

/// The table after one step.
pub open spec fn stepped_table(t: Table, step: SaveStep) -> Table {
    match step {
        SaveStep::Clear => Map::empty(),
        SaveStep::Put(row) => t.insert(row.path@, row),
    }
}

/// The table after all steps.
pub open spec fn table_after(t: Table, steps: Seq<SaveStep>) -> Table
    decreases steps.len(),
{
    if steps.len() == 0 {
        t
    } else {
        stepped_table(table_after(t, steps.drop_last()), steps.last())
    }
}

/// Whether one of the entries has the path `p`, letter for letter.
pub open spec fn has_path(entries: Seq<FileEntry>, p: Seq<char>) -> bool {
    exists|i: int| 0 <= i < entries.len() && (#[trigger] entries[i]).path@ == p
}

/// After a save the table holds a row for each entry and nothing else,
/// whatever it held before.
pub proof fn saved_table_is_the_index(before: Table, steps: Seq<SaveStep>, saved: Seq<FileEntry>)
    requires
        saves(steps, saved),
        unique_paths(saved),
    ensures
        forall|p: Seq<char>| #[trigger]
            table_after(before, steps).contains_key(p) <==> has_path(saved, p),
        forall|i: int|
            0 <= i < saved.len() ==> is_row_of(
                table_after(before, steps)[(#[trigger] saved[i]).path@],
                saved[i],
            ),
    decreases saved.len(),
{
    let t = table_after(before, steps);
    if saved.len() == 0 {
        assert(steps.drop_last() =~= Seq::empty());
        assert(t =~= Map::empty());
    } else {
        let front = saved.drop_last();
        let n = saved.len() - 1;
        let part = steps.drop_last();
        assert forall|i: int| 0 <= i < front.len() implies puts(
            #[trigger] part[i + 1],
            front[i],
        ) by {
            assert(puts(steps[i + 1], saved[i]));
        }
        assert forall|i: int, j: int| 0 <= i < j < front.len() implies (#[trigger] front[i]).key()
            != (#[trigger] front[j]).key() by {
            assert(saved[i].key() != saved[j].key());
        }
        saved_table_is_the_index(before, part, front);
        assert(puts(steps[n + 1], saved[n]));
        let was = table_after(before, part);
        let last = saved[n].path@;
        assert forall|p: Seq<char>| #[trigger] t.contains_key(p) <==> has_path(saved, p) by {
            assert(was.contains_key(p) <==> has_path(front, p));
            if has_path(front, p) {
                let i = choose|i: int| 0 <= i < front.len() && (#[trigger] front[i]).path@ == p;
                assert(saved[i].path@ == p);
            }
            if p == last {
                assert(saved[n].path@ == p);
            }
            if has_path(saved, p) {
                let i = choose|i: int| 0 <= i < saved.len() && (#[trigger] saved[i]).path@ == p;
                if i < n {
                    assert(front[i].path@ == p);
                }
            }
        }
        assert forall|i: int| 0 <= i < saved.len() implies is_row_of(
            t[(#[trigger] saved[i]).path@],
            saved[i],
        ) by {
            if i < n {
                assert(saved[i].key() != saved[n].key());
                assert(is_row_of(was[front[i].path@], front[i]));
            }
        }
    }
}

/// Whether `read` is all rows of the table, each once, in any order.
pub open spec fn reads(read: Seq<FileRow>, t: Table) -> bool {
    &&& forall|i: int, j: int|
        0 <= i < j < read.len() ==> (#[trigger] read[i]).path@ != (#[trigger] read[j]).path@
    &&& forall|i: int|
        0 <= i < read.len() ==> t.contains_key((#[trigger] read[i]).path@) && same_row(
            read[i],
            t[read[i].path@],
        )
    &&& forall|p: Seq<char>| #[trigger]
        t.contains_key(p) ==> exists|i: int| 0 <= i < read.len() && (#[trigger] read[i]).path@ == p
}

/// An index that was saved and loaded holds the same entries with all their
/// fields, each once, in whatever order the table gives them back; nothing is
/// left of what the table held before.
pub proof fn saved_index_loads_back(
    before: Table,
    steps: Seq<SaveStep>,
    saved: Seq<FileEntry>,
    read: Seq<FileRow>,
    loaded: Seq<FileEntry>,
)
    requires
        saves(steps, saved),
        unique_paths(saved),
        reads(read, table_after(before, steps)),
        loaded.len() == read.len(),
        forall|i: int| 0 <= i < read.len() ==> is_entry_of(#[trigger] loaded[i], read[i]),
    ensures
        entry_views(loaded).to_multiset() == entry_views(saved).to_multiset(),
        loaded.len() == saved.len(),
{
    let t = table_after(before, steps);
    let a = entry_views(loaded);
    let b = entry_views(saved);
    saved_table_is_the_index(before, steps, saved);
    // Every loaded entry is a saved one.
    assert forall|j: int| 0 <= j < loaded.len() implies b.contains(#[trigger] a[j]) by {
        let p = read[j].path@;
        assert(is_entry_of(loaded[j], read[j]));
        assert(t.contains_key(p));
        let i = choose|i: int| 0 <= i < saved.len() && (#[trigger] saved[i]).path@ == p;
        assert(is_row_of(t[saved[i].path@], saved[i]));
        row_round_trip(saved[i], read[j], loaded[j]);
        assert(b[i] == a[j]);
    }
    // Every saved entry is loaded.
    assert forall|i: int| 0 <= i < saved.len() implies a.contains(#[trigger] b[i]) by {
        let p = saved[i].path@;
        assert(has_path(saved, p));
        assert(t.contains_key(p));
        let j = choose|j: int| 0 <= j < read.len() && (#[trigger] read[j]).path@ == p;
        assert(is_entry_of(loaded[j], read[j]));
        assert(is_row_of(t[saved[i].path@], saved[i]));
        row_round_trip(saved[i], read[j], loaded[j]);
        assert(a[j] == b[i]);
    }
    assert(a.no_duplicates()) by {
        assert forall|i: int, j: int| 0 <= i < j < a.len() implies a[i] != a[j] by {
            assert(is_entry_of(loaded[i], read[i]) && is_entry_of(loaded[j], read[j]));
            assert(read[i].path@ != read[j].path@);
        }
    }
    assert(b.no_duplicates()) by {
        assert forall|i: int, j: int| 0 <= i < j < b.len() implies b[i] != b[j] by {
            assert(saved[i].key() != saved[j].key());
        }
    }
    assert forall|x: Entry| a.contains(x) <==> b.contains(x) by {
        if a.contains(x) {
            let j = choose|j: int| 0 <= j < a.len() && a[j] == x;
            assert(b.contains(a[j]));
        }
        if b.contains(x) {
            let i = choose|i: int| 0 <= i < b.len() && b[i] == x;
            assert(a.contains(b[i]));
        }
    }
    same_items(a, b);
}

} // verus!
