//! The numstat listing: NUL-delimited records `<added>\t<removed>\t<path>`,
//! kept as a table with one row per path.

use crate::text::{contains, count_of, has_substring, parse_count, split, split_on, texts,
    to_chars, to_text, trim, trimmed, Strip};
use vstd::prelude::*;

verus! {

/// One row of the table, as mathematical values.
pub ghost struct NumstatModel {
    pub path: Seq<char>,
    pub lines_added: nat,
    pub lines_removed: nat,
}

/// The line counts of one path.
#[derive(Debug)]
pub struct NumstatEntry {
    pub path: String,
    pub lines_added: u32,
    pub lines_removed: u32,
}

impl View for NumstatEntry {
    type V = NumstatModel;

    open spec fn view(&self) -> NumstatModel {
        NumstatModel {
            path: self.path@,
            lines_added: self.lines_added as nat,
            lines_removed: self.lines_removed as nat,
        }
    }
}

/// The views of a sequence of entries.
pub open spec fn entry_views(v: Seq<NumstatEntry>) -> Seq<NumstatModel> {
    Seq::new(v.len(), |i: int| v[i]@)
}

/// The first index at or after `from` whose row has the path `path`, or the
/// number of rows when there is none.
pub open spec fn exact_from(rows: Seq<NumstatModel>, path: Seq<char>, from: int) -> int
    decreases rows.len() - from,
{
    if from < 0 || from >= rows.len() {
        rows.len() as int
    } else if rows[from].path == path {
        from
    } else {
        exact_from(rows, path, from + 1)
    }
}

/// The path of `row` holds both `old` and `new` as substrings.
pub open spec fn overlaps(row: NumstatModel, old: Seq<char>, new: Seq<char>) -> bool {
    contains(row.path, old) && contains(row.path, new)
}

/// The first index at or after `from` whose row overlaps `old` and `new`, or
/// the number of rows when there is none.
pub open spec fn overlap_from(
    rows: Seq<NumstatModel>,
    old: Seq<char>,
    new: Seq<char>,
    from: int,
) -> int
    decreases rows.len() - from,
{
    if from < 0 || from >= rows.len() {
        rows.len() as int
    } else if overlaps(rows[from], old, new) {
        from
    } else {
        overlap_from(rows, old, new, from + 1)
    }
}

/// `exact_from` is the least index at or after `from` with that path.
pub proof fn lemma_exact_from(rows: Seq<NumstatModel>, path: Seq<char>, from: int)
    requires
        0 <= from <= rows.len(),
    ensures
        from <= exact_from(rows, path, from) <= rows.len(),
        forall|k: int| from <= k < exact_from(rows, path, from) ==> rows[k].path != path,
        exact_from(rows, path, from) < rows.len() ==> rows[exact_from(rows, path, from)].path
            == path,
    decreases rows.len() - from,
{
    if from < rows.len() && rows[from].path != path {
        lemma_exact_from(rows, path, from + 1);
    }
}

/// `overlap_from` is the least index at or after `from` whose row overlaps.
pub proof fn lemma_overlap_from(
    rows: Seq<NumstatModel>,
    old: Seq<char>,
    new: Seq<char>,
    from: int,
)
    requires
        0 <= from <= rows.len(),
    ensures
        from <= overlap_from(rows, old, new, from) <= rows.len(),
        forall|k: int|
            from <= k < overlap_from(rows, old, new, from) ==> !overlaps(rows[k], old, new),
        overlap_from(rows, old, new, from) < rows.len() ==> overlaps(
            rows[overlap_from(rows, old, new, from)],
            old,
            new,
        ),
    decreases rows.len() - from,
{
    if from < rows.len() && !overlaps(rows[from], old, new) {
        lemma_overlap_from(rows, old, new, from + 1);
    }
}

/// No two rows have the same path.
pub open spec fn distinct_paths(rows: Seq<NumstatModel>) -> bool {
    forall|i: int, j: int| 0 <= i < j < rows.len() ==> rows[i].path != rows[j].path
}

/// The table with `row` put in: it takes the place of the row with the same
/// path, or stands at the end when no row has that path.
pub open spec fn upsert(rows: Seq<NumstatModel>, row: NumstatModel) -> Seq<NumstatModel> {
    let i = exact_from(rows, row.path, 0);
    if i < rows.len() {
        rows.update(i, row)
    } else {
        rows.push(row)
    }
}

/// Putting a row in keeps the paths distinct.
pub proof fn lemma_upsert_distinct(rows: Seq<NumstatModel>, row: NumstatModel)
    requires
        distinct_paths(rows),
    ensures
        distinct_paths(upsert(rows, row)),
{
    lemma_exact_from(rows, row.path, 0);
}

/// What a numstat record says: three fields between tab characters, the
/// counts of added and of removed lines and the path. A record with another
/// number of fields says nothing.
pub open spec fn row_of(record: Seq<char>) -> Option<NumstatModel> {
    let fields = split(record, '\t');
    if fields.len() == 3 {
        Some(
            NumstatModel {
                path: fields[2],
                lines_added: count_of(fields[0]),
                lines_removed: count_of(fields[1]),
            },
        )
    } else {
        None
    }
}

/// The table that the records build, each put in in turn.
pub open spec fn table_of(records: Seq<Seq<char>>) -> Seq<NumstatModel>
    decreases records.len(),
{
    if records.len() == 0 {
        Seq::empty()
    } else {
        let before = table_of(records.drop_last());
        match row_of(records.last()) {
            Some(row) => upsert(before, row),
            None => before,
        }
    }
}

/// The records of a numstat listing: the listing without the NUL characters
/// at its two ends, cut at every NUL.
pub open spec fn records_of(listing: Seq<char>) -> Seq<Seq<char>> {
    split(trimmed(listing, Strip::Char('\0')), '\0')
}

/// The table of a numstat listing.
pub open spec fn numstat_of(listing: Seq<char>) -> Seq<NumstatModel> {
    table_of(records_of(listing))
}

/// The table of any records has distinct paths.
pub proof fn lemma_table_distinct(records: Seq<Seq<char>>)
    ensures
        distinct_paths(table_of(records)),
    decreases records.len(),
{
    if records.len() > 0 {
        lemma_table_distinct(records.drop_last());
        if let Some(row) = row_of(records.last()) {
            lemma_upsert_distinct(table_of(records.drop_last()), row);
        }
    }
}

/// An index at or after `from` that holds the path, with no such row between
/// `from` and it, is what `exact_from` gives; so is the number of rows when no
/// row from `from` on holds the path.
pub proof fn lemma_exact_from_is(rows: Seq<NumstatModel>, path: Seq<char>, from: int, i: int)
    requires
        0 <= from <= i <= rows.len(),
        forall|k: int| from <= k < i ==> rows[k].path != path,
        i < rows.len() ==> rows[i].path == path,
    ensures
        exact_from(rows, path, from) == i,
    decreases i - from,
{
    if from < i {
        lemma_exact_from_is(rows, path, from + 1, i);
    }
}

/// After a row is put in, the table holds it under its path, and holds under
/// every other path what it held before.
pub proof fn lemma_upsert_lookup(rows: Seq<NumstatModel>, row: NumstatModel, path: Seq<char>)
    ensures
        ({
            let after = upsert(rows, row);
            let i = exact_from(after, path, 0);
            let j = exact_from(rows, path, 0);
            if path == row.path {
                i < after.len() && after[i] == row
            } else {
                (i < after.len()) == (j < rows.len()) && (j < rows.len() ==> after[i] == rows[j])
            }
        }),
{
    let after = upsert(rows, row);
    let at = exact_from(rows, row.path, 0);
    let j = exact_from(rows, path, 0);
    lemma_exact_from(rows, row.path, 0);
    lemma_exact_from(rows, path, 0);
    if path == row.path {
        lemma_exact_from_is(after, path, 0, at);
    } else if j < rows.len() {
        lemma_exact_from_is(after, path, 0, j);
    } else {
        lemma_exact_from_is(after, path, 0, after.len() as int);
    }
}

/// The index of the last record before `upto` that says something of
/// `path`, or -1 when there is none.
pub open spec fn last_record_of(records: Seq<Seq<char>>, path: Seq<char>, upto: int) -> int
    decreases upto,
{
    if upto <= 0 || upto > records.len() {
        -1
    } else if row_of(records[upto - 1]) is Some && row_of(records[upto - 1]).unwrap().path
        == path {
        upto - 1
    } else {
        last_record_of(records, path, upto - 1)
    }
}

/// `last_record_of` gives a record before `upto` that says something of the
/// path, and records behind `upto` do not matter to it.
pub proof fn lemma_last_record_of(records: Seq<Seq<char>>, path: Seq<char>, upto: int)
    requires
        0 <= upto <= records.len(),
    ensures
        -1 <= last_record_of(records, path, upto) < upto,
        last_record_of(records, path, upto) >= 0 ==> row_of(
            records[last_record_of(records, path, upto)],
        ) is Some && row_of(records[last_record_of(records, path, upto)]).unwrap().path == path,
        last_record_of(records, path, upto) == last_record_of(records.take(upto), path, upto),
    decreases upto,
{
    if upto > 0 {
        lemma_last_record_of(records, path, upto - 1);
        lemma_last_record_of(records.take(upto), path, upto - 1);
        assert(records.take(upto).take(upto - 1) =~= records.take(upto - 1));
    }
}

/// The table is a map from paths to counts in which a later record of a path
/// replaces an earlier one: it holds a row for a path exactly when some
/// record says something of that path, and the row is what the last such
/// record says.
pub proof fn lemma_table_is_last_record(records: Seq<Seq<char>>, path: Seq<char>)
    ensures
        -1 <= last_record_of(records, path, records.len() as int) < records.len(),
        0 <= exact_from(table_of(records), path, 0) <= table_of(records).len(),
        (exact_from(table_of(records), path, 0) < table_of(records).len()) == (last_record_of(
            records,
            path,
            records.len() as int,
        ) >= 0),
        last_record_of(records, path, records.len() as int) >= 0 ==> Some(
            table_of(records)[exact_from(table_of(records), path, 0)],
        ) == row_of(records[last_record_of(records, path, records.len() as int)]),
    decreases records.len(),
{
    let n = records.len() as int;
    lemma_last_record_of(records, path, n);
    lemma_exact_from(table_of(records), path, 0);
    if n > 0 {
        let before = records.drop_last();
        assert(records.take(n - 1) =~= before);
        lemma_table_is_last_record(before, path);
        lemma_last_record_of(records, path, n - 1);
        let k_before = last_record_of(before, path, n - 1);
        assert(last_record_of(records, path, n - 1) == k_before);
        if k_before >= 0 {
            assert(before[k_before] == records[k_before]);
        }
        match row_of(records.last()) {
            Some(row) => {
                lemma_upsert_lookup(table_of(before), row, path);
                assert(table_of(records) == upsert(table_of(before), row));
            },
            None => {
                assert(table_of(records) == table_of(before));
            },
        }
    }
}

/// Line counts by path, one row per path, in the order in which the paths
/// first came.
pub struct NumstatTable {
    entries: Vec<NumstatEntry>,
}

impl View for NumstatTable {
    type V = Seq<NumstatModel>;

    closed spec fn view(&self) -> Seq<NumstatModel> {
        entry_views(self.entries@)
    }
}

impl NumstatTable {
    /// No two rows have the same path.
    pub open spec fn wf(&self) -> bool {
        distinct_paths(self@)
    }

    /// The empty table.
    pub fn new() -> (table: NumstatTable)
        ensures
            table@ == Seq::<NumstatModel>::empty(),
            table.wf(),
    {
        let table = NumstatTable { entries: Vec::new() };
        assert(table@ =~= Seq::<NumstatModel>::empty());
        table
    }

    /// The number of rows.
    pub fn len(&self) -> (n: usize)
        ensures
            n == self@.len(),
    {
        self.entries.len()
    }

    /// The index of the row with the path `path`.
    fn position(&self, path: &String) -> (i: usize)
        ensures
            i == exact_from(self@, path@, 0),
            i <= self@.len(),
    {
        let mut i: usize = 0;
        while i < self.entries.len()
            invariant
                i <= self.entries.len(),
                exact_from(self@, path@, 0) == exact_from(self@, path@, i as int),
            decreases self.entries.len() - i,
        {
            if self.entries[i].path == *path {
                return i;
            }
            i += 1;
        }
        i
    }

    /// Puts `entry` in: it takes the place of the row with the same path, or
    /// stands at the end when no row has that path.
    pub fn insert(&mut self, entry: NumstatEntry)
        ensures
            final(self)@ == upsert(old(self)@, entry@),
            old(self).wf() ==> final(self).wf(),
    {
        let i = self.position(&entry.path);
        proof {
            if self.wf() {
                lemma_upsert_distinct(self@, entry@);
            }
        }
        if i < self.entries.len() {
            self.entries.set(i, entry);
            assert(self@ =~= upsert(old(self)@, entry@));
        } else {
            self.entries.push(entry);
            assert(self@ =~= upsert(old(self)@, entry@));
        }
    }

    /// The counts of added and removed lines of the row with the path `path`.
    pub fn lookup(&self, path: &String) -> (counts: Option<(u32, u32)>)
        ensures
            match counts {
                Some((added, removed)) => {
                    let i = exact_from(self@, path@, 0);
                    &&& i < self@.len()
                    &&& added == self@[i].lines_added
                    &&& removed == self@[i].lines_removed
                },
                None => exact_from(self@, path@, 0) == self@.len(),
            },
    {
        let i = self.position(path);
        if i < self.entries.len() {
            Some((self.entries[i].lines_added, self.entries[i].lines_removed))
        } else {
            None
        }
    }

    /// The counts of the first row whose path holds both `old` and `new` as
    /// substrings.
    pub fn lookup_overlapping(&self, old: &String, new: &String) -> (counts: Option<(u32, u32)>)
        ensures
            match counts {
                Some((added, removed)) => {
                    let i = overlap_from(self@, old@, new@, 0);
                    &&& i < self@.len()
                    &&& added == self@[i].lines_added
                    &&& removed == self@[i].lines_removed
                },
                None => overlap_from(self@, old@, new@, 0) == self@.len(),
            },
    {
        let old_chars = to_chars(old.as_str());
        let new_chars = to_chars(new.as_str());
        let mut i: usize = 0;
        while i < self.entries.len()
            invariant
                i <= self.entries.len(),
                old_chars@ == old@,
                new_chars@ == new@,
                overlap_from(self@, old@, new@, 0) == overlap_from(self@, old@, new@, i as int),
            decreases self.entries.len() - i,
        {
            let path = to_chars(self.entries[i].path.as_str());
            if has_substring(&path, &old_chars) && has_substring(&path, &new_chars) {
                return Some((self.entries[i].lines_added, self.entries[i].lines_removed));
            }
            i += 1;
        }
        None
    }
}

/// Reads one numstat record.
pub fn parse_record(record: &Vec<char>) -> (entry: Option<NumstatEntry>)
    ensures
        match entry {
            Some(e) => row_of(record@) == Some(e@),
            None => row_of(record@) is None,
        },
{
    let fields = split_on(record, '\t');
    assert(texts(fields@).len() == fields@.len());
    if fields.len() == 3 {
        assert(texts(fields@)[0] == fields@[0]@);
        assert(texts(fields@)[1] == fields@[1]@);
        assert(texts(fields@)[2] == fields@[2]@);
        Some(
            NumstatEntry {
                path: to_text(&fields[2]),
                lines_added: parse_count(&fields[0]),
                lines_removed: parse_count(&fields[1]),
            },
        )
    } else {
        None
    }
}

/// Reads a numstat listing into a table. Counts that are no numbers, as for
/// binary files, are zero.
pub fn parse_numstat(listing: &str) -> (table: NumstatTable)
    ensures
        table@ == numstat_of(listing@),
        table.wf(),
{
    let text = to_chars(listing);
    let body = trim(&text, Strip::Char('\0'));
    let records = split_on(&body, '\0');
    let ghost all = texts(records@);
    let mut table = NumstatTable::new();
    let mut i: usize = 0;
    assert(all.take(0) =~= Seq::<Seq<char>>::empty());
    while i < records.len()
        invariant
            i <= records.len(),
            all == texts(records@),
            table@ == table_of(all.take(i as int)),
            table.wf(),
        decreases records.len() - i,
    {
        proof {
            assert(all.take(i + 1).drop_last() =~= all.take(i as int));
            assert(all.take(i + 1).last() == records@[i as int]@);
        }
        match parse_record(&records[i]) {
            Some(entry) => {
                table.insert(entry);
            },
            None => {},
        }
        i += 1;
    }
    proof {
        assert(all.take(records.len() as int) =~= all);
    }
    table
}

} // verus!
