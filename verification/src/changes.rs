//! Reconciliation of the two listings of one change set: the name-status
//! listing says what happened to each file, the numstat listing how many
//! lines it gained and lost.

use crate::numstat::{exact_from, numstat_of, overlap_from, parse_numstat, NumstatModel,
    NumstatTable};
use crate::text::{item_or_empty, item_text, split, split_on, texts, to_chars, to_text, trim,
    trimmed, Strip};
use vstd::prelude::*;

verus! {

/// The text that stands in place of a diff.
pub const DIFF_PLACEHOLDER: &'static str = "Diff not implemented";

/// The characters of `DIFF_PLACEHOLDER`.
pub open spec fn diff_placeholder() -> Seq<char> {
    DIFF_PLACEHOLDER@
}

/// What happened to a file, as a mathematical value.
pub ghost enum StatusModel {
    Added,
    Deleted,
    Modified,
    Renamed { old_path: Seq<char> },
    Copied { old_path: Seq<char> },
    Unknown,
}

/// What happened to a file. A renamed or copied file carries the path it
/// came from.
#[derive(Debug)]
pub enum ChangeStatus {
    Added,
    Deleted,
    Modified,
    Renamed { old_path: String },
    Copied { old_path: String },
    Unknown,
}

impl View for ChangeStatus {
    type V = StatusModel;

    open spec fn view(&self) -> StatusModel {
        match self {
            ChangeStatus::Added => StatusModel::Added,
            ChangeStatus::Deleted => StatusModel::Deleted,
            ChangeStatus::Modified => StatusModel::Modified,
            ChangeStatus::Renamed { old_path } => StatusModel::Renamed { old_path: old_path@ },
            ChangeStatus::Copied { old_path } => StatusModel::Copied { old_path: old_path@ },
            ChangeStatus::Unknown => StatusModel::Unknown,
        }
    }
}

/// The name of a status.
pub open spec fn label_of(status: StatusModel) -> Seq<char> {
    match status {
        StatusModel::Added => "Added"@,
        StatusModel::Deleted => "Deleted"@,
        StatusModel::Modified => "Modified"@,
        StatusModel::Renamed { .. } => "Renamed"@,
        StatusModel::Copied { .. } => "Copied"@,
        StatusModel::Unknown => "Unknown"@,
    }
}

impl ChangeStatus {
    /// The name of the status.
    pub fn label(&self) -> (name: String)
        ensures
            name@ == label_of(self@),
    {
        match self {
            ChangeStatus::Added => "Added".to_owned(),
            ChangeStatus::Deleted => "Deleted".to_owned(),
            ChangeStatus::Modified => "Modified".to_owned(),
            ChangeStatus::Renamed { .. } => "Renamed".to_owned(),
            ChangeStatus::Copied { .. } => "Copied".to_owned(),
            ChangeStatus::Unknown => "Unknown".to_owned(),
        }
    }

    /// The path that a renamed or copied file came from.
    pub fn old_path(&self) -> (path: Option<&String>)
        ensures
            match path {
                Some(p) => (self@ == StatusModel::Renamed { old_path: p@ }) || (self@
                    == StatusModel::Copied { old_path: p@ }),
                None => !(self@ is Renamed) && !(self@ is Copied),
            },
    {
        match self {
            ChangeStatus::Renamed { old_path } => Some(old_path),
            ChangeStatus::Copied { old_path } => Some(old_path),
            _ => None,
        }
    }

    /// A copy of the status.
    pub fn duplicate(&self) -> (copy: ChangeStatus)
        ensures
            copy@ == self@,
    {
        match self {
            ChangeStatus::Added => ChangeStatus::Added,
            ChangeStatus::Deleted => ChangeStatus::Deleted,
            ChangeStatus::Modified => ChangeStatus::Modified,
            ChangeStatus::Renamed { old_path } => ChangeStatus::Renamed {
                old_path: old_path.clone(),
            },
            ChangeStatus::Copied { old_path } => ChangeStatus::Copied {
                old_path: old_path.clone(),
            },
            ChangeStatus::Unknown => ChangeStatus::Unknown,
        }
    }
}

/// One entry of the name-status listing, as mathematical values.
pub ghost struct StatusEntryModel {
    pub status: StatusModel,
    pub path: Seq<char>,
}

/// One entry of the name-status listing: what happened, and to which path.
#[derive(Debug)]
pub struct StatusEntry {
    pub status: ChangeStatus,
    /// The current path of the file; never empty in a parsed entry.
    pub path: String,
}

impl View for StatusEntry {
    type V = StatusEntryModel;

    open spec fn view(&self) -> StatusEntryModel {
        StatusEntryModel { status: self.status@, path: self.path@ }
    }
}

/// The views of a sequence of status entries.
pub open spec fn status_views(v: Seq<StatusEntry>) -> Seq<StatusEntryModel> {
    Seq::new(v.len(), |i: int| v[i]@)
}

/// The status code announces a rename.
pub open spec fn is_rename_code(code: Seq<char>) -> bool {
    code.len() > 0 && code[0] == 'R'
}

/// The status code announces a copy.
pub open spec fn is_copy_code(code: Seq<char>) -> bool {
    code.len() > 0 && code[0] == 'C'
}

/// The status that a code other than rename and copy stands for.
pub open spec fn plain_status(code: Seq<char>) -> StatusModel {
    if code == seq!['A'] {
        StatusModel::Added
    } else if code == seq!['D'] {
        StatusModel::Deleted
    } else if code == seq!['M'] {
        StatusModel::Modified
    } else {
        StatusModel::Unknown
    }
}

/// The number of tokens that the token at `from` takes up, itself included:
/// an empty token stands alone; a rename or copy code is followed by the old
/// and the new path; any other code is followed by one path.
pub open spec fn width_at(tokens: Seq<Seq<char>>, from: int) -> int {
    let code = item_or_empty(tokens, from);
    if code.len() == 0 {
        1
    } else if is_rename_code(code) || is_copy_code(code) {
        3
    } else {
        2
    }
}

/// The entry that the status code at `from` opens, if it opens one. An empty
/// token opens none, and neither does a code whose path is empty or missing.
pub open spec fn entry_at(tokens: Seq<Seq<char>>, from: int) -> Option<StatusEntryModel> {
    let code = item_or_empty(tokens, from);
    let path = item_or_empty(tokens, from + width_at(tokens, from) - 1);
    if code.len() == 0 || path.len() == 0 {
        None
    } else if is_rename_code(code) {
        Some(
            StatusEntryModel {
                status: StatusModel::Renamed { old_path: item_or_empty(tokens, from + 1) },
                path,
            },
        )
    } else if is_copy_code(code) {
        Some(
            StatusEntryModel {
                status: StatusModel::Copied { old_path: item_or_empty(tokens, from + 1) },
                path,
            },
        )
    } else {
        Some(StatusEntryModel { status: plain_status(code), path })
    }
}

/// The entries that the tokens from index `from` on hold.
pub open spec fn entries_from(tokens: Seq<Seq<char>>, from: int) -> Seq<StatusEntryModel>
    decreases tokens.len() + 3 - from,
{
    if from < 0 || from >= tokens.len() {
        Seq::empty()
    } else {
        let rest = entries_from(tokens, from + width_at(tokens, from));
        match entry_at(tokens, from) {
            Some(entry) => seq![entry] + rest,
            None => rest,
        }
    }
}

/// The tokens of a name-status listing: the listing without the NUL
/// characters at its two ends, cut at every NUL.
pub open spec fn tokens_of(listing: Seq<char>) -> Seq<Seq<char>> {
    split(trimmed(listing, Strip::Char('\0')), '\0')
}

/// The entries of a name-status listing.
pub open spec fn status_entries(listing: Seq<char>) -> Seq<StatusEntryModel> {
    entries_from(tokens_of(listing), 0)
}

/// The status that a code other than rename and copy stands for.
fn plain_status_of(code: &Vec<char>) -> (status: ChangeStatus)
    ensures
        status@ == plain_status(code@),
{
    if code.len() == 1 {
        let c: char = code[0];
        assert(code@ =~= seq![c]);
        if c == 'A' {
            ChangeStatus::Added
        } else if c == 'D' {
            assert(seq!['D'][0] != seq!['A'][0]);
            ChangeStatus::Deleted
        } else if c == 'M' {
            assert(seq!['M'][0] != seq!['A'][0]);
            assert(seq!['M'][0] != seq!['D'][0]);
            ChangeStatus::Modified
        } else {
            assert(seq![c][0] != seq!['A'][0]);
            assert(seq![c][0] != seq!['D'][0]);
            assert(seq![c][0] != seq!['M'][0]);
            ChangeStatus::Unknown
        }
    } else {
        assert(seq!['A'].len() == 1 && seq!['D'].len() == 1 && seq!['M'].len() == 1);
        ChangeStatus::Unknown
    }
}

/// Reads the entries out of the tokens of a name-status listing.
pub fn parse_tokens(tokens: &Vec<Vec<char>>) -> (entries: Vec<StatusEntry>)
    ensures
        status_views(entries@) == entries_from(texts(tokens@), 0),
{
    let n: usize = tokens.len();
    let ghost all = texts(tokens@);
    let mut entries: Vec<StatusEntry> = Vec::new();
    let mut i: usize = 0;
    assert(status_views(entries@) + entries_from(all, 0) =~= entries_from(all, 0));
    while i < n
        invariant
            n == tokens.len(),
            i <= n,
            all == texts(tokens@),
            status_views(entries@) + entries_from(all, i as int) == entries_from(all, 0),
        decreases n - i,
    {
        let code = &tokens[i];
        assert(all[i as int] == code@);
        let width: usize = if code.len() == 0 {
            1
        } else if code[0] == 'R' || code[0] == 'C' {
            3
        } else {
            2
        };
        assert(width == width_at(all, i as int));
        let ghost before = status_views(entries@);
        let ghost rest = entries_from(all, i + width);
        if code.len() > 0 && n - i >= width {
            let last = &tokens[i + width - 1];
            assert(all[i + width - 1] == last@);
            if last.len() > 0 {
                let path = to_text(last);
                let status = if code[0] == 'R' {
                    ChangeStatus::Renamed { old_path: item_text(tokens, i + 1) }
                } else if code[0] == 'C' {
                    ChangeStatus::Copied { old_path: item_text(tokens, i + 1) }
                } else {
                    plain_status_of(code)
                };
                let entry = StatusEntry { status, path };
                proof {
                    assert(entry_at(all, i as int) == Some(entry@));
                    assert(status_views(entries@.push(entry)) =~= before.push(entry@));
                    assert(before.push(entry@) + rest =~= before + (seq![entry@] + rest));
                }
                entries.push(entry);
            }
        }
        if n - i <= width {
            proof {
                assert(entries_from(all, i + width) =~= Seq::<StatusEntryModel>::empty());
                assert(entries_from(all, n as int) =~= Seq::<StatusEntryModel>::empty());
            }
            i = n;
        } else {
            i += width;
        }
    }
    proof {
        assert(entries_from(all, n as int) =~= Seq::<StatusEntryModel>::empty());
        assert(status_views(entries@) + Seq::<StatusEntryModel>::empty() =~= status_views(
            entries@,
        ));
    }
    entries
}

/// Reads a name-status listing.
pub fn parse_name_status(listing: &str) -> (entries: Vec<StatusEntry>)
    ensures
        status_views(entries@) == status_entries(listing@),
{
    let text = to_chars(listing);
    let body = trim(&text, Strip::Char('\0'));
    let tokens = split_on(&body, '\0');
    parse_tokens(&tokens)
}

// ---------------------------------------------------------------------
// Change records
// ---------------------------------------------------------------------

/// One change record, as mathematical values.
pub ghost struct ChangeModel {
    pub file_path: Seq<char>,
    pub status: StatusModel,
    pub lines_added: nat,
    pub lines_removed: nat,
    pub diff_snippet: Seq<char>,
}

/// What a commit did to one file.
#[derive(Debug)]
pub struct FileChange {
    /// The current path of the file; never empty in a reconciled record.
    pub file_path: String,
    pub status: ChangeStatus,
    pub lines_added: u32,
    pub lines_removed: u32,
    /// Always `DIFF_PLACEHOLDER`: no diff is extracted.
    pub diff_snippet: String,
}

impl View for FileChange {
    type V = ChangeModel;

    open spec fn view(&self) -> ChangeModel {
        ChangeModel {
            file_path: self.file_path@,
            status: self.status@,
            lines_added: self.lines_added as nat,
            lines_removed: self.lines_removed as nat,
            diff_snippet: self.diff_snippet@,
        }
    }
}

/// The views of a sequence of change records.
pub open spec fn change_views(v: Seq<FileChange>) -> Seq<ChangeModel> {
    Seq::new(v.len(), |i: int| v[i]@)
}

/// The record has a path and the placeholder in place of a diff.
pub open spec fn well_formed_change(change: ChangeModel) -> bool {
    change.file_path.len() > 0 && change.diff_snippet == diff_placeholder()
}

/// The counts of added and removed lines of an entry. They are those of the
/// row with the entry's path. Without such a row, a renamed file has the
/// counts of the first row whose path holds both its old and its new path as
/// substrings; this is a test on substrings, not on paths, and may pick a row
/// of another file. Otherwise the counts are zero.
pub open spec fn counts_for(rows: Seq<NumstatModel>, entry: StatusEntryModel) -> (nat, nat) {
    let i = exact_from(rows, entry.path, 0);
    if i < rows.len() {
        (rows[i].lines_added, rows[i].lines_removed)
    } else {
        match entry.status {
            StatusModel::Renamed { old_path } => {
                let k = overlap_from(rows, old_path, entry.path, 0);
                if k < rows.len() {
                    (rows[k].lines_added, rows[k].lines_removed)
                } else {
                    (0, 0)
                }
            },
            _ => (0, 0),
        }
    }
}

/// The change record of an entry.
pub open spec fn change_for(rows: Seq<NumstatModel>, entry: StatusEntryModel) -> ChangeModel {
    ChangeModel {
        file_path: entry.path,
        status: entry.status,
        lines_added: counts_for(rows, entry).0,
        lines_removed: counts_for(rows, entry).1,
        diff_snippet: diff_placeholder(),
    }
}

/// One change record for each entry, in the order of the entries.
pub open spec fn reconciled(entries: Seq<StatusEntryModel>, rows: Seq<NumstatModel>) -> Seq<
    ChangeModel,
> {
    Seq::new(entries.len(), |i: int| change_for(rows, entries[i]))
}

/// The change records of a commit, from its two listings.
pub open spec fn changes_of(name_status: Seq<char>, numstat: Seq<char>) -> Seq<ChangeModel> {
    reconciled(status_entries(name_status), numstat_of(numstat))
}

/// The counts of added and removed lines of an entry.
pub fn counts_of_entry(table: &NumstatTable, entry: &StatusEntry) -> (counts: (u32, u32))
    ensures
        counts.0 == counts_for(table@, entry@).0,
        counts.1 == counts_for(table@, entry@).1,
{
    match table.lookup(&entry.path) {
        Some(found) => found,
        None => match &entry.status {
            ChangeStatus::Renamed { old_path } => {
                match table.lookup_overlapping(old_path, &entry.path) {
                    Some(found) => found,
                    None => (0, 0),
                }
            },
            _ => (0, 0),
        },
    }
}

/// Merges the entries of the name-status listing with the table of the
/// numstat listing: one change record for each entry.
pub fn reconcile(entries: &Vec<StatusEntry>, table: &NumstatTable) -> (changes: Vec<FileChange>)
    ensures
        change_views(changes@) == reconciled(status_views(entries@), table@),
{
    let mut changes: Vec<FileChange> = Vec::new();
    let mut i: usize = 0;
    while i < entries.len()
        invariant
            i <= entries.len(),
            changes@.len() == i,
            forall|k: int|
                0 <= k < i ==> (#[trigger] changes@[k])@ == change_for(table@, entries@[k]@),
        decreases entries.len() - i,
    {
        let entry = &entries[i];
        let counts = counts_of_entry(table, entry);
        let change = FileChange {
            file_path: entry.path.clone(),
            status: entry.status.duplicate(),
            lines_added: counts.0,
            lines_removed: counts.1,
            diff_snippet: DIFF_PLACEHOLDER.to_owned(),
        };
        changes.push(change);
        i += 1;
    }
    assert(change_views(changes@) =~= reconciled(status_views(entries@), table@));
    changes
}

/// The change records of a commit, from its name-status listing and its
/// numstat listing.
pub fn reconcile_changes(name_status: &str, numstat: &str) -> (changes: Vec<FileChange>)
    ensures
        change_views(changes@) == changes_of(name_status@, numstat@),
        forall|k: int| 0 <= k < changes@.len() ==> well_formed_change(#[trigger] changes@[k]@),
{
    let table = parse_numstat(numstat);
    let entries = parse_name_status(name_status);
    let changes = reconcile(&entries, &table);
    proof {
        lemma_changes_well_formed(name_status@, numstat@);
        assert forall|k: int| 0 <= k < changes@.len() implies well_formed_change(
            #[trigger] changes@[k]@,
        ) by {
            assert(change_views(changes@)[k] == changes@[k]@);
        }
    }
    changes
}

// ---------------------------------------------------------------------
// What holds of every entry and every record
// ---------------------------------------------------------------------

/// The index of the status code that opened each entry of
/// `entries_from(tokens, from)`.
pub open spec fn origins_from(tokens: Seq<Seq<char>>, from: int) -> Seq<int>
    decreases tokens.len() + 3 - from,
{
    if from < 0 || from >= tokens.len() {
        Seq::empty()
    } else {
        let rest = origins_from(tokens, from + width_at(tokens, from));
        match entry_at(tokens, from) {
            Some(_) => seq![from] + rest,
            None => rest,
        }
    }
}

/// Each entry comes from a status code of its own and from the tokens that
/// the code takes up. A renamed or copied entry took up three tokens, the
/// code, the old path that it carries and the new path; any other entry took
/// up two, the code and the path. Its path is not empty, and the next entry's
/// code stands behind the tokens that this one took up.
pub proof fn lemma_entries_consume(tokens: Seq<Seq<char>>, from: int)
    requires
        0 <= from,
    ensures
        origins_from(tokens, from).len() == entries_from(tokens, from).len(),
        forall|j: int|
            #![trigger entries_from(tokens, from)[j]]
            0 <= j < entries_from(tokens, from).len() ==> {
                let entry = entries_from(tokens, from)[j];
                let at = origins_from(tokens, from)[j];
                let width = width_at(tokens, at);
                &&& from <= at
                &&& at + width <= tokens.len()
                &&& entry_at(tokens, at) == Some(entry)
                &&& entry.path == tokens[at + width - 1]
                &&& entry.path.len() > 0
                &&& match entry.status {
                    StatusModel::Renamed { old_path } => width == 3 && old_path == tokens[at + 1],
                    StatusModel::Copied { old_path } => width == 3 && old_path == tokens[at + 1],
                    _ => width == 2,
                }
                &&& j + 1 < entries_from(tokens, from).len() ==> at + width <= origins_from(
                    tokens,
                    from,
                )[j + 1]
            },
    decreases tokens.len() + 3 - from,
{
    if from < tokens.len() {
        let width = width_at(tokens, from);
        lemma_entries_consume(tokens, from + width);
        let rest = entries_from(tokens, from + width);
        let rest_at = origins_from(tokens, from + width);
        match entry_at(tokens, from) {
            Some(entry) => {
                assert forall|j: int|
                    #![trigger entries_from(tokens, from)[j]]
                    1 <= j < entries_from(tokens, from).len() implies entries_from(
                    tokens,
                    from,
                )[j] == rest[j - 1] && origins_from(tokens, from)[j] == rest_at[j - 1] by {}
                assert(entries_from(tokens, from)[0] == entry);
                assert(origins_from(tokens, from)[0] == from);
                if rest.len() > 0 {
                    assert(entries_from(tokens, from)[1] == rest[0]);
                }
            },
            None => {},
        }
    }
}

/// Every entry of a name-status listing has a path that is not empty.
pub proof fn lemma_entries_have_paths(tokens: Seq<Seq<char>>, from: int)
    requires
        0 <= from,
    ensures
        forall|j: int|
            0 <= j < entries_from(tokens, from).len() ==> (#[trigger] entries_from(
                tokens,
                from,
            )[j]).path.len() > 0,
{
    lemma_entries_consume(tokens, from);
}

/// Every change record of a commit has a path that is not empty and the
/// placeholder in place of a diff, and there is one record for each entry of
/// the name-status listing.
pub proof fn lemma_changes_well_formed(name_status: Seq<char>, numstat: Seq<char>)
    ensures
        changes_of(name_status, numstat).len() == status_entries(name_status).len(),
        forall|k: int|
            0 <= k < changes_of(name_status, numstat).len() ==> well_formed_change(
                #[trigger] changes_of(name_status, numstat)[k],
            ),
{
    lemma_entries_have_paths(tokens_of(name_status), 0);
}

} // verus!
