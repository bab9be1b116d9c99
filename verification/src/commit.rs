//! The full record of one commit, put together from the framed buffer and
//! the listings of tags and branches.

use crate::changes::{change_views, changes_of, reconcile_changes, well_formed_change,
    ChangeModel, FileChange};
use crate::framing::{end_marker, sections, split_framed, start_marker, Sections, SectionsModel};
use crate::metadata::{extract_block, metadata_block, metadata_of, parse_metadata, MetadataModel};
use crate::references::{collect_branches, collect_tags, names_of, reference_views, tags_of,
    Reference, ReferenceModel};
use crate::stats::{aggregate_stats, stats_of, CommitStats, StatsModel};
use crate::text::{contains, lemma_find, string_views};
use vstd::prelude::*;

verus! {

/// The record of one commit, as mathematical values.
pub ghost struct DetailsModel {
    pub metadata: MetadataModel,
    pub repository_name: Seq<char>,
    pub repository_path: Seq<char>,
    pub references: Seq<ReferenceModel>,
    pub branches_on_commit: Seq<Seq<char>>,
    pub stats: StatsModel,
    pub file_changes: Seq<ChangeModel>,
}

/// The record of one commit.
#[derive(Debug)]
pub struct CommitDetails {
    pub hash_short: String,
    pub hash_full: String,
    pub repository_name: String,
    pub repository_path: String,
    pub author_name: String,
    pub author_email: String,
    pub committer_name: String,
    pub committer_email: String,
    pub committer_date: String,
    pub message_title: String,
    pub message_body: String,
    /// The tags that contain the commit.
    pub references: Vec<Reference>,
    /// The branches that contain the commit.
    pub branches_on_commit: Vec<String>,
    /// The totals of `file_changes`.
    pub stats: CommitStats,
    pub file_changes: Vec<FileChange>,
}

impl View for CommitDetails {
    type V = DetailsModel;

    open spec fn view(&self) -> DetailsModel {
        DetailsModel {
            metadata: MetadataModel {
                hash_short: self.hash_short@,
                hash_full: self.hash_full@,
                author_name: self.author_name@,
                author_email: self.author_email@,
                committer_name: self.committer_name@,
                committer_email: self.committer_email@,
                committer_date: self.committer_date@,
                message_title: self.message_title@,
                message_body: self.message_body@,
            },
            repository_name: self.repository_name@,
            repository_path: self.repository_path@,
            references: reference_views(self.references@),
            branches_on_commit: string_views(self.branches_on_commit@),
            stats: self.stats@,
            file_changes: change_views(self.file_changes@),
        }
    }
}

/// The totals are those of the change records, and every change record has a
/// path and the placeholder in place of a diff.
pub open spec fn consistent(details: DetailsModel) -> bool {
    &&& details.stats == stats_of(details.file_changes)
    &&& forall|k: int|
        0 <= k < details.file_changes.len() ==> well_formed_change(
            #[trigger] details.file_changes[k],
        )
}

impl CommitDetails {
    /// The record is consistent: see `consistent`.
    pub open spec fn wf(&self) -> bool {
        consistent(self@)
    }
}

/// The record of the commit whose three sections are `parts`, in the
/// repository `repository_name` at `repository_path`, with the listings of
/// the tags and of the branches that contain it.
pub open spec fn details_of_sections(
    repository_name: Seq<char>,
    repository_path: Seq<char>,
    parts: SectionsModel,
    tags: Seq<char>,
    branches: Seq<char>,
) -> DetailsModel {
    let file_changes = changes_of(parts.name_status, parts.numstat);
    DetailsModel {
        metadata: metadata_of(metadata_block(parts.metadata)),
        repository_name,
        repository_path,
        references: tags_of(tags),
        branches_on_commit: names_of(branches),
        stats: stats_of(file_changes),
        file_changes,
    }
}

/// The record of the commit whose framed buffer is `buffer`.
pub open spec fn details_of(
    repository_name: Seq<char>,
    repository_path: Seq<char>,
    buffer: Seq<char>,
    tags: Seq<char>,
    branches: Seq<char>,
) -> DetailsModel {
    details_of_sections(repository_name, repository_path, sections(buffer), tags, branches)
}

/// Builds the record of a commit from its three sections, held apart, and
/// the listings of the tags and of the branches that contain it. Nothing is
/// framed, so no sentinel can collide with a listing. No input is refused:
/// what is missing comes out empty or zero.
pub fn details_from_sections(
    repository_name: &str,
    repository_path: &str,
    parts: &Sections,
    tags: &str,
    branches: &str,
) -> (details: CommitDetails)
    ensures
        details@ == details_of_sections(
            repository_name@,
            repository_path@,
            parts@,
            tags@,
            branches@,
        ),
        details.wf(),
        details.stats.total_changes == details.stats.lines_added + details.stats.lines_removed,
        details.stats.files_changed == details.file_changes@.len(),
{
    let block = extract_block(parts.metadata.as_str());
    let metadata = parse_metadata(block.as_str());
    let file_changes = reconcile_changes(parts.name_status.as_str(), parts.numstat.as_str());
    let stats = aggregate_stats(&file_changes);
    let details = CommitDetails {
        hash_short: metadata.hash_short,
        hash_full: metadata.hash_full,
        repository_name: repository_name.to_owned(),
        repository_path: repository_path.to_owned(),
        author_name: metadata.author_name,
        author_email: metadata.author_email,
        committer_name: metadata.committer_name,
        committer_email: metadata.committer_email,
        committer_date: metadata.committer_date,
        message_title: metadata.message_title,
        message_body: metadata.message_body,
        references: collect_tags(tags),
        branches_on_commit: collect_branches(branches),
        stats,
        file_changes,
    };
    proof {
        assert forall|k: int| 0 <= k < details@.file_changes.len() implies well_formed_change(
            #[trigger] details@.file_changes[k],
        ) by {
            assert(details@.file_changes[k] == details.file_changes@[k]@);
        }
    }
    details
}

/// Builds the record of a commit from its framed buffer and the listings of
/// the tags and of the branches that contain it. No input is refused: what a
/// malformed buffer lacks comes out empty or zero.
pub fn build_commit_details(
    repository_name: &str,
    repository_path: &str,
    buffer: &str,
    tags: &str,
    branches: &str,
) -> (details: CommitDetails)
    ensures
        details@ == details_of(repository_name@, repository_path@, buffer@, tags@, branches@),
        details.wf(),
        details.stats.total_changes == details.stats.lines_added + details.stats.lines_removed,
        details.stats.files_changed == details.file_changes@.len(),
{
    let parts = split_framed(buffer);
    details_from_sections(repository_name, repository_path, &parts, tags, branches)
}

/// In every consistent record the total is the sum of the added and the
/// removed lines, and the number of changed files is the number of change
/// records.
pub proof fn lemma_consistent_totals(details: DetailsModel)
    requires
        consistent(details),
    ensures
        details.stats.total_changes == details.stats.lines_added + details.stats.lines_removed,
        details.stats.files_changed == details.file_changes.len(),
{
}

/// The record of any commit is consistent.
pub proof fn lemma_details_consistent(
    repository_name: Seq<char>,
    repository_path: Seq<char>,
    buffer: Seq<char>,
    tags: Seq<char>,
    branches: Seq<char>,
)
    ensures
        consistent(details_of(repository_name, repository_path, buffer, tags, branches)),
{
    let parts = sections(buffer);
    crate::changes::lemma_changes_well_formed(parts.name_status, parts.numstat);
}

/// Building twice from the same inputs gives the same record: whatever two
/// records `build_commit_details` returns for one buffer, one repository and
/// the same two listings, they are equal field by field.
pub proof fn lemma_build_is_repeatable(
    first: CommitDetails,
    second: CommitDetails,
    repository_name: Seq<char>,
    repository_path: Seq<char>,
    buffer: Seq<char>,
    tags: Seq<char>,
    branches: Seq<char>,
)
    requires
        first@ == details_of(repository_name, repository_path, buffer, tags, branches),
        second@ == details_of(repository_name, repository_path, buffer, tags, branches),
    ensures
        first@ == second@,
{
}

/// The metadata whose fields are all empty.
pub open spec fn empty_metadata() -> MetadataModel {
    MetadataModel {
        hash_short: Seq::empty(),
        hash_full: Seq::empty(),
        author_name: Seq::empty(),
        author_email: Seq::empty(),
        committer_name: Seq::empty(),
        committer_email: Seq::empty(),
        committer_date: Seq::empty(),
        message_title: Seq::empty(),
        message_body: Seq::empty(),
    }
}

/// A buffer without end marker is no failure: its record has empty metadata,
/// no change records and totals of zero.
pub proof fn lemma_missing_end_marker(
    repository_name: Seq<char>,
    repository_path: Seq<char>,
    buffer: Seq<char>,
    tags: Seq<char>,
    branches: Seq<char>,
)
    requires
        !contains(buffer, end_marker()),
    ensures
        ({
            let details = details_of(repository_name, repository_path, buffer, tags, branches);
            &&& details.metadata == empty_metadata()
            &&& details.file_changes.len() == 0
            &&& details.stats == (StatsModel {
                files_changed: 0,
                lines_added: 0,
                lines_removed: 0,
                total_changes: 0,
            })
        }),
{
    let none = Seq::<char>::empty();
    lemma_find(buffer, end_marker());
    assert(sections(buffer) == (SectionsModel {
        metadata: none,
        name_status: none,
        numstat: none,
    }));
    // An empty section holds no start marker, so its block is empty.
    crate::framing::lemma_sentinel_lengths();
    lemma_find(none, start_marker());
    assert(metadata_block(none) == none);
    assert(crate::text::lines(none) =~= Seq::<Seq<char>>::empty());
    // An empty listing holds one empty token, which opens no entry.
    let tokens = crate::changes::tokens_of(none);
    assert(crate::text::trimmed(none, crate::text::Strip::Char('\0')) =~= none);
    assert(tokens =~= seq![none]);
    assert(crate::changes::entries_from(tokens, 1) =~= Seq::empty());
    assert(crate::changes::entries_from(tokens, 0) =~= Seq::empty());
}

} // verus!
