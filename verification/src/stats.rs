//! The totals of a commit, derived from its change records and from nothing
//! else.

use crate::changes::{change_views, ChangeModel, FileChange};
use vstd::prelude::*;

verus! {

/// The totals of a commit, as mathematical values.
pub ghost struct StatsModel {
    pub files_changed: nat,
    pub lines_added: nat,
    pub lines_removed: nat,
    pub total_changes: nat,
}

/// The totals of a commit. The sums are wide enough for any list of records
/// that fits in memory.
#[derive(Clone, Copy, Debug)]
pub struct CommitStats {
    /// The number of change records.
    pub files_changed: u64,
    /// The sum of the added lines of all records.
    pub lines_added: u128,
    /// The sum of the removed lines of all records.
    pub lines_removed: u128,
    /// Added and removed lines together.
    pub total_changes: u128,
}

impl View for CommitStats {
    type V = StatsModel;

    open spec fn view(&self) -> StatsModel {
        StatsModel {
            files_changed: self.files_changed as nat,
            lines_added: self.lines_added as nat,
            lines_removed: self.lines_removed as nat,
            total_changes: self.total_changes as nat,
        }
    }
}

/// The sum of the added lines of all records.
pub open spec fn sum_added(changes: Seq<ChangeModel>) -> nat
    decreases changes.len(),
{
    if changes.len() == 0 {
        0
    } else {
        sum_added(changes.drop_last()) + changes.last().lines_added
    }
}

/// The sum of the removed lines of all records.
pub open spec fn sum_removed(changes: Seq<ChangeModel>) -> nat
    decreases changes.len(),
{
    if changes.len() == 0 {
        0
    } else {
        sum_removed(changes.drop_last()) + changes.last().lines_removed
    }
}

/// The totals of a list of change records.
pub open spec fn stats_of(changes: Seq<ChangeModel>) -> StatsModel {
    StatsModel {
        files_changed: changes.len(),
        lines_added: sum_added(changes),
        lines_removed: sum_removed(changes),
        total_changes: sum_added(changes) + sum_removed(changes),
    }
}

/// The totals agree with one another and with the records: the total is the
/// sum of added and removed lines, and the number of files is the number of
/// records.
pub proof fn lemma_stats_agree(changes: Seq<ChangeModel>)
    ensures
        stats_of(changes).total_changes == stats_of(changes).lines_added + stats_of(
            changes,
        ).lines_removed,
        stats_of(changes).files_changed == changes.len(),
{
}

/// Sums the line counts of the change records.
pub fn aggregate_stats(changes: &Vec<FileChange>) -> (stats: CommitStats)
    ensures
        stats@ == stats_of(change_views(changes@)),
        stats.total_changes == stats.lines_added + stats.lines_removed,
        stats.files_changed == changes@.len(),
{
    let ghost all = change_views(changes@);
    let mut added: u128 = 0;
    let mut removed: u128 = 0;
    let mut i: usize = 0;
    assert(all.take(0) =~= Seq::<ChangeModel>::empty());
    while i < changes.len()
        invariant
            i <= changes.len(),
            all == change_views(changes@),
            added == sum_added(all.take(i as int)),
            removed == sum_removed(all.take(i as int)),
            added <= i * 0xFFFF_FFFF,
            removed <= i * 0xFFFF_FFFF,
        decreases changes.len() - i,
    {
        proof {
            assert(all.take(i + 1).drop_last() =~= all.take(i as int));
            assert(all.take(i + 1).last() == changes@[i as int]@);
        }
        added = added + changes[i].lines_added as u128;
        removed = removed + changes[i].lines_removed as u128;
        i += 1;
    }
    proof {
        assert(all.take(changes.len() as int) =~= all);
    }
    CommitStats {
        files_changed: changes.len() as u64,
        lines_added: added,
        lines_removed: removed,
        total_changes: added + removed,
    }
}

} // verus!
