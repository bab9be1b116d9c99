use gitagent::changes::{ChangeStatus, FileChange};
use gitagent::stats::aggregate_stats;

fn change(path: &str, added: u32, removed: u32) -> FileChange {
    FileChange {
        file_path: path.to_string(),
        status: ChangeStatus::Modified,
        lines_added: added,
        lines_removed: removed,
        diff_snippet: "Diff not implemented".to_string(),
    }
}

#[test]
fn totals_of_no_records_are_zero() {
    let stats = aggregate_stats(&vec![]);
    assert_eq!(stats.files_changed, 0);
    assert_eq!(stats.lines_added, 0);
    assert_eq!(stats.lines_removed, 0);
    assert_eq!(stats.total_changes, 0);
}

#[test]
fn totals_are_the_sums_over_the_records() {
    let stats = aggregate_stats(&vec![change("a", 3, 0), change("b", 5, 2), change("c", 0, 7)]);
    assert_eq!(stats.files_changed, 3);
    assert_eq!(stats.lines_added, 8);
    assert_eq!(stats.lines_removed, 9);
    assert_eq!(stats.total_changes, 17);
}

#[test]
fn totals_do_not_wrap_at_32_bits() {
    let changes = vec![
        change("a", u32::MAX, u32::MAX),
        change("b", u32::MAX, 1),
        change("c", 2, u32::MAX),
    ];
    let stats = aggregate_stats(&changes);
    assert_eq!(stats.files_changed, 3);
    assert_eq!(stats.lines_added, 2 * 4294967295u128 + 2);
    assert_eq!(stats.lines_removed, 2 * 4294967295u128 + 1);
    assert_eq!(stats.total_changes, 4 * 4294967295u128 + 3);
    assert_eq!(stats.total_changes, stats.lines_added + stats.lines_removed);
}

#[test]
fn totals_agree_with_the_records_they_come_from() {
    let changes = vec![change("a", 10, 1), change("a", 10, 1), change("z", 0, 0)];
    let stats = aggregate_stats(&changes);
    assert_eq!(stats.files_changed, changes.len() as u64);
    assert_eq!(stats.total_changes, stats.lines_added + stats.lines_removed);
    assert_eq!(stats.lines_added, changes.iter().map(|c| c.lines_added as u128).sum::<u128>());
    assert_eq!(stats.lines_removed, changes.iter().map(|c| c.lines_removed as u128).sum::<u128>());
}
