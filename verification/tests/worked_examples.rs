use gitagent::changes::{reconcile_changes, ChangeStatus, DIFF_PLACEHOLDER};
use gitagent::commit::build_commit_details;
use gitagent::framing::frame_outputs;
use gitagent::numstat::parse_numstat;
use gitagent::stats::aggregate_stats;

#[test]
fn added_and_modified_files_get_their_counts() {
    let changes = reconcile_changes("A\0foo.txt\0M\0bar.txt\0", "3\t0\tfoo.txt\05\t2\tbar.txt\0");
    assert_eq!(changes.len(), 2);
    assert_eq!(changes[0].file_path, "foo.txt");
    assert!(matches!(changes[0].status, ChangeStatus::Added));
    assert_eq!(changes[0].lines_added, 3);
    assert_eq!(changes[0].lines_removed, 0);
    assert_eq!(changes[0].diff_snippet, DIFF_PLACEHOLDER);
    assert_eq!(changes[1].file_path, "bar.txt");
    assert!(matches!(changes[1].status, ChangeStatus::Modified));
    assert_eq!(changes[1].lines_added, 5);
    assert_eq!(changes[1].lines_removed, 2);
    let stats = aggregate_stats(&changes);
    assert_eq!(stats.files_changed, 2);
    assert_eq!(stats.lines_added, 8);
    assert_eq!(stats.lines_removed, 2);
    assert_eq!(stats.total_changes, 10);
}

#[test]
fn renamed_file_falls_back_to_the_row_that_holds_both_paths() {
    let changes = reconcile_changes("R100\0old.txt\0new.txt\0", "4\t1\told.txt -> new.txt\0");
    assert_eq!(changes.len(), 1);
    assert_eq!(changes[0].file_path, "new.txt");
    match &changes[0].status {
        ChangeStatus::Renamed { old_path } => assert_eq!(old_path, "old.txt"),
        other => panic!("unexpected status {:?}", other),
    }
    assert_eq!(changes[0].lines_added, 4);
    assert_eq!(changes[0].lines_removed, 1);
}

#[test]
fn metadata_without_end_marker_gives_empty_fields() {
    let metadata = "---GITAGENT_START---\nabc1234\nabc1234def\nAda\nada@example.org\n";
    let buffer = frame_outputs(metadata, "A\0foo.txt\0", "3\t0\tfoo.txt\0");
    assert_eq!(buffer, metadata);
    let details = build_commit_details("repo", "/tmp/repo", &buffer, "", "");
    assert_eq!(details.hash_short, "");
    assert_eq!(details.hash_full, "");
    assert_eq!(details.author_name, "");
    assert_eq!(details.author_email, "");
    assert_eq!(details.committer_name, "");
    assert_eq!(details.committer_email, "");
    assert_eq!(details.committer_date, "");
    assert_eq!(details.message_title, "");
    assert_eq!(details.message_body, "");
    assert!(details.file_changes.is_empty());
    assert_eq!(details.stats.files_changed, 0);
    assert_eq!(details.stats.total_changes, 0);
}

#[test]
fn counts_that_are_no_numbers_are_zero() {
    let table = parse_numstat("-\t-\timg.png\0");
    assert_eq!(table.len(), 1);
    assert_eq!(table.lookup(&"img.png".to_string()), Some((0, 0)));
    let changes = reconcile_changes("A\0img.png\0", "-\t-\timg.png\0");
    assert_eq!(changes.len(), 1);
    assert_eq!(changes[0].lines_added, 0);
    assert_eq!(changes[0].lines_removed, 0);
}
