use gitagent::changes::ChangeStatus;
use gitagent::commit::{build_commit_details, details_from_sections};
use gitagent::framing::{frame_outputs, split_framed, Sections};

const METADATA: &str = "---GITAGENT_START---\nabc1234\nabc1234def5678\nAda Lovelace\nada@example.org\nCharles Babbage\ncharles@example.org\n2024-05-01T12:00:00+00:00\nAdd the engine\nFirst line of the body\nsecond line\n---GITAGENT_END---";

#[test]
fn details_hold_every_part_of_the_commit() {
    let buffer = frame_outputs(
        METADATA,
        "A\0foo.txt\0M\0bar.txt\0R100\0old.txt\0new.txt\0",
        "3\t0\tfoo.txt\05\t2\tbar.txt\04\t1\told.txt -> new.txt\0",
    );
    let d = build_commit_details("engine", "/work/engine", &buffer, "v1.0\nv1.1\n", "main\n  develop\n");
    assert_eq!(d.hash_short, "abc1234");
    assert_eq!(d.hash_full, "abc1234def5678");
    assert_eq!(d.repository_name, "engine");
    assert_eq!(d.repository_path, "/work/engine");
    assert_eq!(d.author_name, "Ada Lovelace");
    assert_eq!(d.author_email, "ada@example.org");
    assert_eq!(d.committer_name, "Charles Babbage");
    assert_eq!(d.committer_email, "charles@example.org");
    assert_eq!(d.committer_date, "2024-05-01T12:00:00+00:00");
    assert_eq!(d.message_title, "Add the engine");
    assert_eq!(d.message_body, "First line of the body\nsecond line");
    assert_eq!(d.references.len(), 2);
    assert_eq!(d.references[0].ref_type, "TAG");
    assert_eq!(d.references[0].value, "v1.0");
    assert_eq!(d.references[1].value, "v1.1");
    assert_eq!(d.branches_on_commit, vec!["main", "develop"]);
    assert_eq!(d.file_changes.len(), 3);
    assert_eq!(d.file_changes[2].file_path, "new.txt");
    assert!(matches!(&d.file_changes[2].status, ChangeStatus::Renamed { old_path } if old_path == "old.txt"));
    assert_eq!(d.stats.files_changed, 3);
    assert_eq!(d.stats.lines_added, 12);
    assert_eq!(d.stats.lines_removed, 3);
    assert_eq!(d.stats.total_changes, 15);
}

#[test]
fn details_totals_agree_with_the_change_records() {
    let buffers = [
        frame_outputs(METADATA, "", ""),
        frame_outputs(METADATA, "A\0a\0", "-\t-\ta\0"),
        frame_outputs(METADATA, "A\0a\0M\0b\0D\0c\0", "4294967295\t4294967295\ta\04294967295\t1\tb\0"),
        frame_outputs("no markers", "A\0a\0", "1\t1\ta\0"),
    ];
    for buffer in &buffers {
        let d = build_commit_details("r", "/r", buffer, "", "");
        assert_eq!(d.stats.files_changed, d.file_changes.len() as u64);
        assert_eq!(d.stats.total_changes, d.stats.lines_added + d.stats.lines_removed);
        assert_eq!(d.stats.lines_added, d.file_changes.iter().map(|c| c.lines_added as u128).sum::<u128>());
        assert_eq!(d.stats.lines_removed, d.file_changes.iter().map(|c| c.lines_removed as u128).sum::<u128>());
    }
}

#[test]
fn details_built_twice_are_the_same() {
    let buffer = frame_outputs(METADATA, "R100\0a\0b\0M\0c\0", "1\t2\ta => b\03\t4\tc\0");
    let first = build_commit_details("r", "/r", &buffer, "v1\n", "main\n");
    let second = build_commit_details("r", "/r", &buffer, "v1\n", "main\n");
    assert_eq!(format!("{:?}", first), format!("{:?}", second));
}

#[test]
fn details_without_start_marker_have_empty_metadata() {
    let d = build_commit_details("r", "/r", "\nabc\ndef\n---GITAGENT_END---A\0x\0---GIT_SEPARATOR---1\t2\tx\0", "", "");
    assert_eq!(d.hash_short, "");
    assert_eq!(d.message_body, "");
    assert_eq!(d.file_changes.len(), 1);
    assert_eq!(d.stats.total_changes, 3);
}

#[test]
fn details_of_an_empty_buffer_are_empty() {
    let d = build_commit_details("", "", "", "", "");
    assert_eq!(d.hash_short, "");
    assert_eq!(d.repository_name, "");
    assert!(d.references.is_empty());
    assert!(d.branches_on_commit.is_empty());
    assert!(d.file_changes.is_empty());
    assert_eq!(d.stats.files_changed, 0);
}

#[test]
fn details_from_sections_need_no_frame() {
    let parts = Sections {
        metadata: METADATA.strip_suffix("---GITAGENT_END---").unwrap().to_string(),
        name_status: "A\0odd---GIT_SEPARATOR---name\0".to_string(),
        numstat: "7\t1\todd---GIT_SEPARATOR---name\0".to_string(),
    };
    let d = details_from_sections("r", "/r", &parts, "v1\n", "main\n");
    assert_eq!(d.hash_short, "abc1234");
    assert_eq!(d.message_body, "First line of the body\nsecond line");
    assert_eq!(d.file_changes.len(), 1);
    assert_eq!(d.file_changes[0].file_path, "odd---GIT_SEPARATOR---name");
    assert_eq!(d.file_changes[0].lines_added, 7);
    assert_eq!(d.file_changes[0].lines_removed, 1);
    assert_eq!(d.stats.total_changes, 8);
    assert_eq!(d.references[0].value, "v1");
    assert_eq!(d.branches_on_commit, vec!["main"]);
}

#[test]
fn details_from_the_sections_of_a_buffer_are_those_of_the_buffer() {
    let buffer = frame_outputs(METADATA, "M\0a\0D\0b\0", "2\t3\ta\00\t9\tb\0");
    let whole = build_commit_details("r", "/r", &buffer, "", "x\n");
    let parts = split_framed(&buffer);
    let apart = details_from_sections("r", "/r", &parts, "", "x\n");
    assert_eq!(format!("{:?}", whole), format!("{:?}", apart));
}
