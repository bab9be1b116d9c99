use gitagent::framing::{frame_outputs, push_all, split_framed, END_MARKER, SEPARATOR,
    START_MARKER};

const METADATA: &str = "---GITAGENT_START---\nabc1234\nabc1234def5678\nAda Lovelace\nada@example.org\nCharles Babbage\ncharles@example.org\n2024-05-01T12:00:00+00:00\nAdd the engine\nFirst line of the body\nsecond line\n---GITAGENT_END---";

#[test]
fn sentinels_have_their_fixed_spelling() {
    assert_eq!(START_MARKER, "---GITAGENT_START---");
    assert_eq!(END_MARKER, "---GITAGENT_END---");
    assert_eq!(SEPARATOR, "---GIT_SEPARATOR---");
}

#[test]
fn push_all_appends_in_order() {
    let mut dst = vec!['a', 'b'];
    push_all(&mut dst, &vec!['c', 'd']);
    assert_eq!(dst, vec!['a', 'b', 'c', 'd']);
    push_all(&mut dst, &vec![]);
    assert_eq!(dst, vec!['a', 'b', 'c', 'd']);
}

#[test]
fn frame_puts_the_listings_behind_the_end_marker() {
    let buffer = frame_outputs(METADATA, "A\0foo.txt\0", "3\t0\tfoo.txt\0");
    let expected = format!("{}{}{}{}", METADATA, "A\0foo.txt\0", "---GIT_SEPARATOR---", "3\t0\tfoo.txt\0");
    assert_eq!(buffer, expected);
}

#[test]
fn frame_drops_what_follows_the_end_marker() {
    let buffer = frame_outputs("head---GITAGENT_END---\ntrailing", "ns", "num");
    assert_eq!(buffer, "head---GITAGENT_END---ns---GIT_SEPARATOR---num");
}

#[test]
fn frame_cuts_at_the_first_end_marker() {
    let buffer = frame_outputs("a---GITAGENT_END---b---GITAGENT_END---c", "ns", "num");
    assert_eq!(buffer, "a---GITAGENT_END---ns---GIT_SEPARATOR---num");
}

#[test]
fn frame_without_end_marker_is_the_metadata_alone() {
    assert_eq!(frame_outputs("no marker here", "ns", "num"), "no marker here");
    assert_eq!(frame_outputs("", "ns", "num"), "");
    assert_eq!(frame_outputs("---GITAGENT_END--", "ns", "num"), "---GITAGENT_END--");
}

#[test]
fn framing_and_splitting_gives_the_three_blocks_back() {
    let name_status = "A\0foo.txt\0M\0bar.txt\0";
    let numstat = "3\t0\tfoo.txt\05\t2\tbar.txt\0";
    let parts = split_framed(&frame_outputs(METADATA, name_status, numstat));
    assert_eq!(parts.metadata, METADATA.strip_suffix("---GITAGENT_END---").unwrap());
    assert_eq!(parts.name_status, name_status);
    assert_eq!(parts.numstat, numstat);
}

#[test]
fn framing_and_splitting_gives_empty_blocks_back() {
    let parts = split_framed(&frame_outputs("---GITAGENT_END---", "", ""));
    assert_eq!(parts.metadata, "");
    assert_eq!(parts.name_status, "");
    assert_eq!(parts.numstat, "");
    let parts = split_framed(&frame_outputs("m---GITAGENT_END---", "", "n"));
    assert_eq!(parts.metadata, "m");
    assert_eq!(parts.name_status, "");
    assert_eq!(parts.numstat, "n");
}

#[test]
fn splitting_twice_gives_the_same_sections() {
    let buffer = frame_outputs(METADATA, "M\0a\0", "1\t1\ta\0");
    let first = split_framed(&buffer);
    let second = split_framed(&buffer);
    assert_eq!(first.metadata, second.metadata);
    assert_eq!(first.name_status, second.name_status);
    assert_eq!(first.numstat, second.numstat);
}

#[test]
fn buffer_without_end_marker_has_empty_sections() {
    let parts = split_framed("---GITAGENT_START---\nabc\nA\0x\0---GIT_SEPARATOR---1\t1\tx\0");
    assert_eq!(parts.metadata, "");
    assert_eq!(parts.name_status, "");
    assert_eq!(parts.numstat, "");
    let parts = split_framed("");
    assert_eq!(parts.metadata, "");
    assert_eq!(parts.name_status, "");
    assert_eq!(parts.numstat, "");
}

#[test]
fn buffer_without_separator_is_all_name_status() {
    let parts = split_framed("m---GITAGENT_END---A\0x\0");
    assert_eq!(parts.metadata, "m");
    assert_eq!(parts.name_status, "A\0x\0");
    assert_eq!(parts.numstat, "");
}

#[test]
fn a_second_end_marker_cuts_the_listings_short() {
    let parts = split_framed("m---GITAGENT_END---ns---GIT_SEPARATOR---nu---GITAGENT_END---m");
    assert_eq!(parts.metadata, "m");
    assert_eq!(parts.name_status, "ns");
    assert_eq!(parts.numstat, "nu");
}

#[test]
fn a_separator_in_the_name_status_listing_does_not_survive_framing() {
    let name_status = "A\0odd---GIT_SEPARATOR---name\0";
    let parts = split_framed(&frame_outputs(METADATA, name_status, "1\t0\tx\0"));
    assert_eq!(parts.name_status, "A\0odd");
    assert_eq!(parts.numstat, "name\0---GIT_SEPARATOR---1\t0\tx\0");
}

#[test]
fn a_listing_that_ends_like_the_separator_begins_does_not_survive_framing() {
    let name_status = "A\0x---GIT_SEPARATOR";
    let parts = split_framed(&frame_outputs(METADATA, name_status, "n"));
    assert_eq!(parts.name_status, "A\0x");
    assert_eq!(parts.numstat, "GIT_SEPARATOR---n");
}

#[test]
fn later_separators_stay_in_the_numstat_listing() {
    let parts = split_framed(&frame_outputs(METADATA, "ns", "a---GIT_SEPARATOR---b"));
    assert_eq!(parts.name_status, "ns");
    assert_eq!(parts.numstat, "a---GIT_SEPARATOR---b");
}
