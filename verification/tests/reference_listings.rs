use gitagent::references::{collect_branches, collect_names, collect_tags, TAG_KIND};

#[test]
fn tag_kind_has_its_fixed_spelling() {
    assert_eq!(TAG_KIND, "TAG");
}

#[test]
fn names_are_trimmed_and_empty_lines_left_out() {
    assert_eq!(collect_names("  main\n\n\tfeature/x  \n   \nrelease\n"), vec!["main", "feature/x", "release"]);
    assert_eq!(collect_names(""), Vec::<String>::new());
    assert_eq!(collect_names("\n\n \n"), Vec::<String>::new());
}

#[test]
fn names_keep_their_order_and_their_duplicates() {
    assert_eq!(collect_names("b\na\nb\n"), vec!["b", "a", "b"]);
}

#[test]
fn names_keep_inner_white_space() {
    assert_eq!(collect_names("* (HEAD detached at abc)\r\n"), vec!["* (HEAD detached at abc)"]);
}

#[test]
fn branches_are_the_names_of_the_listing() {
    assert_eq!(collect_branches("main\n  develop\n"), vec!["main", "develop"]);
    assert_eq!(collect_branches("only"), vec!["only"]);
}

#[test]
fn tags_are_references_of_kind_tag() {
    let tags = collect_tags("v1.0\n v1.1 \n\nv2.0");
    assert_eq!(tags.len(), 3);
    assert_eq!(tags[0].ref_type, "TAG");
    assert_eq!(tags[0].value, "v1.0");
    assert_eq!(tags[1].ref_type, "TAG");
    assert_eq!(tags[1].value, "v1.1");
    assert_eq!(tags[2].ref_type, "TAG");
    assert_eq!(tags[2].value, "v2.0");
    assert_eq!(collect_tags("").len(), 0);
}
