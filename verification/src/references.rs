//! The tags and branches that contain a commit, from line-oriented listings.

use crate::text::{lines, lines_of, string_views, texts, to_chars, to_text, trim, trimmed, Strip};
use vstd::prelude::*;

verus! {

/// The kind of a reference to a tag.
pub const TAG_KIND: &'static str = "TAG";

/// The characters of `TAG_KIND`.
pub open spec fn tag_kind() -> Seq<char> {
    TAG_KIND@
}

/// A reference, as sequences of characters.
pub ghost struct ReferenceModel {
    pub ref_type: Seq<char>,
    pub value: Seq<char>,
}

/// A named reference to a commit.
#[derive(Debug)]
pub struct Reference {
    /// The kind of reference; only `TAG_KIND` is produced.
    pub ref_type: String,
    /// The name.
    pub value: String,
}

impl View for Reference {
    type V = ReferenceModel;

    open spec fn view(&self) -> ReferenceModel {
        ReferenceModel { ref_type: self.ref_type@, value: self.value@ }
    }
}

/// The views of a sequence of references.
pub open spec fn reference_views(v: Seq<Reference>) -> Seq<ReferenceModel> {
    Seq::new(v.len(), |i: int| v[i]@)
}

/// The lines, each without the white space at its two ends, and without
/// those that are then empty. Their order is kept and nothing is merged.
pub open spec fn kept_names(ls: Seq<Seq<char>>) -> Seq<Seq<char>>
    decreases ls.len(),
{
    if ls.len() == 0 {
        Seq::empty()
    } else {
        let name = trimmed(ls.last(), Strip::Whitespace);
        if name.len() > 0 {
            kept_names(ls.drop_last()).push(name)
        } else {
            kept_names(ls.drop_last())
        }
    }
}

/// The names that a listing holds, one per line.
pub open spec fn names_of(listing: Seq<char>) -> Seq<Seq<char>> {
    kept_names(lines(listing))
}

/// The tag references that a listing of tags holds.
pub open spec fn tags_of(listing: Seq<char>) -> Seq<ReferenceModel> {
    Seq::new(
        names_of(listing).len(),
        |i: int| ReferenceModel { ref_type: tag_kind(), value: names_of(listing)[i] },
    )
}

/// The names that a listing holds, one per line.
pub fn collect_names(listing: &str) -> (names: Vec<String>)
    ensures
        string_views(names@) == names_of(listing@),
{
    let text = to_chars(listing);
    let ls = lines_of(&text);
    let ghost all = texts(ls@);
    let mut names: Vec<String> = Vec::new();
    let mut i: usize = 0;
    assert(all.take(0) =~= Seq::<Seq<char>>::empty());
    assert(string_views(names@) =~= kept_names(all.take(0)));
    while i < ls.len()
        invariant
            i <= ls.len(),
            all == texts(ls@),
            string_views(names@) == kept_names(all.take(i as int)),
        decreases ls.len() - i,
    {
        proof {
            assert(all.take(i + 1).drop_last() =~= all.take(i as int));
            assert(all.take(i + 1).last() == ls@[i as int]@);
        }
        let name = trim(&ls[i], Strip::Whitespace);
        if name.len() > 0 {
            let s = to_text(&name);
            proof {
                assert(string_views(names@.push(s)) =~= string_views(names@).push(s@));
            }
            names.push(s);
        }
        i += 1;
    }
    proof {
        assert(all.take(ls.len() as int) =~= all);
    }
    names
}

/// The branches that a listing of branches holds.
pub fn collect_branches(listing: &str) -> (branches: Vec<String>)
    ensures
        string_views(branches@) == names_of(listing@),
{
    collect_names(listing)
}

/// The tag references that a listing of tags holds.
pub fn collect_tags(listing: &str) -> (tags: Vec<Reference>)
    ensures
        reference_views(tags@) == tags_of(listing@),
{
    let names = collect_names(listing);
    let mut tags: Vec<Reference> = Vec::new();
    let mut i: usize = 0;
    while i < names.len()
        invariant
            i <= names.len(),
            tags@.len() == i,
            string_views(names@) == names_of(listing@),
            forall|k: int|
                0 <= k < i ==> (#[trigger] tags@[k])@ == (ReferenceModel {
                    ref_type: tag_kind(),
                    value: names@[k]@,
                }),
        decreases names.len() - i,
    {
        tags.push(Reference { ref_type: TAG_KIND.to_owned(), value: names[i].clone() });
        i += 1;
    }
    proof {
        assert forall|k: int| 0 <= k < names@.len() implies names_of(listing@)[k]
            == names@[k]@ by {
            assert(string_views(names@)[k] == names@[k]@);
        }
        assert(reference_views(tags@) =~= tags_of(listing@));
    }
    tags
}

} // verus!
