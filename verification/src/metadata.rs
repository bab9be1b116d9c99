//! The commit's metadata: the block between the start marker and the end
//! marker, read line by line.

use crate::framing::{start_marker, until, START_MARKER};
use crate::text::{find, find_first, item_or_empty, item_text, join_from, join_lines, lines,
    lines_of, slice_of, texts, to_chars, to_text};
use vstd::prelude::*;

verus! {

/// The metadata of a commit, as sequences of characters.
pub ghost struct MetadataModel {
    pub hash_short: Seq<char>,
    pub hash_full: Seq<char>,
    pub author_name: Seq<char>,
    pub author_email: Seq<char>,
    pub committer_name: Seq<char>,
    pub committer_email: Seq<char>,
    pub committer_date: Seq<char>,
    pub message_title: Seq<char>,
    pub message_body: Seq<char>,
}

/// The metadata of a commit.
#[derive(Debug)]
pub struct CommitMetadata {
    /// The abbreviated hash.
    pub hash_short: String,
    /// The full hash.
    pub hash_full: String,
    pub author_name: String,
    pub author_email: String,
    pub committer_name: String,
    pub committer_email: String,
    /// The committer's timestamp, in ISO 8601.
    pub committer_date: String,
    /// The first line of the message.
    pub message_title: String,
    /// The other lines of the message, joined by line feeds.
    pub message_body: String,
}

impl View for CommitMetadata {
    type V = MetadataModel;

    open spec fn view(&self) -> MetadataModel {
        MetadataModel {
            hash_short: self.hash_short@,
            hash_full: self.hash_full@,
            author_name: self.author_name@,
            author_email: self.author_email@,
            committer_name: self.committer_name@,
            committer_email: self.committer_email@,
            committer_date: self.committer_date@,
            message_title: self.message_title@,
            message_body: self.message_body@,
        }
    }
}

/// The metadata block of a metadata section: what follows its first start
/// marker, up to the next start marker if there is one. A section without
/// start marker has an empty block.
pub open spec fn metadata_block(section: Seq<char>) -> Seq<char> {
    match find(section, start_marker()) {
        None => Seq::empty(),
        Some(i) => until(section.skip(i + start_marker().len()), start_marker()),
    }
}

/// The metadata that a block holds. Its first line is passed over; the next
/// eight lines are the fields, in order; the lines after them are the body.
/// A field whose line is missing is empty.
pub open spec fn metadata_of(block: Seq<char>) -> MetadataModel {
    let ls = lines(block);
    MetadataModel {
        hash_short: item_or_empty(ls, 1),
        hash_full: item_or_empty(ls, 2),
        author_name: item_or_empty(ls, 3),
        author_email: item_or_empty(ls, 4),
        committer_name: item_or_empty(ls, 5),
        committer_email: item_or_empty(ls, 6),
        committer_date: item_or_empty(ls, 7),
        message_title: item_or_empty(ls, 8),
        message_body: if ls.len() > 9 {
            join_lines(ls.skip(9))
        } else {
            Seq::empty()
        },
    }
}

/// The metadata block of a metadata section.
pub fn extract_block(section: &str) -> (block: String)
    ensures
        block@ == metadata_block(section@),
{
    let text = to_chars(section);
    let start = to_chars(START_MARKER);
    match find_first(&text, &start) {
        None => String::new(),
        Some(i) => {
            let rest = slice_of(&text, i + start.len(), text.len());
            match find_first(&rest, &start) {
                Some(j) => {
                    let block = slice_of(&rest, 0, j);
                    to_text(&block)
                },
                None => to_text(&rest),
            }
        },
    }
}

/// Reads the metadata out of a metadata block. No block is refused: what is
/// missing comes out empty.
pub fn parse_metadata(block: &str) -> (metadata: CommitMetadata)
    ensures
        metadata@ == metadata_of(block@),
{
    let text = to_chars(block);
    let ls = lines_of(&text);
    let body = if ls.len() > 9 {
        let joined = join_from(&ls, 9);
        to_text(&joined)
    } else {
        String::new()
    };
    CommitMetadata {
        hash_short: item_text(&ls, 1),
        hash_full: item_text(&ls, 2),
        author_name: item_text(&ls, 3),
        author_email: item_text(&ls, 4),
        committer_name: item_text(&ls, 5),
        committer_email: item_text(&ls, 6),
        committer_date: item_text(&ls, 7),
        message_title: item_text(&ls, 8),
        message_body: body,
    }
}

/// How a block with missing lines is dealt with.
#[derive(Clone, Copy, Debug)]
pub enum ParsePolicy {
    /// Nothing is refused; a field whose line is missing is empty.
    Permissive,
    /// A block that lacks the line of a field is refused.
    Strict,
}

/// The block has the line that is passed over and a line for each of the
/// eight fields.
pub open spec fn complete(block: Seq<char>) -> bool {
    lines(block).len() >= 9
}

/// The policy accepts the block.
pub open spec fn accepts(policy: ParsePolicy, block: Seq<char>) -> bool {
    policy is Permissive || complete(block)
}

/// Reads the metadata out of a metadata block under the given policy: the
/// metadata of every block that the policy accepts, and nothing for a block
/// that it refuses.
pub fn parse_metadata_with(block: &str, policy: ParsePolicy) -> (metadata: Option<CommitMetadata>)
    ensures
        match metadata {
            Some(m) => accepts(policy, block@) && m@ == metadata_of(block@),
            None => !accepts(policy, block@),
        },
{
    match policy {
        ParsePolicy::Permissive => Some(parse_metadata(block)),
        ParsePolicy::Strict => {
            let text = to_chars(block);
            let ls = lines_of(&text);
            assert(texts(ls@).len() == ls@.len());
            if ls.len() >= 9 {
                Some(parse_metadata(block))
            } else {
                None
            }
        },
    }
}

} // verus!
