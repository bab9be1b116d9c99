//! Listings of a repository's commits and branches: one record per line,
//! its fields between vertical bars.

use crate::text::{item_or_empty, item_text, lines, lines_of, split, split_on, texts, to_chars};
use vstd::prelude::*;

verus! {

/// The field at index `k` of a line whose fields stand between vertical
/// bars, or the empty text where the line has no such field.
pub open spec fn field_of(line: Seq<char>, k: int) -> Seq<char> {
    item_or_empty(split(line, '|'), k)
}

/// One commit of a log, as sequences of characters.
pub ghost struct CommitInfoModel {
    pub hash: Seq<char>,
    pub author: Seq<char>,
    pub date: Seq<char>,
    pub message: Seq<char>,
}

/// One commit of a log.
#[derive(Debug)]
pub struct CommitInfo {
    pub hash: String,
    pub author: String,
    pub date: String,
    /// The subject, up to its first vertical bar.
    pub message: String,
}

impl View for CommitInfo {
    type V = CommitInfoModel;

    open spec fn view(&self) -> CommitInfoModel {
        CommitInfoModel {
            hash: self.hash@,
            author: self.author@,
            date: self.date@,
            message: self.message@,
        }
    }
}

/// The views of a sequence of commits.
pub open spec fn commit_views(v: Seq<CommitInfo>) -> Seq<CommitInfoModel> {
    Seq::new(v.len(), |i: int| v[i]@)
}

/// The commit that a line of the log `hash|author|date|subject` describes.
pub open spec fn commit_of(line: Seq<char>) -> CommitInfoModel {
    CommitInfoModel {
        hash: field_of(line, 0),
        author: field_of(line, 1),
        date: field_of(line, 2),
        message: field_of(line, 3),
    }
}

/// The commits of a log, one per line.
pub open spec fn commit_log_of(log: Seq<char>) -> Seq<CommitInfoModel> {
    Seq::new(lines(log).len(), |i: int| commit_of(lines(log)[i]))
}

/// A branch, as sequences of characters.
pub ghost struct BranchModel {
    pub name: Seq<char>,
    pub last_commit_date: Seq<char>,
}

/// A branch and the date of its last commit.
#[derive(Debug)]
pub struct Branch {
    pub name: String,
    pub last_commit_date: String,
}

impl View for Branch {
    type V = BranchModel;

    open spec fn view(&self) -> BranchModel {
        BranchModel { name: self.name@, last_commit_date: self.last_commit_date@ }
    }
}

/// The views of a sequence of branches.
pub open spec fn branch_views(v: Seq<Branch>) -> Seq<BranchModel> {
    Seq::new(v.len(), |i: int| v[i]@)
}

/// The branch that a line `name|date` describes.
pub open spec fn branch_of(line: Seq<char>) -> BranchModel {
    BranchModel { name: field_of(line, 0), last_commit_date: field_of(line, 1) }
}

/// The branches of a listing, one per line.
pub open spec fn branch_list_of(listing: Seq<char>) -> Seq<BranchModel> {
    Seq::new(lines(listing).len(), |i: int| branch_of(lines(listing)[i]))
}

/// Reads a commit log, one commit per line. A field that a line lacks is
/// empty.
pub fn parse_commit_log(log: &str) -> (commits: Vec<CommitInfo>)
    ensures
        commit_views(commits@) == commit_log_of(log@),
{
    let text = to_chars(log);
    let ls = lines_of(&text);
    let mut commits: Vec<CommitInfo> = Vec::new();
    let mut i: usize = 0;
    while i < ls.len()
        invariant
            i <= ls.len(),
            commits@.len() == i,
            texts(ls@) == lines(log@),
            forall|k: int| 0 <= k < i ==> (#[trigger] commits@[k])@ == commit_of(ls@[k]@),
        decreases ls.len() - i,
    {
        let fields = split_on(&ls[i], '|');
        commits.push(
            CommitInfo {
                hash: item_text(&fields, 0),
                author: item_text(&fields, 1),
                date: item_text(&fields, 2),
                message: item_text(&fields, 3),
            },
        );
        i += 1;
    }
    proof {
        assert forall|k: int| 0 <= k < ls@.len() implies lines(log@)[k] == ls@[k]@ by {
            assert(texts(ls@)[k] == ls@[k]@);
        }
        assert(commit_views(commits@) =~= commit_log_of(log@));
    }
    commits
}

/// Reads a listing of branches, one branch per line. A field that a line
/// lacks is empty.
pub fn parse_branch_list(listing: &str) -> (branches: Vec<Branch>)
    ensures
        branch_views(branches@) == branch_list_of(listing@),
{
    let text = to_chars(listing);
    let ls = lines_of(&text);
    let mut branches: Vec<Branch> = Vec::new();
    let mut i: usize = 0;
    while i < ls.len()
        invariant
            i <= ls.len(),
            branches@.len() == i,
            texts(ls@) == lines(listing@),
            forall|k: int| 0 <= k < i ==> (#[trigger] branches@[k])@ == branch_of(ls@[k]@),
        decreases ls.len() - i,
    {
        let fields = split_on(&ls[i], '|');
        branches.push(
            Branch { name: item_text(&fields, 0), last_commit_date: item_text(&fields, 1) },
        );
        i += 1;
    }
    proof {
        assert forall|k: int| 0 <= k < ls@.len() implies lines(listing@)[k] == ls@[k]@ by {
            assert(texts(ls@)[k] == ls@[k]@);
        }
        assert(branch_views(branches@) =~= branch_list_of(listing@));
    }
    branches
}

} // verus!
