//! The summary of one repository of the workspace, from the outputs of
//! three queries on it.

use crate::text::{lines, lines_of, texts, to_chars, to_text, trim, trimmed, Strip};
use vstd::prelude::*;

verus! {

/// Stands for the date of the last commit when it could not be read.
pub const DATE_UNKNOWN: &'static str = "N/A";

/// Stands for the current branch when it could not be read.
pub const BRANCH_UNKNOWN: &'static str = "unknown";

/// The summary of a repository, as mathematical values.
pub ghost struct RepositoryModel {
    pub name: Seq<char>,
    pub last_commit_date: Seq<char>,
    pub branch_count: nat,
    pub current_branch: Seq<char>,
}

/// The summary of a repository.
#[derive(Debug)]
pub struct RepositoryInfo {
    pub name: String,
    /// The date of the last commit, without white space around it.
    pub last_commit_date: String,
    /// The number of lines of the branch listing, counted modulo 2^32.
    pub branch_count: u32,
    /// The current branch, as the query wrote it.
    pub current_branch: String,
}

impl View for RepositoryInfo {
    type V = RepositoryModel;

    open spec fn view(&self) -> RepositoryModel {
        RepositoryModel {
            name: self.name@,
            last_commit_date: self.last_commit_date@,
            branch_count: self.branch_count as nat,
            current_branch: self.current_branch@,
        }
    }
}

/// The characters of an output that may be missing.
pub open spec fn output_view(output: Option<&str>) -> Option<Seq<char>> {
    match output {
        Some(text) => Some(text@),
        None => None,
    }
}

/// The summary of the repository `name`. Each output is that of one query,
/// missing where the query could not be run or wrote no text: the date of the
/// last commit, the listing of all branches, and the current branch.
pub open spec fn summary_of(
    name: Seq<char>,
    last_commit: Option<Seq<char>>,
    branches: Option<Seq<char>>,
    current_branch: Option<Seq<char>>,
) -> RepositoryModel {
    RepositoryModel {
        name,
        last_commit_date: match last_commit {
            Some(date) => trimmed(date, Strip::Whitespace),
            None => trimmed(DATE_UNKNOWN@, Strip::Whitespace),
        },
        branch_count: match branches {
            Some(listing) => (lines(listing).len() % 0x1_0000_0000) as nat,
            None => 0,
        },
        current_branch: match current_branch {
            Some(branch) => branch,
            None => BRANCH_UNKNOWN@,
        },
    }
}

/// Summarises the repository `name` from the outputs of the three queries on
/// it.
pub fn summarize_repository(
    name: &str,
    last_commit: Option<&str>,
    branches: Option<&str>,
    current_branch: Option<&str>,
) -> (info: RepositoryInfo)
    ensures
        info@ == summary_of(
            name@,
            output_view(last_commit),
            output_view(branches),
            output_view(current_branch),
        ),
{
    let date = match last_commit {
        Some(text) => to_chars(text),
        None => to_chars(DATE_UNKNOWN),
    };
    let branch_count: u32 = match branches {
        Some(listing) => {
            let text = to_chars(listing);
            let ls = lines_of(&text);
            assert(texts(ls@).len() == ls@.len());
            (ls.len() as u64 % 0x1_0000_0000) as u32
        },
        None => 0,
    };
    RepositoryInfo {
        name: name.to_owned(),
        last_commit_date: to_text(&trim(&date, Strip::Whitespace)),
        branch_count,
        current_branch: match current_branch {
            Some(branch) => branch.to_owned(),
            None => BRANCH_UNKNOWN.to_owned(),
        },
    }
}

} // verus!
