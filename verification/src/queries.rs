//! What a run of the version-control tool came to, and what the caller of a
//! command is told of it.
//!
//! The tool is run elsewhere. Its outcome is handed in as a plain value, with
//! the outputs already decoded as text.

use crate::commit::{build_commit_details, details_of, CommitDetails};
use crate::framing::{frame, frame_outputs};
use crate::repository::{branch_list_of, branch_views, commit_log_of, commit_views,
    parse_branch_list, parse_commit_log, Branch, CommitInfo};
use vstd::prelude::*;
use vstd::string::StringExecFns;

verus! {

/// Said when `git show` could not be started.
pub const SHOW_NOT_STARTED: &'static str = "Failed to execute git show: ";

/// Said when the name-status query could not be started.
pub const NAME_STATUS_NOT_STARTED: &'static str = "Failed to execute git diff-tree --name-status: ";

/// Said when the numstat query could not be started.
pub const NUMSTAT_NOT_STARTED: &'static str = "Failed to execute git diff-tree --numstat: ";

/// Said when the query for the branches could not be started.
pub const BRANCHES_NOT_STARTED: &'static str = "Failed to get branches: ";

/// Said when the query for the tags could not be started.
pub const TAGS_NOT_STARTED: &'static str = "Failed to get tags: ";

/// Said when `git log` could not be started.
pub const LOG_NOT_STARTED: &'static str = "Erro ao executar o comando 'git log': ";

/// Said when `git log` failed.
pub const LOG_FAILED: &'static str = "Erro ao obter os commits: ";

/// Said when `git for-each-ref` could not be started.
pub const BRANCH_LIST_NOT_STARTED: &'static str = "Erro ao executar o comando 'git for-each-ref': ";

/// Said when `git for-each-ref` failed.
pub const BRANCH_LIST_FAILED: &'static str = "Erro ao obter as branches: ";

/// Said when `git clone` could not be started.
pub const CLONE_NOT_STARTED: &'static str = "Erro ao executar o comando 'git clone': ";

/// Said when `git clone` failed.
pub const CLONE_FAILED: &'static str = "Erro ao clonar repositório: ";

/// Said when `git clone` succeeded.
pub const CLONE_DONE: &'static str = "Repositório clonado com sucesso em: ";

/// Said when there is no repository at the path.
pub const REPOSITORY_MISSING: &'static str = "O repositório não foi encontrado em: ";

/// Said when the workspace directory is already there.
pub const DIRECTORY_EXISTS: &'static str = "Diretório já existe: ";

/// Said when the workspace directory was created.
pub const DIRECTORY_CREATED: &'static str = "Diretório criado com sucesso: ";

/// Said when the workspace directory could not be created.
pub const DIRECTORY_FAILED: &'static str = "Erro ao criar o diretório: ";

/// The outcome of a run, as mathematical values.
pub ghost enum OutcomeModel {
    Finished { success: bool, stdout: Seq<char>, stderr: Seq<char> },
    NotStarted { reason: Seq<char> },
}

/// The outcome of one run of the tool.
#[derive(Debug)]
pub enum QueryOutcome {
    /// The tool ran to its end, with success or without.
    Finished { success: bool, stdout: String, stderr: String },
    /// The tool could not be started.
    NotStarted { reason: String },
}

impl View for QueryOutcome {
    type V = OutcomeModel;

    open spec fn view(&self) -> OutcomeModel {
        match self {
            QueryOutcome::Finished { success, stdout, stderr } => OutcomeModel::Finished {
                success: *success,
                stdout: stdout@,
                stderr: stderr@,
            },
            QueryOutcome::NotStarted { reason } => OutcomeModel::NotStarted { reason: reason@ },
        }
    }
}

/// What the tool wrote to its standard output, empty if it did not start.
pub open spec fn output_of(outcome: OutcomeModel) -> Seq<char> {
    match outcome {
        OutcomeModel::Finished { stdout, .. } => stdout,
        OutcomeModel::NotStarted { .. } => Seq::empty(),
    }
}

/// Why a query whose success is required has failed, if it has: it did not
/// start, which is told with `not_started` before the reason, or it ended
/// without success, which is told with what it wrote to its standard error.
pub open spec fn required_failure(outcome: OutcomeModel, not_started: Seq<char>) -> Option<
    Seq<char>,
> {
    match outcome {
        OutcomeModel::NotStarted { reason } => Some(not_started + reason),
        OutcomeModel::Finished { success, stderr, .. } => if success {
            None
        } else {
            Some(stderr)
        },
    }
}

/// Why a query that only has to start has failed, if it has.
pub open spec fn started_failure(outcome: OutcomeModel, not_started: Seq<char>) -> Option<
    Seq<char>,
> {
    match outcome {
        OutcomeModel::NotStarted { reason } => Some(not_started + reason),
        OutcomeModel::Finished { .. } => None,
    }
}

/// Why a query that reports its own failure has failed, if it has: as
/// `required_failure`, but with `failed` before what it wrote to its standard
/// error.
pub open spec fn reported_failure(
    outcome: OutcomeModel,
    not_started: Seq<char>,
    failed: Seq<char>,
) -> Option<Seq<char>> {
    match outcome {
        OutcomeModel::NotStarted { reason } => Some(not_started + reason),
        OutcomeModel::Finished { success, stderr, .. } => if success {
            None
        } else {
            Some(failed + stderr)
        },
    }
}

/// The first of two failures.
pub open spec fn or_failure(first: Option<Seq<char>>, second: Option<Seq<char>>) -> Option<
    Seq<char>,
> {
    if first is Some {
        first
    } else {
        second
    }
}

/// `prefix` followed by `text`.
pub fn prefixed(prefix: &str, text: &str) -> (message: String)
    ensures
        message@ == prefix@ + text@,
{
    let mut message = prefix.to_owned();
    message.append(text);
    message
}

/// The output of a query whose success is required, or why it failed.
pub fn required_output(outcome: &QueryOutcome, not_started: &str) -> (output: Result<
    String,
    String,
>)
    ensures
        match output {
            Ok(text) => required_failure(outcome@, not_started@) is None && text@ == output_of(
                outcome@,
            ),
            Err(why) => required_failure(outcome@, not_started@) == Some(why@),
        },
{
    match outcome {
        QueryOutcome::NotStarted { reason } => Err(prefixed(not_started, reason.as_str())),
        QueryOutcome::Finished { success, stdout, stderr } => {
            if *success {
                Ok(stdout.clone())
            } else {
                Err(stderr.clone())
            }
        },
    }
}

/// The output of a query that only has to start, or why it did not.
pub fn started_output(outcome: &QueryOutcome, not_started: &str) -> (output: Result<
    String,
    String,
>)
    ensures
        match output {
            Ok(text) => started_failure(outcome@, not_started@) is None && text@ == output_of(
                outcome@,
            ),
            Err(why) => started_failure(outcome@, not_started@) == Some(why@),
        },
{
    match outcome {
        QueryOutcome::NotStarted { reason } => Err(prefixed(not_started, reason.as_str())),
        QueryOutcome::Finished { stdout, .. } => Ok(stdout.clone()),
    }
}

/// The output of a query that reports its own failure, or the report.
pub fn reported_output(outcome: &QueryOutcome, not_started: &str, failed: &str) -> (output:
    Result<String, String>)
    ensures
        match output {
            Ok(text) => reported_failure(outcome@, not_started@, failed@) is None && text@
                == output_of(outcome@),
            Err(why) => reported_failure(outcome@, not_started@, failed@) == Some(why@),
        },
{
    match outcome {
        QueryOutcome::NotStarted { reason } => Err(prefixed(not_started, reason.as_str())),
        QueryOutcome::Finished { success, stdout, stderr } => {
            if *success {
                Ok(stdout.clone())
            } else {
                Err(prefixed(failed, stderr.as_str()))
            }
        },
    }
}

/// Why the record of a commit cannot be built, if it cannot: the first
/// failure among the metadata, name-status and numstat queries, whose success
/// is required, and then the queries for the branches and for the tags, which
/// only have to start.
pub open spec fn details_failure(
    metadata: OutcomeModel,
    name_status: OutcomeModel,
    numstat: OutcomeModel,
    branches: OutcomeModel,
    tags: OutcomeModel,
) -> Option<Seq<char>> {
    or_failure(
        required_failure(metadata, SHOW_NOT_STARTED@),
        or_failure(
            required_failure(name_status, NAME_STATUS_NOT_STARTED@),
            or_failure(
                required_failure(numstat, NUMSTAT_NOT_STARTED@),
                or_failure(
                    started_failure(branches, BRANCHES_NOT_STARTED@),
                    started_failure(tags, TAGS_NOT_STARTED@),
                ),
            ),
        ),
    )
}

/// The record of a commit from the outcomes of its five queries. It is
/// built whole or not at all: any failure among them is the answer, and no
/// record is returned with it.
pub fn commit_details_report(
    repository_name: &str,
    repository_path: &str,
    metadata: &QueryOutcome,
    name_status: &QueryOutcome,
    numstat: &QueryOutcome,
    branches: &QueryOutcome,
    tags: &QueryOutcome,
) -> (report: Result<CommitDetails, String>)
    ensures
        match report {
            Ok(details) => {
                &&& details_failure(metadata@, name_status@, numstat@, branches@, tags@) is None
                &&& details@ == details_of(
                    repository_name@,
                    repository_path@,
                    frame(output_of(metadata@), output_of(name_status@), output_of(numstat@)),
                    output_of(tags@),
                    output_of(branches@),
                )
                &&& details.wf()
            },
            Err(why) => details_failure(metadata@, name_status@, numstat@, branches@, tags@)
                == Some(why@),
        },
{
    let metadata_text = match required_output(metadata, SHOW_NOT_STARTED) {
        Ok(text) => text,
        Err(why) => {
            return Err(why);
        },
    };
    let name_status_text = match required_output(name_status, NAME_STATUS_NOT_STARTED) {
        Ok(text) => text,
        Err(why) => {
            return Err(why);
        },
    };
    let numstat_text = match required_output(numstat, NUMSTAT_NOT_STARTED) {
        Ok(text) => text,
        Err(why) => {
            return Err(why);
        },
    };
    let branches_text = match started_output(branches, BRANCHES_NOT_STARTED) {
        Ok(text) => text,
        Err(why) => {
            return Err(why);
        },
    };
    let tags_text = match started_output(tags, TAGS_NOT_STARTED) {
        Ok(text) => text,
        Err(why) => {
            return Err(why);
        },
    };
    let buffer = frame_outputs(
        metadata_text.as_str(),
        name_status_text.as_str(),
        numstat_text.as_str(),
    );
    Ok(
        build_commit_details(
            repository_name,
            repository_path,
            buffer.as_str(),
            tags_text.as_str(),
            branches_text.as_str(),
        ),
    )
}

/// The commits of a repository from the outcome of the log query.
pub fn commit_log_report(outcome: &QueryOutcome) -> (report: Result<Vec<CommitInfo>, String>)
    ensures
        match report {
            Ok(commits) => reported_failure(outcome@, LOG_NOT_STARTED@, LOG_FAILED@) is None
                && commit_views(commits@) == commit_log_of(output_of(outcome@)),
            Err(why) => reported_failure(outcome@, LOG_NOT_STARTED@, LOG_FAILED@) == Some(why@),
        },
{
    match reported_output(outcome, LOG_NOT_STARTED, LOG_FAILED) {
        Ok(text) => Ok(parse_commit_log(text.as_str())),
        Err(why) => Err(why),
    }
}

/// The branches of a repository from the outcome of the branch query.
pub fn branch_list_report(outcome: &QueryOutcome) -> (report: Result<Vec<Branch>, String>)
    ensures
        match report {
            Ok(branches) => reported_failure(
                outcome@,
                BRANCH_LIST_NOT_STARTED@,
                BRANCH_LIST_FAILED@,
            ) is None && branch_views(branches@) == branch_list_of(output_of(outcome@)),
            Err(why) => reported_failure(outcome@, BRANCH_LIST_NOT_STARTED@, BRANCH_LIST_FAILED@)
                == Some(why@),
        },
{
    match reported_output(outcome, BRANCH_LIST_NOT_STARTED, BRANCH_LIST_FAILED) {
        Ok(text) => Ok(parse_branch_list(text.as_str())),
        Err(why) => Err(why),
    }
}

/// What is told of a clone into `target_dir`.
pub fn clone_report(outcome: &QueryOutcome, target_dir: &str) -> (report: Result<String, String>)
    ensures
        match report {
            Ok(message) => reported_failure(outcome@, CLONE_NOT_STARTED@, CLONE_FAILED@) is None
                && message@ == CLONE_DONE@ + target_dir@,
            Err(why) => reported_failure(outcome@, CLONE_NOT_STARTED@, CLONE_FAILED@) == Some(
                why@,
            ),
        },
{
    match reported_output(outcome, CLONE_NOT_STARTED, CLONE_FAILED) {
        Ok(_) => Ok(prefixed(CLONE_DONE, target_dir)),
        Err(why) => Err(why),
    }
}

/// What is told when there is no repository at `path`.
pub fn repository_missing(path: &str) -> (message: String)
    ensures
        message@ == REPOSITORY_MISSING@ + path@,
{
    prefixed(REPOSITORY_MISSING, path)
}

/// What became of the workspace directory, as mathematical values.
pub ghost enum DirectoryModel {
    AlreadyThere,
    Created,
    Failed { reason: Seq<char> },
}

/// What became of the workspace directory.
#[derive(Debug)]
pub enum DirectoryOutcome {
    /// It was there before.
    AlreadyThere,
    /// It was created, with the directories above it.
    Created,
    /// It could not be created.
    Failed { reason: String },
}

impl View for DirectoryOutcome {
    type V = DirectoryModel;

    open spec fn view(&self) -> DirectoryModel {
        match self {
            DirectoryOutcome::AlreadyThere => DirectoryModel::AlreadyThere,
            DirectoryOutcome::Created => DirectoryModel::Created,
            DirectoryOutcome::Failed { reason } => DirectoryModel::Failed { reason: reason@ },
        }
    }
}

/// What is told of setting up the workspace directory at `path`.
pub fn setup_report(path: &str, outcome: &DirectoryOutcome) -> (report: Result<String, String>)
    ensures
        match outcome@ {
            DirectoryModel::AlreadyThere => report matches Ok(message) && message@
                == DIRECTORY_EXISTS@ + path@,
            DirectoryModel::Created => report matches Ok(message) && message@
                == DIRECTORY_CREATED@ + path@,
            DirectoryModel::Failed { reason } => report matches Err(why) && why@
                == DIRECTORY_FAILED@ + reason,
        },
{
    match outcome {
        DirectoryOutcome::AlreadyThere => Ok(prefixed(DIRECTORY_EXISTS, path)),
        DirectoryOutcome::Created => Ok(prefixed(DIRECTORY_CREATED, path)),
        DirectoryOutcome::Failed { reason } => Err(prefixed(DIRECTORY_FAILED, reason.as_str())),
    }
}

} // verus!
