//! The operations that run on one repository, and what they report.

use vstd::prelude::*;
use crate::error::{Error, Failure, message_of};
use crate::text::{chars_of, join, joined, lemma_views_push, same_text, views};
use crate::util::{
    common_ancestor, common_ancestor_text, format_json, json_item, json_object_text, prefix_view,
    remove_common_ancestor, shown_path,
};

pub mod git;
pub mod jj;

verus! {

/// How results are written, fixed for one run.
#[derive(Clone, Debug)]
pub struct FormatOpts {
    /// Write JSON objects in place of text.
    pub use_json: bool,
    /// The leading path that is left out of shown paths, if any.
    pub common_prefix: Option<String>,
    /// Write no escape sequences.
    pub no_colour: bool,
}

/// The options for a run over the repositories `repos`: their common
/// ancestor is the prefix that is left out of shown paths, unless
/// `keep_home` asks for whole paths.
pub fn format_opts(use_json: bool, no_colour: bool, keep_home: bool, repos: &[String]) -> (out:
    FormatOpts)
    ensures
        out.use_json == use_json,
        out.no_colour == no_colour,
        prefix_view(out.common_prefix) == (if keep_home {
            None
        } else {
            Some(common_ancestor_text(views(repos@)))
        }),
{
    FormatOpts {
        use_json,
        common_prefix: if keep_home {
            None
        } else {
            Some(common_ancestor(repos))
        },
        no_colour,
    }
}

/// The outcome of one operation with the text it reports taken by its
/// view.
pub open spec fn outcome_view(outcome: Result<Option<String>, Error>) -> Result<
    Option<Seq<char>>,
    Error,
> {
    match outcome {
        Ok(Some(text)) => Ok(Some(text@)),
        Ok(None) => Ok(None),
        Err(error) => Err(error),
    }
}

/// What names the repository `p` in a report: its JSON item with the
/// path as argument, or its shown path.
pub open spec fn entry_text(p: Seq<char>, fmt: FormatOpts) -> Seq<char> {
    if fmt.use_json {
        json_object_text(json_item(p, None, true, prefix_view(fmt.common_prefix)))
    } else {
        shown_path(p, prefix_view(fmt.common_prefix))
    }
}

/// The entry that names the repository `p`.
pub fn entry(p: &str, fmt: &FormatOpts) -> (out: String)
    ensures
        out@ == entry_text(p@, *fmt),
{
    if fmt.use_json {
        format_json(p, None, true, &fmt.common_prefix)
    } else {
        remove_common_ancestor(p, &fmt.common_prefix)
    }
}

/// List each repo found
pub fn list(p: &str, fmt: &FormatOpts) -> (out: Result<Option<String>, Error>)
    ensures
        outcome_view(out) == Ok::<Option<Seq<char>>, Error>(Some(entry_text(p@, *fmt))),
{
    Ok(Some(entry(p, fmt)))
}

/// The line that is appended to the configuration for the directory
/// `curdir`.
pub open spec fn added_line(curdir: Seq<char>) -> Seq<char> {
    curdir + "\n"@
}

/// Add the current directory to the configuration
///
/// `curdir` is the current directory, `is_repo` whether it is the root
/// of a repository. The result is the text to append to the
/// configuration file.
pub fn add(curdir: &str, is_repo: bool) -> (out: Result<String, Error>)
    ensures
        is_repo ==> (out matches Ok(line) && line@ == added_line(curdir@)),
        !is_repo ==> out == Err::<String, Error>(Error::AddOutsideRepository),
{
    if is_repo {
        let mut line = String::from_str(curdir);
        line.append("\n");
        Ok(line)
    } else {
        Err(Error::AddOutsideRepository)
    }
}

/// What the operations on the repositories report: the text of each
/// outcome that is a text and not empty, in the order of the outcomes.
pub open spec fn reported(outcomes: Seq<(String, Result<Option<String>, Error>)>) -> Seq<Seq<char>>
    decreases outcomes.len(),
{
    if outcomes.len() == 0 {
        Seq::empty()
    } else {
        let before = reported(outcomes.drop_last());
        match outcomes.last().1 {
            Ok(Some(text)) => if text@.len() > 0 {
                before.push(text@)
            } else {
                before
            },
            _ => before,
        }
    }
}

/// What the operation reported for each repository, without the
/// repositories for which it failed or had nothing to report.
///
/// Each outcome stands with the path of its repository.
pub fn collect(outcomes: &Vec<(String, Result<Option<String>, Error>)>) -> (out: Vec<String>)
    ensures
        views(out@) == reported(outcomes@),
{
    let mut out: Vec<String> = Vec::new();
    let mut i: usize = 0;
    proof {
        assert(outcomes@.take(0) =~= Seq::<(String, Result<Option<String>, Error>)>::empty());
        assert(views(out@) =~= reported(outcomes@.take(0)));
    }
    while i < outcomes.len()
        invariant
            i <= outcomes.len(),
            views(out@) == reported(outcomes@.take(i as int)),
        decreases outcomes.len() - i,
    {
        proof {
            assert(outcomes@.take(i + 1).drop_last() =~= outcomes@.take(i as int));
            assert(outcomes@.take(i + 1).last() == outcomes@[i as int]);
        }
        match &outcomes[i].1 {
            Ok(Some(text)) => {
                if !text.as_str().is_empty() {
                    let copy = text.clone();
                    proof {
                        lemma_views_push(out@, copy);
                    }
                    out.push(copy);
                }
            },
            _ => {},
        }
        i += 1;
    }
    proof {
        assert(outcomes@.take(outcomes.len() as int) =~= outcomes@);
    }
    out
}

/// What is written to the error stream for a failure on the repository
/// `repo`.
pub open spec fn failure_line(repo: Seq<char>, error: Error) -> Seq<char> {
    "ERR `"@ + repo + "`: "@ + message_of(error)
}

/// One line for each repository on which the operation failed, in the
/// order of the outcomes.
pub open spec fn failure_lines(outcomes: Seq<(String, Result<Option<String>, Error>)>) -> Seq<
    Seq<char>,
>
    decreases outcomes.len(),
{
    if outcomes.len() == 0 {
        Seq::empty()
    } else {
        let before = failure_lines(outcomes.drop_last());
        match outcomes.last().1 {
            Err(error) => before.push(failure_line(outcomes.last().0@, error)),
            _ => before,
        }
    }
}

/// The lines for the error stream: one for each repository on which the
/// operation failed, with the path of the repository.
pub fn failures(outcomes: &Vec<(String, Result<Option<String>, Error>)>) -> (out: Vec<String>)
    ensures
        views(out@) == failure_lines(outcomes@),
{
    let mut out: Vec<String> = Vec::new();
    let mut i: usize = 0;
    proof {
        assert(outcomes@.take(0) =~= Seq::<(String, Result<Option<String>, Error>)>::empty());
        assert(views(out@) =~= failure_lines(outcomes@.take(0)));
    }
    while i < outcomes.len()
        invariant
            i <= outcomes.len(),
            views(out@) == failure_lines(outcomes@.take(i as int)),
        decreases outcomes.len() - i,
    {
        proof {
            assert(outcomes@.take(i + 1).drop_last() =~= outcomes@.take(i as int));
            assert(outcomes@.take(i + 1).last() == outcomes@[i as int]);
        }
        match &outcomes[i].1 {
            Err(error) => {
                let mut line = String::from_str("ERR `");
                line.append(outcomes[i].0.as_str());
                line.append("`: ");
                line.append(error.message().as_str());
                proof {
                    lemma_views_push(out@, line);
                }
                out.push(line);
            },
            _ => {},
        }
        i += 1;
    }
    proof {
        assert(outcomes@.take(outcomes.len() as int) =~= outcomes@);
    }
    out
}

/// The JSON object that stands in a report without items.
pub open spec fn placeholder() -> Seq<char> {
    json_object_text(json_item("no items"@, None, false, None))
}

/// The items of a JSON report: the results, or the placeholder where
/// there are none.
pub open spec fn items(results: Seq<Seq<char>>) -> Seq<Seq<char>> {
    if results.len() == 0 {
        seq![placeholder()]
    } else {
        results
    }
}

/// The final report. In JSON it is one object whose `items` are the
/// results, never an empty array; in text it is the results with a line
/// feed between them, and nothing at all where there are none.
pub open spec fn report(results: Seq<Seq<char>>, use_json: bool) -> Option<Seq<char>> {
    if use_json {
        Some("{\"items\": ["@ + joined(items(results), ", "@) + "]}"@)
    } else if results.len() == 0 {
        None
    } else {
        Some(joined(results, "\n"@))
    }
}

/// The view of a report that may be absent.
pub open spec fn report_view(text: Option<String>) -> Option<Seq<char>> {
    match text {
        Some(text) => Some(text@),
        None => None,
    }
}

/// Joins the results of all repositories into the final report.
pub fn aggregate(results: &Vec<String>, use_json: bool) -> (out: Option<String>)
    ensures
        report_view(out) == report(views(results@), use_json),
{
    if use_json {
        let mut text = String::from_str("{\"items\": [");
        if results.len() == 0 {
            let mut only: Vec<String> = Vec::new();
            let nothing: Option<String> = None;
            let item = format_json("no items", None, false, &nothing);
            proof {
                lemma_views_push(only@, item);
                assert(views(only@.push(item)) =~= items(views(results@)));
            }
            only.push(item);
            text.append(join(&only, ", ").as_str());
        } else {
            text.append(join(results, ", ").as_str());
        }
        text.append("]}");
        Some(text)
    } else if results.len() == 0 {
        None
    } else {
        Some(join(results, "\n"))
    }
}

/// The operations that can be asked for by name.
#[derive(Clone, Copy, Debug, PartialEq, Eq, Structural)]
pub enum Operation {
    /// Name each repository.
    List,
    /// Show the branch, the commit and the files with changes.
    Stat,
    /// Show in one line how far the branch is ahead and behind, and how
    /// many files are modified and untracked.
    Branchstat,
    /// Show the branches.
    Branches,
    /// Fetch from every remote.
    Fetch,
    /// Push every branch and tag.
    Push,
    /// Pull the upstream branch.
    Pull,
    /// Name each repository that needs attention.
    Unclean,
    /// Name each excluded repository.
    Untracked,
    /// Show the status and the recent commits of each repository that
    /// needs attention.
    Dashboard,
    /// Add the current directory to the configuration.
    Add,
}

/// The operation that goes by the name `name`.
pub open spec fn operation_named(name: Seq<char>) -> Option<Operation> {
    if name == "list"@ {
        Some(Operation::List)
    } else if name == "stat"@ {
        Some(Operation::Stat)
    } else if name == "branchstat"@ {
        Some(Operation::Branchstat)
    } else if name == "branches"@ {
        Some(Operation::Branches)
    } else if name == "fetch"@ {
        Some(Operation::Fetch)
    } else if name == "push"@ {
        Some(Operation::Push)
    } else if name == "pull"@ {
        Some(Operation::Pull)
    } else if name == "unclean"@ {
        Some(Operation::Unclean)
    } else if name == "untracked"@ {
        Some(Operation::Untracked)
    } else if name == "dashboard"@ {
        Some(Operation::Dashboard)
    } else if name == "add"@ {
        Some(Operation::Add)
    } else {
        None
    }
}

/// Whether `name` is the text `literal`.
fn is_named(name: &Vec<char>, literal: &str) -> (same: bool)
    ensures
        same == (name@ == literal@),
{
    same_text(name, &chars_of(literal))
}

/// The operation that goes by the name `name`, if there is one.
pub fn lookup(name: &str) -> (out: Option<Operation>)
    ensures
        out == operation_named(name@),
{
    let cs = chars_of(name);
    if is_named(&cs, "list") {
        Some(Operation::List)
    } else if is_named(&cs, "stat") {
        Some(Operation::Stat)
    } else if is_named(&cs, "branchstat") {
        Some(Operation::Branchstat)
    } else if is_named(&cs, "branches") {
        Some(Operation::Branches)
    } else if is_named(&cs, "fetch") {
        Some(Operation::Fetch)
    } else if is_named(&cs, "push") {
        Some(Operation::Push)
    } else if is_named(&cs, "pull") {
        Some(Operation::Pull)
    } else if is_named(&cs, "unclean") {
        Some(Operation::Unclean)
    } else if is_named(&cs, "untracked") {
        Some(Operation::Untracked)
    } else if is_named(&cs, "dashboard") {
        Some(Operation::Dashboard)
    } else if is_named(&cs, "add") {
        Some(Operation::Add)
    } else {
        None
    }
}

/// The repositories that the operation `op` runs on: the excluded ones
/// for `untracked`, the included ones for every other.
pub fn repos_for(op: Operation, includes: Vec<String>, excludes: Vec<String>) -> (out: Vec<String>)
    ensures
        out == (if op == Operation::Untracked {
            excludes
        } else {
            includes
        }),
{
    match op {
        Operation::Untracked => excludes,
        _ => includes,
    }
}

/// What an operation asks of the repository that it runs on.
#[derive(Clone, Copy, Debug, PartialEq, Eq, Structural)]
pub enum Query {
    /// The short status with the branch line.
    ShortStatus,
    /// The status in its stable form, with the branch line and how far
    /// the branch is ahead and behind.
    PorcelainStatus,
    /// The short hash of the current commit.
    HeadCommit,
    /// The branches, one on each line.
    BranchList,
    /// The commits of the last week.
    LogLastWeek,
    /// The last ten commits.
    LogLastTen,
    /// Fetch from every remote.
    Fetch,
    /// Push every branch and tag.
    Push,
    /// Pull the upstream branch.
    Pull,
}

/// How the run of a command ended.
pub enum Run {
    /// The command could not be started; the text says why.
    NotStarted(String),
    /// The command ran to its end.
    Ended {
        /// Whether it ended with success.
        success: bool,
        /// Its exit status in words.
        status: String,
        /// What it wrote to its standard output.
        stdout: Vec<u8>,
    },
}

/// What the run of the command `command` answers: what it wrote where
/// it ended with success; else the words of the failure, which are the
/// command, `: ` and why it did not start or how it ended.
pub open spec fn answer_of(command: Seq<char>, run: Run) -> Result<Seq<u8>, Seq<char>> {
    match run {
        Run::NotStarted(why) => Err(command + ": "@ + why@),
        Run::Ended { success, status, stdout } => if success {
            Ok(stdout@)
        } else {
            Err(command + ": "@ + status@)
        },
    }
}

/// An answer, or the failure in its place, as plain values: the bytes,
/// or what the failure says.
pub open spec fn answer_view(answer: Result<Vec<u8>, Error>) -> Result<Seq<u8>, Seq<char>> {
    match answer {
        Ok(bytes) => Ok(bytes@),
        Err(error) => Err(message_of(error)),
    }
}

/// The answer of a repository to a query, given how the command for it
/// ended: a command that did not start, or did not end with success,
/// makes the operation fail; any other answers with what it wrote.
pub fn answer(command: &str, run: Run) -> (out: Result<Vec<u8>, Error>)
    ensures
        answer_view(out) == answer_of(command@, run),
        out matches Err(error) ==> error matches Error::RepositoryOperationFailed(
            Failure::Command(_),
        ),
{
    match run {
        Run::NotStarted(why) => {
            let mut how = String::from_str(command);
            how.append(": ");
            how.append(why.as_str());
            Err(Error::RepositoryOperationFailed(Failure::Command(how)))
        },
        Run::Ended { success, status, stdout } => {
            if success {
                Ok(stdout)
            } else {
                let mut how = String::from_str(command);
                how.append(": ");
                how.append(status.as_str());
                Err(Error::RepositoryOperationFailed(Failure::Command(how)))
            }
        },
    }
}

/// What comes next in an operation on one repository.
pub enum Step {
    /// Ask this of the repository, and come back with the answer added
    /// to the answers so far.
    Ask(Query),
    /// The operation has ended, with this outcome.
    Done(Result<Option<String>, Error>),
}

/// A `Step` with the text that it reports taken by its view.
pub enum StepView {
    /// Ask this of the repository.
    Ask(Query),
    /// The operation has ended, with this outcome.
    Done(Result<Option<Seq<char>>, Error>),
}

impl View for Step {
    type V = StepView;

    open spec fn view(&self) -> StepView {
        match *self {
            Step::Ask(query) => StepView::Ask(query),
            Step::Done(outcome) => StepView::Done(outcome_view(outcome)),
        }
    }
}

/// The step that follows once `answers` has an answer to each of
/// `asked`: the first query that has no answer yet, or else `done`.
pub open spec fn ask_then(asked: Seq<Query>, answers: Seq<Seq<u8>>, done: StepView) -> StepView {
    if answers.len() < asked.len() {
        StepView::Ask(asked[answers.len() as int])
    } else {
        done
    }
}

/// What comes next in the operation `op` on the repository `p`, given
/// the answers to what it has asked so far, in the order of the asking.
///
/// `list` and `untracked` ask nothing. `stat` and `unclean` ask for the
/// short status and the commit, `branchstat` for the porcelain status,
/// `branches` for the branches. `fetch`, `push` and `pull` ask for
/// their command to be run and report nothing. `dashboard` asks as
/// `stat` does; for a repository that needs attention it goes on to ask
/// for the commits of the last week and, where there are none, for the
/// last ten. `add` is no operation on a repository and ends at once.
pub open spec fn step_of(
    op: Operation,
    p: Seq<char>,
    answers: Seq<Seq<u8>>,
    fmt: FormatOpts,
) -> StepView {
    match op {
        Operation::List | Operation::Untracked => StepView::Done(Ok(Some(entry_text(p, fmt)))),
        Operation::Stat => ask_then(
            seq![Query::ShortStatus, Query::HeadCommit],
            answers,
            StepView::Done(git::stat_outcome(p, answers[0], answers[1], fmt)),
        ),
        Operation::Unclean => ask_then(
            seq![Query::ShortStatus, Query::HeadCommit],
            answers,
            StepView::Done(git::attention_outcome(p, answers[0], answers[1], fmt)),
        ),
        Operation::Branchstat => ask_then(
            seq![Query::PorcelainStatus],
            answers,
            StepView::Done(git::branchstat_outcome(p, answers[0], fmt)),
        ),
        Operation::Branches => ask_then(
            seq![Query::BranchList],
            answers,
            StepView::Done(git::branches_outcome(p, answers[0], fmt)),
        ),
        Operation::Fetch => ask_then(seq![Query::Fetch], answers, StepView::Done(Ok(None))),
        Operation::Push => ask_then(seq![Query::Push], answers, StepView::Done(Ok(None))),
        Operation::Pull => ask_then(seq![Query::Pull], answers, StepView::Done(Ok(None))),
        Operation::Dashboard => if answers.len() == 0 {
            StepView::Ask(Query::ShortStatus)
        } else if answers.len() == 1 {
            StepView::Ask(Query::HeadCommit)
        } else {
            match git::attention_outcome(p, answers[0], answers[1], fmt) {
                Ok(Some(_)) => if answers.len() < 3 {
                    StepView::Ask(Query::LogLastWeek)
                } else if git::asks_fallback(answers[2]) {
                    if answers.len() < 4 {
                        StepView::Ask(Query::LogLastTen)
                    } else {
                        StepView::Done(
                            git::dashboard_outcome(
                                p,
                                answers[0],
                                answers[1],
                                answers[2],
                                answers[3],
                                fmt,
                            ),
                        )
                    }
                } else {
                    StepView::Done(
                        git::dashboard_outcome(
                            p,
                            answers[0],
                            answers[1],
                            answers[2],
                            Seq::empty(),
                            fmt,
                        ),
                    )
                },
                Ok(None) => StepView::Done(Ok(None)),
                Err(error) => StepView::Done(Err(error)),
            }
        },
        Operation::Add => StepView::Done(Ok(None)),
    }
}

/// What comes next in the operation `op` on the repository `p`.
///
/// `answers` holds what the repository answered to the queries asked so
/// far, in their order. The caller asks what `Step::Ask` names, adds the
/// answer, and calls again, until the step is `Step::Done`.
pub fn next_step(op: Operation, p: &str, answers: &Vec<Vec<u8>>, fmt: &FormatOpts) -> (out: Step)
    ensures
        out@ == step_of(op, p@, views(answers@), *fmt),
{
    let ghost given = views(answers@);
    match op {
        Operation::List => Step::Done(list(p, fmt)),
        Operation::Untracked => Step::Done(git::untracked(p, fmt)),
        Operation::Stat => {
            if answers.len() == 0 {
                Step::Ask(Query::ShortStatus)
            } else if answers.len() == 1 {
                Step::Ask(Query::HeadCommit)
            } else {
                Step::Done(git::stat(p, answers[0].as_slice(), answers[1].as_slice(), fmt))
            }
        },
        Operation::Unclean => {
            if answers.len() == 0 {
                Step::Ask(Query::ShortStatus)
            } else if answers.len() == 1 {
                Step::Ask(Query::HeadCommit)
            } else {
                Step::Done(
                    git::needs_attention(p, answers[0].as_slice(), answers[1].as_slice(), fmt),
                )
            }
        },
        Operation::Branchstat => {
            if answers.len() == 0 {
                Step::Ask(Query::PorcelainStatus)
            } else {
                Step::Done(git::branchstat(p, answers[0].as_slice(), fmt))
            }
        },
        Operation::Branches => {
            if answers.len() == 0 {
                Step::Ask(Query::BranchList)
            } else {
                Step::Done(git::branches(p, answers[0].as_slice(), fmt))
            }
        },
        Operation::Fetch => {
            if answers.len() == 0 {
                Step::Ask(Query::Fetch)
            } else {
                Step::Done(git::fetch(answers[0].as_slice()))
            }
        },
        Operation::Push => {
            if answers.len() == 0 {
                Step::Ask(Query::Push)
            } else {
                Step::Done(git::push(answers[0].as_slice()))
            }
        },
        Operation::Pull => {
            if answers.len() == 0 {
                Step::Ask(Query::Pull)
            } else {
                Step::Done(git::pull(answers[0].as_slice()))
            }
        },
        Operation::Dashboard => {
            if answers.len() == 0 {
                return Step::Ask(Query::ShortStatus);
            }
            if answers.len() == 1 {
                return Step::Ask(Query::HeadCommit);
            }
            match git::needs_attention(p, answers[0].as_slice(), answers[1].as_slice(), fmt) {
                Ok(Some(_)) => {},
                Ok(None) => {
                    return Step::Done(Ok(None));
                },
                Err(error) => {
                    return Step::Done(Err(error));
                },
            }
            if answers.len() == 2 {
                return Step::Ask(Query::LogLastWeek);
            }
            let nothing: Vec<u8> = Vec::new();
            if git::needs_fallback(answers[2].as_slice()) {
                if answers.len() == 3 {
                    return Step::Ask(Query::LogLastTen);
                }
                Step::Done(
                    git::dashboard(
                        p,
                        answers[0].as_slice(),
                        answers[1].as_slice(),
                        answers[2].as_slice(),
                        answers[3].as_slice(),
                        fmt,
                    ),
                )
            } else {
                proof {
                    assert(nothing@ =~= Seq::<u8>::empty());
                }
                Step::Done(
                    git::dashboard(
                        p,
                        answers[0].as_slice(),
                        answers[1].as_slice(),
                        answers[2].as_slice(),
                        nothing.as_slice(),
                        fmt,
                    ),
                )
            }
        },
        Operation::Add => Step::Done(Ok(None)),
    }
}

/// A JSON report is never without items: it holds the results, and the
/// placeholder where there are none. A text report of no results is
/// absent.
pub proof fn lemma_json_report_has_items(results: Seq<Seq<char>>)
    ensures
        items(results).len() > 0,
        report(results, true) is Some,
        results.len() == 0 ==> report(results, true) == Some(
            "{\"items\": ["@ + placeholder() + "]}"@,
        ),
        results.len() == 0 ==> report(results, false) is None,
{
}

/// Only an outcome that is a text, and not empty, adds to what is
/// reported; a failure, and an outcome with nothing to tell, add nothing.
pub proof fn lemma_reported_step(
    outcomes: Seq<(String, Result<Option<String>, Error>)>,
    repo: String,
    outcome: Result<Option<String>, Error>,
)
    ensures
        reported(outcomes.push((repo, outcome))) == (match outcome {
            Ok(Some(text)) => if text@.len() > 0 {
                reported(outcomes).push(text@)
            } else {
                reported(outcomes)
            },
            _ => reported(outcomes),
        }),
        failure_lines(outcomes.push((repo, outcome))) == (match outcome {
            Err(error) => failure_lines(outcomes).push(failure_line(repo@, error)),
            _ => failure_lines(outcomes),
        }),
{
    assert(outcomes.push((repo, outcome)).drop_last() =~= outcomes);
}

} // verus!
