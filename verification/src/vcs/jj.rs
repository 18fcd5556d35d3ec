//! What the operations on a jujutsu repository report.

use vstd::prelude::*;
use crate::ansi_escape::{BOLD, RED, YELLOW};
use crate::error::Error;
use crate::text::{joined, lemma_views_push, views};
use crate::vcs::{FormatOpts, outcome_view};
use crate::vcs::git::{command_output, framed, invalid_utf8, output_lines, paint, painted};

verus! {

/// What `stat` reports for the repository `dir` from the lines of its
/// status: the path, a space and an empty rule, then each line behind a
/// bar, each followed by a line feed.
pub open spec fn stat_report(dir: Seq<char>, lines: Seq<Seq<char>>, fmt: FormatOpts) -> Seq<char> {
    painted(dir, seq![YELLOW@], !fmt.no_colour) + " "@ + painted(
        Seq::empty(),
        seq![BOLD@, RED@],
        !fmt.no_colour,
    ) + "\n"@ + joined(framed(lines, "░"@), "\n"@) + "\n"@
}

/// What `stat` comes to, given what the short status of git and the
/// status of jujutsu wrote: nothing where jujutsu wrote nothing or git
/// wrote the branch line only.
pub open spec fn stat_outcome(
    dir: Seq<char>,
    git_status: Seq<u8>,
    status: Seq<u8>,
    fmt: FormatOpts,
) -> Result<Option<Seq<char>>, Error> {
    match (output_lines(git_status), output_lines(status)) {
        (Some(branch_lines), Some(lines)) => if lines.len() == 0 || branch_lines.len() == 1 {
            Ok(None)
        } else {
            Ok(Some(stat_report(dir, lines, fmt)))
        },
        _ => Err(invalid_utf8()),
    }
}

/// Show jujutsu status
///
/// `git_status` is what `git status -s -b` wrote for the repository
/// `dir`, `status` what `jj status --color=always` wrote.
pub fn stat(dir: &str, git_status: &[u8], status: &[u8], fmt: &FormatOpts) -> (out: Result<
    Option<String>,
    Error,
>)
    ensures
        outcome_view(out) == stat_outcome(dir@, git_status@, status@, *fmt),
{
    let branch_lines = match command_output(git_status) {
        Ok(lines) => lines,
        Err(error) => {
            return Err(error);
        },
    };
    let lines = match command_output(status) {
        Ok(lines) => lines,
        Err(error) => {
            return Err(error);
        },
    };
    if lines.len() == 0 || branch_lines.len() == 1 {
        return Ok(None);
    }
    let yellow: [&str; 1] = [YELLOW];
    let bold_red: [&str; 2] = [BOLD, RED];
    proof {
        assert(views(yellow@) =~= seq![YELLOW@]);
        assert(views(bold_red@) =~= seq![BOLD@, RED@]);
    }
    let mut text = paint(String::from_str(dir), yellow.as_slice(), !fmt.no_colour);
    text.append(" ");
    text.append(paint(String::new(), bold_red.as_slice(), !fmt.no_colour).as_str());
    text.append("\n");
    let ghost all = framed(views(lines@), "░"@);
    let mut shown: Vec<String> = Vec::new();
    let mut i: usize = 0;
    proof {
        assert(views(shown@) =~= all.take(0));
    }
    while i < lines.len()
        invariant
            i <= lines.len(),
            all == framed(views(lines@), "░"@),
            views(shown@) == all.take(i as int),
        decreases lines.len() - i,
    {
        let mut line = String::from_str("░");
        line.append(" ");
        line.append(lines[i].as_str());
        proof {
            lemma_views_push(shown@, line);
            assert(all.take(i + 1) =~= all.take(i as int).push(line@));
        }
        shown.push(line);
        i += 1;
    }
    proof {
        assert(all.take(lines.len() as int) =~= all);
    }
    text.append(crate::text::join(&shown, "\n").as_str());
    text.append("\n");
    Ok(Some(text))
}

/// Sync jujutsu repo
///
/// `raw` is what `jj sync` wrote; nothing of it is reported. What is
/// reported is the status after it.
pub fn sync(
    dir: &str,
    raw: &[u8],
    git_status: &[u8],
    status: &[u8],
    fmt: &FormatOpts,
) -> (out: Result<Option<String>, Error>)
    ensures
        outcome_view(out) == stat_outcome(dir@, git_status@, status@, *fmt),
{
    stat(dir, git_status, status, fmt)
}

} // verus!
