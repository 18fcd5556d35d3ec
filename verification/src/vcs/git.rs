//! What the operations on a git repository report, computed from what
//! the git commands wrote.

use vstd::prelude::*;
use crate::ansi_escape::{BLACK, BLUE, BOLD, GREEN, PURPLE, RED, YELLOW, colour, coloured};
use crate::error::{Error, Failure};
use crate::order::sorted;
use crate::text::{
    by_text, chars_of, decimal, decimal_string, decode, decoded, find_char, find_text, first_index,
    first_match, join, joined, lemma_first_index, lemma_joined_covers, lemma_leading_spaces,
    lemma_pair_views_push, lemma_views_push, lines, lines_of, pad, padded, pair_views, replace,
    replaced, same_text, skip_whitespace, slice_of, sort_texts, starts_with_at, string_of,
    trim_bounds, trimmed, trimmed_start, views,
};
use crate::util::{
    format_json, json_item, json_object_text, prefix_view, remove_common_ancestor, shown_path,
};
use crate::vcs::{FormatOpts, entry, entry_text, outcome_view};

verus! {

/// The error for output that is not UTF-8.
pub open spec fn invalid_utf8() -> Error {
    Error::RepositoryOperationFailed(Failure::InvalidUtf8)
}

/// The lines that a command wrote, if it wrote UTF-8.
pub open spec fn output_lines(stdout: Seq<u8>) -> Option<Seq<Seq<char>>> {
    match decoded(stdout) {
        Some(text) => Some(lines_of(text)),
        None => None,
    }
}

/// The lines of what a command wrote to its standard output.
pub fn command_output(stdout: &[u8]) -> (out: Result<Vec<String>, Error>)
    ensures
        out is Ok <==> output_lines(stdout@) is Some,
        out matches Ok(found) ==> Some(views(found@)) == output_lines(stdout@),
        out matches Err(error) ==> error == invalid_utf8(),
{
    match decode(stdout) {
        Some(cs) => {
            let split = lines(&cs);
            let mut found: Vec<String> = Vec::new();
            let mut i: usize = 0;
            while i < split.len()
                invariant
                    i <= split.len(),
                    views(found@) == views(split@).take(i as int),
                decreases split.len() - i,
            {
                let line = string_of(&split[i], 0, split[i].len());
                proof {
                    lemma_views_push(found@, line);
                    assert(split@[i as int]@.subrange(0, split@[i as int]@.len() as int)
                        =~= split@[i as int]@);
                    assert(views(split@).take(i + 1) =~= views(split@).take(i as int).push(
                        split@[i as int]@,
                    ));
                }
                found.push(line);
                i += 1;
            }
            proof {
                assert(views(split@).take(split.len() as int) =~= views(split@));
            }
            Ok(found)
        },
        None => Err(Error::RepositoryOperationFailed(Failure::InvalidUtf8)),
    }
}

/// The text between the first `[` of `line` and the first `]` after it.
pub open spec fn tracking(line: Seq<char>) -> Option<Seq<char>> {
    let open = first_index(line, '[');
    if open >= line.len() {
        None
    } else {
        let rest = line.skip(open as int + 1);
        let close = first_index(rest, ']');
        if close >= rest.len() {
            None
        } else {
            Some(rest.take(close as int))
        }
    }
}

/// The tracking descriptor in its compact form.
pub open spec fn compact(descriptor: Seq<char>) -> Seq<char> {
    replaced(replaced(descriptor, "ahead "@, "↑"@), "behind "@, "↓"@)
}

/// How far the branch is ahead of and behind its upstream, as the branch
/// line tells it; `None` where the line has no bracketed descriptor.
pub open spec fn indicator_of(line: Seq<char>) -> Option<Seq<char>> {
    match tracking(line) {
        Some(descriptor) => Some(compact(descriptor)),
        None => None,
    }
}

/// The status code of one file line: its first character after leading
/// white space, or, where that is the escape character that starts a
/// colour sequence, the character after the five of that sequence.
pub open spec fn status_code(line: Seq<char>) -> Option<char> {
    let t = trimmed_start(line);
    if t.len() == 0 {
        None
    } else if t[0] == '\u{1b}' {
        if t.len() > 5 {
            Some(t[5])
        } else {
            None
        }
    } else {
        Some(t[0])
    }
}

/// How many of `lines` have the status code `code`.
pub open spec fn count_code(lines: Seq<Seq<char>>, code: char) -> nat
    decreases lines.len(),
{
    if lines.len() == 0 {
        0
    } else {
        count_code(lines.drop_last(), code) + if status_code(lines.last()) == Some(code) {
            1nat
        } else {
            0nat
        }
    }
}

/// No more lines have a code than there are lines.
pub proof fn lemma_count_code_bound(lines: Seq<Seq<char>>, code: char)
    ensures
        count_code(lines, code) <= lines.len(),
    decreases lines.len(),
{
    if lines.len() > 0 {
        lemma_count_code_bound(lines.drop_last(), code);
    }
}

/// The lines after the first.
pub open spec fn after_first(lines: Seq<Seq<char>>) -> Seq<Seq<char>> {
    if lines.len() == 0 {
        lines
    } else {
        lines.skip(1)
    }
}

/// The name of the branch that the branch line `line` tells: what stands
/// between `## ` and `...`, with `HEAD` for a detached head, and
/// `unknown` where the line does not start with `## `.
pub open spec fn branch_of(line: Seq<char>) -> Seq<char> {
    if "## "@.is_prefix_of(line) {
        let part = line.skip("## "@.len() as int);
        let name = part.take(first_match(part, "..."@) as int);
        if name == "HEAD (no branch)"@ {
            "HEAD"@
        } else {
            name
        }
    } else {
        "unknown"@
    }
}

/// The branch that `lines` are about; `unknown` where there is no line.
pub open spec fn branch_name(lines: Seq<Seq<char>>) -> Seq<char> {
    if lines.len() == 0 {
        "unknown"@
    } else {
        branch_of(lines[0])
    }
}

/// What the status of one repository comes to.
pub struct StatusSummary {
    /// The name of the current branch.
    pub branch: String,
    /// How far the branch is ahead of and behind its upstream.
    pub indicator: Option<String>,
    /// The number of files with the status code `M`.
    pub modified: usize,
    /// The number of files with the status code `?`.
    pub untracked: usize,
}

/// A `StatusSummary` as plain values.
pub struct Summary {
    /// The name of the current branch.
    pub branch: Seq<char>,
    /// How far the branch is ahead of and behind its upstream.
    pub indicator: Option<Seq<char>>,
    /// The number of files with the status code `M`.
    pub modified: nat,
    /// The number of files with the status code `?`.
    pub untracked: nat,
}

impl View for StatusSummary {
    type V = Summary;

    open spec fn view(&self) -> Summary {
        Summary {
            branch: self.branch@,
            indicator: match self.indicator {
                Some(text) => Some(text@),
                None => None,
            },
            modified: self.modified as nat,
            untracked: self.untracked as nat,
        }
    }
}

/// The summary of the status lines `lines`: the first is the branch
/// line, each of the others stands for one file.
pub open spec fn summary_of(lines: Seq<Seq<char>>) -> Summary {
    Summary {
        branch: branch_name(lines),
        indicator: if lines.len() == 0 {
            None
        } else {
            indicator_of(lines[0])
        },
        modified: count_code(after_first(lines), 'M'),
        untracked: count_code(after_first(lines), '?'),
    }
}

/// The name of the branch that the branch line tells.
pub fn branch_in(line: &str) -> (out: String)
    ensures
        out@ == branch_of(line@),
{
    let cs = chars_of(line);
    let marker = chars_of("## ");
    if starts_with_at(&cs, 0, &marker) {
        proof {
            assert(cs@.skip(0) =~= cs@);
        }
        let dots = chars_of("...");
        let start = marker.len();
        let end = find_text(&cs, &dots, start);
        let detached = chars_of("HEAD (no branch)");
        let name = slice_of(&cs, start, end);
        proof {
            let part = cs@.skip(start as int);
            assert(name@ =~= part.take(first_match(part, dots@) as int));
        }
        if same_text(&name, &detached) {
            String::from_str("HEAD")
        } else {
            string_of(&name, 0, name.len())
        }
    } else {
        proof {
            assert(cs@.skip(0) =~= cs@);
        }
        String::from_str("unknown")
    }
}

/// The compact form of the tracking descriptor in the branch line.
pub fn indicator_in(line: &str) -> (out: Option<String>)
    ensures
        out is Some <==> indicator_of(line@) is Some,
        out matches Some(text) ==> Some(text@) == indicator_of(line@),
{
    let cs = chars_of(line);
    let open = find_char(&cs, '[', 0);
    proof {
        assert(cs@.skip(0) =~= cs@);
    }
    if open >= cs.len() {
        return None;
    }
    let close = find_char(&cs, ']', open + 1);
    if close >= cs.len() {
        return None;
    }
    let descriptor = slice_of(&cs, open + 1, close);
    proof {
        let rest = cs@.skip(open + 1);
        assert(descriptor@ =~= rest.take(first_index(rest, ']') as int));
    }
    let ahead = replace(&descriptor, &chars_of("ahead "), &chars_of("↑"));
    let both = replace(&ahead, &chars_of("behind "), &chars_of("↓"));
    Some(string_of(&both, 0, both.len()))
}

/// The status code of one file line.
pub fn status_code_in(line: &str) -> (out: Option<char>)
    ensures
        out == status_code(line@),
{
    let cs = chars_of(line);
    let at = skip_whitespace(&cs, 0);
    proof {
        assert(cs@.skip(0) =~= cs@);
        lemma_leading_spaces(cs@);
    }
    if at >= cs.len() {
        None
    } else if cs[at] == '\u{1b}' {
        if cs.len() - at > 5 {
            Some(cs[at + 5])
        } else {
            None
        }
    } else {
        Some(cs[at])
    }
}

/// Reads the branch line and the file lines of a status query.
pub fn parse_status(lines: &Vec<String>) -> (summary: StatusSummary)
    ensures
        summary@ == summary_of(views(lines@)),
{
    let ghost all = views(lines@);
    if lines.len() == 0 {
        return StatusSummary {
            branch: String::from_str("unknown"),
            indicator: None,
            modified: 0,
            untracked: 0,
        };
    }
    let branch = branch_in(lines[0].as_str());
    let indicator = indicator_in(lines[0].as_str());
    let mut modified: usize = 0;
    let mut untracked: usize = 0;
    let mut i: usize = 1;
    proof {
        assert(all.subrange(1, 1) =~= Seq::<Seq<char>>::empty());
    }
    while i < lines.len()
        invariant
            1 <= i <= lines.len(),
            all == views(lines@),
            modified == count_code(all.subrange(1, i as int), 'M'),
            untracked == count_code(all.subrange(1, i as int), '?'),
        decreases lines.len() - i,
    {
        let code = status_code_in(lines[i].as_str());
        proof {
            let seen = all.subrange(1, i as int);
            let next = all.subrange(1, i + 1);
            assert(next.drop_last() =~= seen);
            assert(next.last() == lines@[i as int]@);
            lemma_count_code_bound(seen, 'M');
            lemma_count_code_bound(seen, '?');
        }
        if code == Some('M') {
            modified += 1;
        }
        if code == Some('?') {
            untracked += 1;
        }
        i += 1;
    }
    proof {
        assert(all.subrange(1, lines.len() as int) =~= all.skip(1));
    }
    StatusSummary { branch, indicator, modified, untracked }
}

/// `text` in the styles `colours` where `on` holds, and as it stands
/// where not.
pub open spec fn painted(text: Seq<char>, colours: Seq<Seq<char>>, on: bool) -> Seq<char> {
    if on {
        coloured(text, colours)
    } else {
        text
    }
}

/// `text` in the styles `colours`, if `on`.
pub fn paint(text: String, colours: &[&str], on: bool) -> (out: String)
    ensures
        out@ == painted(text@, views(colours@), on),
{
    if on {
        colour(text.as_str(), colours)
    } else {
        text
    }
}

/// The part of a summary that counts `n` things marked `mark`; no part
/// where there are none.
pub open spec fn count_part(n: nat, mark: Seq<char>, colour: Seq<char>, on: bool) -> Seq<
    Seq<char>,
> {
    if n > 0 {
        seq![painted(decimal(n) + mark, seq![colour], on)]
    } else {
        Seq::empty()
    }
}

/// The parts of the one-line summary: the ahead and behind indicator,
/// the modified files and the untracked files, each only where there is
/// something to tell.
pub open spec fn summary_parts(summary: Summary, on: bool) -> Seq<Seq<char>> {
    (match summary.indicator {
        Some(text) => seq![painted(text, seq![BLUE@], on)],
        None => Seq::empty(),
    }) + count_part(summary.modified, "±"@, GREEN@, on) + count_part(
        summary.untracked,
        "?"@,
        YELLOW@,
        on,
    )
}

/// The one-line summary: its parts with `, ` between them.
pub open spec fn summary_text(summary: Summary, on: bool) -> Seq<char> {
    joined(summary_parts(summary, on), ", "@)
}

/// The summary is empty where there is no indicator and no file is
/// modified or untracked, and it is not empty where a file is.
pub proof fn lemma_summary_empty(summary: Summary, on: bool)
    ensures
        summary.indicator is None && summary.modified == 0 && summary.untracked == 0
            ==> summary_text(summary, on).len() == 0,
        summary.modified > 0 || summary.untracked > 0 ==> summary_text(summary, on).len() > 0,
{
    let parts = summary_parts(summary, on);
    let first: Seq<Seq<char>> = match summary.indicator {
        Some(text) => seq![painted(text, seq![BLUE@], on)],
        None => Seq::empty(),
    };
    let modified = count_part(summary.modified, "±"@, GREEN@, on);
    let untracked = count_part(summary.untracked, "?"@, YELLOW@, on);
    assert(parts == first + modified + untracked);
    if summary.modified > 0 {
        let at = first.len() as int;
        assert(parts[at] == modified[0]);
        assert(decimal(summary.modified).len() > 0);
        assert(modified[0].len() > 0);
        lemma_joined_covers(parts, ", "@, at);
    } else if summary.untracked > 0 {
        let at = first.len() as int;
        assert(modified.len() == 0);
        assert(parts[at] == untracked[0]);
        assert(decimal(summary.untracked).len() > 0);
        assert(untracked[0].len() > 0);
        lemma_joined_covers(parts, ", "@, at);
    } else if summary.indicator is None {
        assert(parts =~= Seq::<Seq<char>>::empty());
    }
}

/// Appends the part that counts `n` things marked `mark`, if there are
/// any.
fn push_count(parts: &mut Vec<String>, n: usize, mark: &str, colour: &'static str, on: bool)
    ensures
        views(final(parts)@) == views(old(parts)@) + count_part(n as nat, mark@, colour@, on),
{
    if n > 0 {
        let mut text = decimal_string(n);
        text.append(mark);
        let shades: [&str; 1] = [colour];
        let part = paint(text, shades.as_slice(), on);
        proof {
            lemma_views_push(parts@, part);
            assert(views(shades@) =~= seq![colour@]);
            assert(views(parts@).push(part@) =~= views(parts@) + count_part(
                n as nat,
                mark@,
                colour@,
                on,
            ));
        }
        parts.push(part);
    } else {
        proof {
            assert(views(parts@) + Seq::<Seq<char>>::empty() =~= views(parts@));
        }
    }
}

impl StatusSummary {
    /// The one-line summary, in colour where `on` holds.
    pub fn line(&self, on: bool) -> (out: String)
        ensures
            out@ == summary_text(self@, on),
    {
        let mut parts: Vec<String> = Vec::new();
        proof {
            assert(views(parts@) =~= Seq::<Seq<char>>::empty());
        }
        match &self.indicator {
            Some(text) => {
                let shades: [&str; 1] = [BLUE];
                let part = paint(text.clone(), shades.as_slice(), on);
                proof {
                    lemma_views_push(parts@, part);
                    assert(views(shades@) =~= seq![BLUE@]);
                    assert(views(parts@.push(part)) =~= seq![painted(text@, seq![BLUE@], on)]);
                }
                parts.push(part);
            },
            None => {},
        }
        push_count(&mut parts, self.modified, "±", GREEN, on);
        push_count(&mut parts, self.untracked, "?", YELLOW, on);
        join(&parts, ", ")
    }

    /// The one-line summary without colour; empty where the repository
    /// needs no attention.
    pub fn summary(&self) -> (out: String)
        ensures
            out@ == summary_text(self@, false),
    {
        self.line(false)
    }
}

/// What `branchstat` reports for the repository `p` from the lines of
/// its status: nothing where the summary is empty; in JSON the item of
/// the repository with the summary as subtitle; in text the shown path,
/// filled up to 40 characters, then ` | ` and the summary.
pub open spec fn branchstat_report(
    p: Seq<char>,
    lines: Seq<Seq<char>>,
    fmt: FormatOpts,
) -> Option<Seq<char>> {
    let summary = summary_text(summary_of(lines), !fmt.no_colour && !fmt.use_json);
    if summary.len() == 0 {
        None
    } else if fmt.use_json {
        Some(json_object_text(json_item(p, Some(summary), true, prefix_view(fmt.common_prefix))))
    } else {
        Some(
            padded(
                painted(
                    shown_path(p, prefix_view(fmt.common_prefix)),
                    seq![BOLD@, RED@],
                    !fmt.no_colour,
                ),
                40,
            ) + " | "@ + summary,
        )
    }
}

/// What `branchstat` comes to, given what the status query wrote.
pub open spec fn branchstat_outcome(p: Seq<char>, status: Seq<u8>, fmt: FormatOpts) -> Result<
    Option<Seq<char>>,
    Error,
> {
    match output_lines(status) {
        Some(lines) => Ok(branchstat_report(p, lines, fmt)),
        None => Err(invalid_utf8()),
    }
}

/// Get the status _of each branch_
///
/// `status` is what `git status --porcelain --ahead-behind -b` wrote for
/// the repository `p`.
pub fn branchstat(p: &str, status: &[u8], fmt: &FormatOpts) -> (out: Result<Option<String>, Error>)
    ensures
        outcome_view(out) == branchstat_outcome(p@, status@, *fmt),
{
    let lines = match command_output(status) {
        Ok(lines) => lines,
        Err(error) => {
            return Err(error);
        },
    };
    let summary = parse_status(&lines).line(!fmt.no_colour && !fmt.use_json);
    if summary.as_str().is_empty() {
        return Ok(None);
    }
    let s = if fmt.use_json {
        format_json(p, Some(summary.as_str()), true, &fmt.common_prefix)
    } else {
        let shades: [&str; 2] = [BOLD, RED];
        let name = paint(
            remove_common_ancestor(p, &fmt.common_prefix),
            shades.as_slice(),
            !fmt.no_colour,
        );
        proof {
            assert(views(shades@) =~= seq![BOLD@, RED@]);
        }
        let mut line = pad(name.as_str(), 40);
        line.append(" | ");
        line.append(summary.as_str());
        line
    };
    Ok(Some(s))
}

/// The status codes and the file that one status line tells: the line
/// without the white space around it, cut at its first space. A blank
/// line tells nothing.
pub open spec fn status_entry(line: Seq<char>) -> Option<(Seq<char>, Seq<char>)> {
    let t = trimmed(line);
    if t.len() == 0 {
        None
    } else {
        let end = first_index(t, ' ') as int;
        Some((t.take(end), trimmed(t.skip(end))))
    }
}

/// What the file lines `lines` tell, in order.
pub open spec fn status_entries(lines: Seq<Seq<char>>) -> Seq<(Seq<char>, Seq<char>)>
    decreases lines.len(),
{
    if lines.len() == 0 {
        Seq::empty()
    } else {
        let before = status_entries(lines.drop_last());
        match status_entry(lines.last()) {
            Some(found) => before.push(found),
            None => before,
        }
    }
}

/// The status codes and the file of one status line.
pub fn status_entry_in(line: &str) -> (out: Option<(String, String)>)
    ensures
        out is Some <==> status_entry(line@) is Some,
        out matches Some(found) ==> Some((found.0@, found.1@)) == status_entry(line@),
{
    let cs = chars_of(line);
    let (from, to) = trim_bounds(&cs);
    if from == to {
        return None;
    }
    let t = slice_of(&cs, from, to);
    let end = find_char(&t, ' ', 0);
    proof {
        assert(t@.skip(0) =~= t@);
        lemma_first_index(t@, ' ');
    }
    let status = string_of(&t, 0, end);
    let rest = slice_of(&t, end, t.len());
    let (file_from, file_to) = trim_bounds(&rest);
    let file = string_of(&rest, file_from, file_to);
    proof {
        assert(rest@ =~= t@.skip(end as int));
    }
    Some((status, file))
}

/// Parse git status -s -b output into branch info and vector of (status, filepath) tuples
pub fn parse_git_status(out_lines: &Vec<String>) -> (out: (String, Vec<(String, String)>))
    ensures
        out.0@ == branch_name(views(out_lines@)),
        pair_views(out.1@) == status_entries(after_first(views(out_lines@))),
{
    let ghost all = views(out_lines@);
    let mut result: Vec<(String, String)> = Vec::new();
    proof {
        assert(pair_views(result@) =~= Seq::<(Seq<char>, Seq<char>)>::empty());
    }
    if out_lines.len() == 0 {
        return (String::from_str("unknown"), result);
    }
    let branch = branch_in(out_lines[0].as_str());
    let mut i: usize = 1;
    proof {
        assert(all.subrange(1, 1) =~= Seq::<Seq<char>>::empty());
    }
    while i < out_lines.len()
        invariant
            1 <= i <= out_lines.len(),
            all == views(out_lines@),
            pair_views(result@) == status_entries(all.subrange(1, i as int)),
        decreases out_lines.len() - i,
    {
        proof {
            let next = all.subrange(1, i + 1);
            assert(next.drop_last() =~= all.subrange(1, i as int));
            assert(next.last() == out_lines@[i as int]@);
        }
        match status_entry_in(out_lines[i].as_str()) {
            Some(found) => {
                proof {
                    lemma_pair_views_push(result@, found);
                }
                result.push(found);
            },
            None => {},
        }
        i += 1;
    }
    proof {
        assert(all.subrange(1, out_lines.len() as int) =~= all.skip(1));
    }
    (branch, result)
}

/// What a command wrote, without the white space around it.
pub open spec fn trimmed_output(stdout: Seq<u8>) -> Option<Seq<char>> {
    match decoded(stdout) {
        Some(text) => Some(trimmed(text)),
        None => None,
    }
}

/// What a command wrote, without the white space around it.
fn trim_output(stdout: &[u8]) -> (out: Result<String, Error>)
    ensures
        out is Ok <==> trimmed_output(stdout@) is Some,
        out matches Ok(text) ==> Some(text@) == trimmed_output(stdout@),
        out matches Err(error) ==> error == invalid_utf8(),
{
    match decode(stdout) {
        Some(cs) => {
            let (from, to) = trim_bounds(&cs);
            Ok(string_of(&cs, from, to))
        },
        None => Err(Error::RepositoryOperationFailed(Failure::InvalidUtf8)),
    }
}

/// Get short commit hash for current HEAD
///
/// `stdout` is what `git rev-parse --short HEAD` wrote.
pub fn get_short_commit_hash(stdout: &[u8]) -> (out: Result<String, Error>)
    ensures
        out is Ok <==> trimmed_output(stdout@) is Some,
        out matches Ok(text) ==> Some(text@) == trimmed_output(stdout@),
        out matches Err(error) ==> error == invalid_utf8(),
{
    trim_output(stdout)
}

/// The recent commits: those of the last week where the log of the last
/// week tells any, else what the log of the last ten commits tells.
pub open spec fn recent_commits(last_week: Seq<u8>, last_ten: Seq<u8>) -> Result<Seq<char>, Error> {
    match trimmed_output(last_week) {
        None => Err(invalid_utf8()),
        Some(commits) => if commits.len() > 0 {
            Ok(commits)
        } else {
            match trimmed_output(last_ten) {
                None => Err(invalid_utf8()),
                Some(fallback) => Ok(fallback),
            }
        },
    }
}

/// Whether the log of the last ten commits is needed: the log of the
/// last week is text and tells no commit.
pub open spec fn asks_fallback(last_week: Seq<u8>) -> bool {
    trimmed_output(last_week) matches Some(commits) && commits.len() == 0
}

/// Whether the log of the last ten commits is needed.
pub fn needs_fallback(last_week: &[u8]) -> (needed: bool)
    ensures
        needed == asks_fallback(last_week@),
{
    match trim_output(last_week) {
        Ok(commits) => commits.as_str().is_empty(),
        Err(_) => false,
    }
}

/// Get recent commits - last week's commits if any, otherwise 10 most recent
///
/// `last_week` is what `git log` wrote for the last week, `last_ten`
/// what it wrote for the last ten commits; `last_ten` is read only
/// where `needs_fallback(last_week)` holds.
pub fn get_recent_commits(last_week: &[u8], last_ten: &[u8]) -> (out: Result<String, Error>)
    ensures
        out is Ok <==> recent_commits(last_week@, last_ten@) is Ok,
        out matches Ok(text) ==> Ok::<Seq<char>, Error>(text@) == recent_commits(
            last_week@,
            last_ten@,
        ),
        out matches Err(error) ==> error == invalid_utf8(),
{
    match trim_output(last_week) {
        Ok(commits) => {
            if !commits.as_str().is_empty() {
                Ok(commits)
            } else {
                trim_output(last_ten)
            }
        },
        Err(error) => Err(error),
    }
}

/// One line for each status entry: the status codes, green where `on`
/// holds, a space and the file.
pub open spec fn file_lines(entries: Seq<(Seq<char>, Seq<char>)>, on: bool) -> Seq<Seq<char>> {
    Seq::new(
        entries.len(),
        |i: int| painted(entries[i].0, seq![GREEN@], on) + " "@ + entries[i].1,
    )
}

/// The list of files: the lines of the entries with a line feed between
/// them.
pub open spec fn file_list(entries: Seq<(Seq<char>, Seq<char>)>, on: bool) -> Seq<char> {
    joined(file_lines(entries, on), "\n"@)
}

/// Format the file list from status vector for display
pub fn format_file_list(status_vec: &Vec<(String, String)>, on: bool) -> (out: String)
    ensures
        out@ == file_list(pair_views(status_vec@), on),
{
    let ghost entries = pair_views(status_vec@);
    let mut shown: Vec<String> = Vec::new();
    let mut i: usize = 0;
    while i < status_vec.len()
        invariant
            i <= status_vec.len(),
            entries == pair_views(status_vec@),
            views(shown@) == file_lines(entries, on).take(i as int),
        decreases status_vec.len() - i,
    {
        let shades: [&str; 1] = [GREEN];
        let mut line = paint(status_vec[i].0.clone(), shades.as_slice(), on);
        line.append(" ");
        line.append(status_vec[i].1.as_str());
        proof {
            assert(views(shades@) =~= seq![GREEN@]);
            lemma_views_push(shown@, line);
            assert(file_lines(entries, on).take(i + 1) =~= file_lines(entries, on).take(
                i as int,
            ).push(line@));
        }
        shown.push(line);
        i += 1;
    }
    proof {
        assert(file_lines(entries, on).take(status_vec.len() as int) =~= file_lines(entries, on));
    }
    join(&shown, "\n")
}

/// The line that heads a report on the repository `p`: its shown path,
/// its branch and its commit.
pub open spec fn heading(
    p: Seq<char>,
    branch: Seq<char>,
    commit: Seq<char>,
    fmt: FormatOpts,
) -> Seq<char> {
    painted(shown_path(p, prefix_view(fmt.common_prefix)), seq![PURPLE@], !fmt.no_colour) + " on "@
        + painted(branch, seq![BLUE@], !fmt.no_colour) + " at "@ + painted(
        commit,
        seq![YELLOW@],
        !fmt.no_colour,
    )
}

/// The line that heads a report on the repository `p`.
fn head_line(p: &str, branch: String, commit: String, fmt: &FormatOpts) -> (out: String)
    ensures
        out@ == heading(p@, branch@, commit@, *fmt),
{
    let purple: [&str; 1] = [PURPLE];
    let blue: [&str; 1] = [BLUE];
    let yellow: [&str; 1] = [YELLOW];
    proof {
        assert(views(purple@) =~= seq![PURPLE@]);
        assert(views(blue@) =~= seq![BLUE@]);
        assert(views(yellow@) =~= seq![YELLOW@]);
    }
    let mut out = paint(
        remove_common_ancestor(p, &fmt.common_prefix),
        purple.as_slice(),
        !fmt.no_colour,
    );
    out.append(" on ");
    out.append(paint(branch, blue.as_slice(), !fmt.no_colour).as_str());
    out.append(" at ");
    out.append(paint(commit, yellow.as_slice(), !fmt.no_colour).as_str());
    out
}

/// What `stat` reports for the repository `p` from the lines of its
/// short status and its commit: nothing where no file is listed; in JSON
/// the item of the repository with the list of files as subtitle; in
/// text the heading, a line feed, the list of files and a line feed.
pub open spec fn stat_report(
    p: Seq<char>,
    lines: Seq<Seq<char>>,
    commit: Seq<char>,
    fmt: FormatOpts,
) -> Option<Seq<char>> {
    let files = file_list(
        status_entries(after_first(lines)),
        !fmt.no_colour && !fmt.use_json,
    );
    if files.len() == 0 {
        None
    } else if fmt.use_json {
        Some(json_object_text(json_item(p, Some(files), true, prefix_view(fmt.common_prefix))))
    } else {
        Some(heading(p, branch_name(lines), commit, fmt) + "\n"@ + files + "\n"@)
    }
}

/// What `stat` comes to, given what the status query and the query for
/// the commit wrote.
pub open spec fn stat_outcome(
    p: Seq<char>,
    status: Seq<u8>,
    head: Seq<u8>,
    fmt: FormatOpts,
) -> Result<Option<Seq<char>>, Error> {
    match (output_lines(status), trimmed_output(head)) {
        (Some(lines), Some(commit)) => Ok(stat_report(p, lines, commit, fmt)),
        _ => Err(invalid_utf8()),
    }
}

/// Get the short status (ahead, behind, and modified files) of a repo
///
/// `status` is what `git status -s -b` wrote for the repository `p`,
/// `head` what `git rev-parse --short HEAD` wrote.
pub fn stat(p: &str, status: &[u8], head: &[u8], fmt: &FormatOpts) -> (out: Result<
    Option<String>,
    Error,
>)
    ensures
        outcome_view(out) == stat_outcome(p@, status@, head@, *fmt),
{
    let lines = match command_output(status) {
        Ok(lines) => lines,
        Err(error) => {
            return Err(error);
        },
    };
    let (branch, status_vec) = parse_git_status(&lines);
    let commit_hash = match get_short_commit_hash(head) {
        Ok(text) => text,
        Err(error) => {
            return Err(error);
        },
    };
    let file_list = format_file_list(&status_vec, !fmt.no_colour && !fmt.use_json);
    if file_list.as_str().is_empty() {
        return Ok(None);
    }
    let s = if fmt.use_json {
        format_json(p, Some(file_list.as_str()), true, &fmt.common_prefix)
    } else {
        let mut text = head_line(p, branch, commit_hash, fmt);
        text.append("\n");
        text.append(file_list.as_str());
        text.append("\n");
        text
    };
    Ok(Some(s))
}

/// What `needs_attention` comes to: the entry of the repository where
/// `stat` reports something, nothing where it reports nothing.
pub open spec fn attention_outcome(
    p: Seq<char>,
    status: Seq<u8>,
    head: Seq<u8>,
    fmt: FormatOpts,
) -> Result<Option<Seq<char>>, Error> {
    match stat_outcome(p, status, head, fmt) {
        Ok(Some(report)) => if report.len() == 0 {
            Ok(None)
        } else {
            Ok(Some(entry_text(p, fmt)))
        },
        Ok(None) => Ok(None),
        Err(error) => Err(error),
    }
}

/// Get the name of any repo with local or remote changes
pub fn needs_attention(p: &str, status: &[u8], head: &[u8], fmt: &FormatOpts) -> (out: Result<
    Option<String>,
    Error,
>)
    ensures
        outcome_view(out) == attention_outcome(p@, status@, head@, *fmt),
{
    match stat(p, status, head, fmt) {
        Ok(Some(output)) => {
            if output.as_str().is_empty() {
                Ok(None)
            } else {
                Ok(Some(entry(p, fmt)))
            }
        },
        Ok(None) => Ok(None),
        Err(e) => Err(e),
    }
}

/// List each untracked repo found
pub fn untracked(p: &str, fmt: &FormatOpts) -> (out: Result<Option<String>, Error>)
    ensures
        outcome_view(out) == Ok::<Option<Seq<char>>, Error>(Some(entry_text(p@, *fmt))),
{
    Ok(Some(entry(p, fmt)))
}

/// Push all changes to the branch
///
/// `raw` is what `git push --all --tags` wrote; nothing of it is
/// reported.
pub fn push(raw: &[u8]) -> (out: Result<Option<String>, Error>)
    ensures
        out == Ok::<Option<String>, Error>(None),
{
    Ok(None)
}

/// Fetch all branches of a git repo
///
/// `raw` is what `git fetch --all --tags` wrote; nothing of it is
/// reported.
pub fn fetch(raw: &[u8]) -> (out: Result<Option<String>, Error>)
    ensures
        out == Ok::<Option<String>, Error>(None),
{
    Ok(None)
}

/// Pull the commits of the upstream branch
///
/// `raw` is what `git pull` wrote; nothing of it is reported.
pub fn pull(raw: &[u8]) -> (out: Result<Option<String>, Error>)
    ensures
        out == Ok::<Option<String>, Error>(None),
{
    Ok(None)
}

/// Each of `lines` followed by a line feed.
pub open spec fn commit_block(lines: Seq<Seq<char>>) -> Seq<char>
    decreases lines.len(),
{
    if lines.len() == 0 {
        Seq::empty()
    } else {
        commit_block(lines.drop_last()) + lines.last() + "\n"@
    }
}

/// What the dashboard shows below its heading: the list of files and,
/// where there are recent commits, an empty line, a title and the
/// commits.
pub open spec fn dashboard_body(files: Seq<char>, commits: Seq<char>) -> Seq<char> {
    if commits.len() > 0 {
        files + "\n\n"@ + "Recent commits:\n"@ + commit_block(lines_of(commits))
    } else {
        files
    }
}

/// Each of `lines` behind `bar` and a space.
pub open spec fn framed(lines: Seq<Seq<char>>, bar: Seq<char>) -> Seq<Seq<char>> {
    Seq::new(lines.len(), |i: int| bar + " "@ + lines[i])
}

/// What `dashboard` reports for a repository that needs attention: an
/// empty line, the heading, and each line of the body behind a bar.
pub open spec fn dashboard_report(
    p: Seq<char>,
    lines: Seq<Seq<char>>,
    commit: Seq<char>,
    commits: Seq<char>,
    fmt: FormatOpts,
) -> Seq<char> {
    "\n"@ + heading(p, branch_name(lines), commit, fmt) + "\n"@ + joined(
        framed(
            lines_of(
                dashboard_body(
                    file_list(status_entries(after_first(lines)), !fmt.no_colour),
                    commits,
                ),
            ),
            painted("░"@, seq![BLACK@], !fmt.no_colour),
        ),
        "\n"@,
    )
}

/// What `dashboard` comes to: nothing for a repository that needs no
/// attention, else its report with the recent commits.
pub open spec fn dashboard_outcome(
    p: Seq<char>,
    status: Seq<u8>,
    head: Seq<u8>,
    last_week: Seq<u8>,
    last_ten: Seq<u8>,
    fmt: FormatOpts,
) -> Result<Option<Seq<char>>, Error> {
    match attention_outcome(p, status, head, fmt) {
        Err(error) => Err(error),
        Ok(None) => Ok(None),
        Ok(Some(_)) => match recent_commits(last_week, last_ten) {
            Err(error) => Err(error),
            Ok(commits) => Ok(
                Some(
                    dashboard_report(
                        p,
                        output_lines(status)->0,
                        trimmed_output(head)->0,
                        commits,
                        fmt,
                    ),
                ),
            ),
        },
    }
}

/// What the dashboard shows below its heading.
fn body_text(files: &str, commits: &str) -> (out: String)
    ensures
        out@ == dashboard_body(files@, commits@),
{
    let mut output = String::from_str(files);
    if !commits.is_empty() {
        output.append("\n\n");
        output.append("Recent commits:\n");
        let commit_lines = lines(&chars_of(commits));
        let ghost head = output@;
        let ghost all = views(commit_lines@);
        let mut i: usize = 0;
        while i < commit_lines.len()
            invariant
                i <= commit_lines.len(),
                all == views(commit_lines@),
                output@ == head + commit_block(all.take(i as int)),
            decreases commit_lines.len() - i,
        {
            let line = string_of(&commit_lines[i], 0, commit_lines[i].len());
            output.append(line.as_str());
            output.append("\n");
            proof {
                let next = all.take(i + 1);
                assert(next.drop_last() =~= all.take(i as int));
                assert(line@ =~= commit_lines@[i as int]@);
                assert(next.last() == line@);
                assert(output@ =~= head + commit_block(next));
            }
            i += 1;
        }
        proof {
            assert(all.take(commit_lines.len() as int) =~= all);
        }
    }
    output
}

/// The lines of `body`, each behind `bar` and a space, with a line feed
/// between them.
fn frame(body: &str, bar: &str) -> (out: String)
    ensures
        out@ == joined(framed(lines_of(body@), bar@), "\n"@),
{
    let body_lines = lines(&chars_of(body));
    let ghost all = framed(views(body_lines@), bar@);
    let mut shown: Vec<String> = Vec::new();
    let mut i: usize = 0;
    while i < body_lines.len()
        invariant
            i <= body_lines.len(),
            all == framed(views(body_lines@), bar@),
            views(shown@) == all.take(i as int),
        decreases body_lines.len() - i,
    {
        let mut line = String::from_str(bar);
        line.append(" ");
        line.append(string_of(&body_lines[i], 0, body_lines[i].len()).as_str());
        proof {
            lemma_views_push(shown@, line);
            assert(body_lines@[i as int]@.subrange(0, body_lines@[i as int]@.len() as int)
                =~= body_lines@[i as int]@);
            assert(all.take(i + 1) =~= all.take(i as int).push(line@));
        }
        shown.push(line);
        i += 1;
    }
    proof {
        assert(all.take(body_lines.len() as int) =~= all);
    }
    join(&shown, "\n")
}

/// Dashboard ... repo status, and recent commits
///
/// `status` and `head` are what `stat` reads; `last_week` and `last_ten`
/// are what `get_recent_commits` reads, and are read only for a
/// repository that needs attention.
pub fn dashboard(
    p: &str,
    status: &[u8],
    head: &[u8],
    last_week: &[u8],
    last_ten: &[u8],
    fmt: &FormatOpts,
) -> (out: Result<Option<String>, Error>)
    ensures
        outcome_view(out) == dashboard_outcome(p@, status@, head@, last_week@, last_ten@, *fmt),
{
    match needs_attention(p, status, head, fmt) {
        Ok(Some(_)) => {},
        Ok(None) => {
            return Ok(None);
        },
        Err(error) => {
            return Err(error);
        },
    }
    let lines = match command_output(status) {
        Ok(lines) => lines,
        Err(error) => {
            return Err(error);
        },
    };
    let (branch, status_vec) = parse_git_status(&lines);
    let commit_hash = match get_short_commit_hash(head) {
        Ok(text) => text,
        Err(error) => {
            return Err(error);
        },
    };
    let file_list = format_file_list(&status_vec, !fmt.no_colour);
    let commits = match get_recent_commits(last_week, last_ten) {
        Ok(text) => text,
        Err(error) => {
            return Err(error);
        },
    };
    let output = body_text(file_list.as_str(), commits.as_str());
    let black: [&str; 1] = [BLACK];
    proof {
        assert(views(black@) =~= seq![BLACK@]);
    }
    let bar = paint(String::from_str("░"), black.as_slice(), !fmt.no_colour);
    let mut text = String::from_str("\n");
    text.append(head_line(p, branch, commit_hash, fmt).as_str());
    text.append("\n");
    text.append(frame(output.as_str(), bar.as_str()).as_str());
    Ok(Some(text))
}

/// The names of the branches that `lines` list: the lines in descending
/// order, each without the white space around it, with `, ` between
/// them.
pub open spec fn branch_list(lines: Seq<Seq<char>>) -> Seq<char> {
    let descending = sorted(lines, by_text()).reverse();
    joined(Seq::new(descending.len(), |i: int| trimmed(descending[i])), ", "@)
}

/// What `branches` reports for the repository `p`: in JSON its item
/// without an argument and with the branches as subtitle; in text the
/// shown path, filled up to 30 characters, a tabulator and the branches.
pub open spec fn branches_report(p: Seq<char>, lines: Seq<Seq<char>>, fmt: FormatOpts) -> Seq<
    char,
> {
    if fmt.use_json {
        json_object_text(
            json_item(p, Some(branch_list(lines)), false, prefix_view(fmt.common_prefix)),
        )
    } else {
        padded(shown_path(p, prefix_view(fmt.common_prefix)), 30) + "\t"@ + branch_list(lines)
    }
}

/// What `branches` comes to, given what the query for the branches
/// wrote.
pub open spec fn branches_outcome(p: Seq<char>, listing: Seq<u8>, fmt: FormatOpts) -> Result<
    Option<Seq<char>>,
    Error,
> {
    match output_lines(listing) {
        Some(lines) => Ok(Some(branches_report(p, lines, fmt))),
        None => Err(invalid_utf8()),
    }
}

/// The names on the lines `ordered`, last line first, with `, ` between
/// them.
fn list_branches(ordered: &Vec<Vec<char>>) -> (out: String)
    ensures
        out@ == joined(
            Seq::new(
                views(ordered@).reverse().len(),
                |i: int| trimmed(views(ordered@).reverse()[i]),
            ),
            ", "@,
        ),
{
    let ghost descending = views(ordered@).reverse();
    let ghost names = Seq::new(descending.len(), |i: int| trimmed(descending[i]));
    let mut shown: Vec<String> = Vec::new();
    let mut left: usize = ordered.len();
    proof {
        assert(views(shown@) =~= names.take(0));
    }
    while left > 0
        invariant
            left <= ordered.len(),
            descending == views(ordered@).reverse(),
            names == Seq::new(descending.len(), |i: int| trimmed(descending[i])),
            views(shown@) == names.take(ordered.len() - left),
        decreases left,
    {
        left -= 1;
        let (from, to) = trim_bounds(&ordered[left]);
        let name = string_of(&ordered[left], from, to);
        proof {
            let k = ordered.len() - left - 1;
            assert(descending[k] == ordered@[left as int]@);
            lemma_views_push(shown@, name);
            assert(names.take(k + 1) =~= names.take(k).push(name@));
        }
        shown.push(name);
    }
    proof {
        assert(names.take(ordered.len() as int) =~= names);
    }
    join(&shown, ", ")
}

/// Get a list of branches for the given git path
///
/// `listing` is what `git branch` wrote for the repository `p`.
pub fn branches(p: &str, listing: &[u8], fmt: &FormatOpts) -> (out: Result<Option<String>, Error>)
    ensures
        outcome_view(out) == branches_outcome(p@, listing@, *fmt),
{
    let cs = match decode(listing) {
        Some(cs) => cs,
        None => {
            return Err(Error::RepositoryOperationFailed(Failure::InvalidUtf8));
        },
    };
    let ordered = sort_texts(&lines(&cs));
    let branches = list_branches(&ordered);
    let s = if fmt.use_json {
        format_json(p, Some(branches.as_str()), false, &fmt.common_prefix)
    } else {
        let mut text = pad(remove_common_ancestor(p, &fmt.common_prefix).as_str(), 30);
        text.append("\t");
        text.append(branches.as_str());
        text
    };
    Ok(Some(s))
}

} // verus!
