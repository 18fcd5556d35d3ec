use repoutil::ansi_escape::{
    colour, colour_is_off, should_color_stdout, ColorChoice, ANSI_RESET, BOLD, RED, YELLOW,
};
use repoutil::error::{Error, Failure};
use repoutil::vcs::jj::{stat, sync};
use repoutil::vcs::{
    add, aggregate, answer, collect, entry, failures, format_opts, list, lookup, next_step,
    repos_for, FormatOpts, Operation, Query, Run, Step,
};

const DIRTY: &[u8] = b"## main...origin/main [ahead 2, behind 1]\nM  foo.txt\n?? bar.txt\n";
const CLEAN: &[u8] = b"## main...origin/main\n";
const NOT_UTF8: &[u8] = &[0x23, 0x23, 0x20, 0xff, 0x0a];

fn strings(items: &[&str]) -> Vec<String> {
    items.iter().map(|s| String::from(*s)).collect()
}

fn plain() -> FormatOpts {
    FormatOpts { use_json: false, common_prefix: Some(String::from("/home/u")), no_colour: true }
}

fn json() -> FormatOpts {
    FormatOpts { use_json: true, common_prefix: Some(String::from("/home/u")), no_colour: true }
}

fn answers(items: &[&[u8]]) -> Vec<Vec<u8>> {
    items.iter().map(|a| a.to_vec()).collect()
}

fn asks(step: Step) -> Query {
    match step {
        Step::Ask(query) => query,
        Step::Done(outcome) => panic!("ended with {:?}", outcome),
    }
}

fn ends(step: Step) -> Result<Option<String>, Error> {
    match step {
        Step::Ask(query) => panic!("asked for {:?}", query),
        Step::Done(outcome) => outcome,
    }
}

#[test]
fn colour_wraps_text_in_codes_and_a_reset() {
    assert_eq!(colour("x", &[BOLD, RED]), "\u{1b}[1m\u{1b}[31mx\u{1b}[0m");
    assert_eq!(colour("░", &[YELLOW]), format!("{YELLOW}░{ANSI_RESET}"));
    assert_eq!(colour("x", &[]), "x\u{1b}[0m");
    assert_eq!(colour("", &[]), "\u{1b}[0m");
}

#[test]
fn colour_follows_terminal_and_environment() {
    assert!(should_color_stdout(true, false));
    assert!(!should_color_stdout(true, true));
    assert!(!should_color_stdout(false, false));
    assert!(!colour_is_off(ColorChoice::Auto, false, true, false));
    assert!(colour_is_off(ColorChoice::Auto, false, false, false));
    assert!(colour_is_off(ColorChoice::Auto, false, true, true));
    assert!(colour_is_off(ColorChoice::Auto, true, true, false));
    assert!(!colour_is_off(ColorChoice::Always, false, false, true));
    assert!(colour_is_off(ColorChoice::Always, true, true, false));
    assert!(colour_is_off(ColorChoice::Never, false, true, false));
}

#[test]
fn list_names_the_repository() {
    assert_eq!(list("/home/u/code", &plain()), Ok(Some(String::from("code"))));
    assert_eq!(
        list("/home/u/code", &json()),
        Ok(Some(String::from("{\"arg\":\"/home/u/code\",\"title\":\"code\"}")))
    );
    assert_eq!(entry("/srv/x", &plain()), "/srv/x");
}

#[test]
fn format_opts_takes_the_common_ancestor_as_prefix() {
    let repos = strings(&["/home/u/code", "/home/u/other"]);
    let fmt = format_opts(true, false, false, &repos);
    assert!(fmt.use_json);
    assert!(!fmt.no_colour);
    assert_eq!(fmt.common_prefix, Some(String::from("/home/u")));
    let fmt = format_opts(false, true, true, &repos);
    assert_eq!(fmt.common_prefix, None);
    assert!(fmt.no_colour);
    let fmt = format_opts(false, false, false, &strings(&["/home/u/code"]));
    assert_eq!(fmt.common_prefix, Some(String::new()));
    assert_eq!(list("/home/u/code", &fmt), Ok(Some(String::from("/home/u/code"))));
}

#[test]
fn repos_for_untracked_are_the_excluded_ones() {
    let includes = strings(&["/a"]);
    let excludes = strings(&["/b"]);
    assert_eq!(repos_for(Operation::Untracked, includes.clone(), excludes.clone()), excludes);
    assert_eq!(repos_for(Operation::List, includes.clone(), excludes.clone()), includes);
    assert_eq!(repos_for(Operation::Stat, includes.clone(), excludes), includes);
}

#[test]
fn add_gives_the_line_for_the_configuration() {
    assert_eq!(add("/home/u/code", true), Ok(String::from("/home/u/code\n")));
    assert_eq!(add("/home/u", false), Err(Error::AddOutsideRepository));
}

#[test]
fn errors_have_messages() {
    assert_eq!(Error::ConfigMissing.message(), "No ~/.repoutilrc");
    assert_eq!(Error::ConfigUnreadable.message(), "Cannot read ~/.repoutilrc");
    assert_eq!(
        Error::DirectoryExpansionFailed(String::from("/nowhere")).message(),
        "Cannot list /nowhere"
    );
    assert_eq!(
        Error::RepositoryOperationFailed(Failure::Command(String::from("exit 128"))).message(),
        "exit 128"
    );
    assert_eq!(
        Error::RepositoryOperationFailed(Failure::InvalidUtf8).message(),
        "invalid UTF-8 in command output"
    );
    assert_eq!(
        Error::AddOutsideRepository.message(),
        "Don't appear to be in the root of a git repo."
    );
}

#[test]
fn one_failure_one_silence_one_text() {
    let outcomes = vec![
        (
            String::from("/r/broken"),
            Err(Error::RepositoryOperationFailed(Failure::Command(String::from("exit 128")))),
        ),
        (String::from("/r/clean"), Ok(None)),
        (String::from("/r/dirty"), Ok(Some(String::from("X")))),
    ];
    let results = collect(&outcomes);
    assert_eq!(results, strings(&["X"]));
    assert_eq!(aggregate(&results, false), Some(String::from("X")));
    assert_eq!(aggregate(&results, true), Some(String::from("{\"items\": [X]}")));
    assert_eq!(failures(&outcomes), strings(&["ERR `/r/broken`: exit 128"]));
}

#[test]
fn collect_drops_empty_texts() {
    let outcomes = vec![
        (String::from("/a"), Ok(Some(String::new()))),
        (String::from("/b"), Ok(Some(String::from("b")))),
        (String::from("/c"), Ok(None)),
        (String::from("/d"), Ok(Some(String::from("d")))),
        (String::from("/e"), Err(Error::RepositoryOperationFailed(Failure::InvalidUtf8))),
    ];
    assert_eq!(collect(&outcomes), strings(&["b", "d"]));
    assert_eq!(
        failures(&outcomes),
        strings(&["ERR `/e`: invalid UTF-8 in command output"])
    );
    assert_eq!(collect(&Vec::new()), Vec::<String>::new());
    assert_eq!(failures(&Vec::new()), Vec::<String>::new());
}

#[test]
fn aggregate_joins_text_with_line_feeds() {
    assert_eq!(aggregate(&strings(&["a", "b\nc", "d"]), false), Some(String::from("a\nb\nc\nd")));
    assert_eq!(aggregate(&Vec::new(), false), None);
}

#[test]
fn aggregate_wraps_json_items() {
    let items = strings(&["{\"arg\":\"/a\",\"title\":\"a\"}", "{\"arg\":\"/b\",\"title\":\"b\"}"]);
    let out = aggregate(&items, true).unwrap();
    assert_eq!(
        out,
        "{\"items\": [{\"arg\":\"/a\",\"title\":\"a\"}, {\"arg\":\"/b\",\"title\":\"b\"}]}"
    );
    let value: serde_json::Value = serde_json::from_str(&out).unwrap();
    assert_eq!(value["items"].as_array().unwrap().len(), 2);
    assert_eq!(value["items"][1]["title"].as_str(), Some("b"));
}

#[test]
fn aggregate_of_nothing_in_json_holds_a_placeholder() {
    let out = aggregate(&Vec::new(), true).unwrap();
    assert_eq!(out, "{\"items\": [{\"arg\":\"\",\"title\":\"no items\"}]}");
    let value: serde_json::Value = serde_json::from_str(&out).unwrap();
    let items = value["items"].as_array().unwrap();
    assert_eq!(items.len(), 1);
    assert_eq!(items[0]["title"].as_str(), Some("no items"));
}

#[test]
fn lookup_knows_the_operations_by_name() {
    assert_eq!(lookup("list"), Some(Operation::List));
    assert_eq!(lookup("stat"), Some(Operation::Stat));
    assert_eq!(lookup("branchstat"), Some(Operation::Branchstat));
    assert_eq!(lookup("branches"), Some(Operation::Branches));
    assert_eq!(lookup("fetch"), Some(Operation::Fetch));
    assert_eq!(lookup("push"), Some(Operation::Push));
    assert_eq!(lookup("pull"), Some(Operation::Pull));
    assert_eq!(lookup("unclean"), Some(Operation::Unclean));
    assert_eq!(lookup("untracked"), Some(Operation::Untracked));
    assert_eq!(lookup("dashboard"), Some(Operation::Dashboard));
    assert_eq!(lookup("add"), Some(Operation::Add));
    assert_eq!(lookup(""), None);
    assert_eq!(lookup("List"), None);
    assert_eq!(lookup("stat "), None);
    assert_eq!(lookup("stashcount"), None);
}

#[test]
fn next_step_of_list_ends_at_once() {
    assert_eq!(
        ends(next_step(Operation::List, "/home/u/code", &Vec::new(), &plain())),
        Ok(Some(String::from("code")))
    );
    assert_eq!(
        ends(next_step(Operation::Untracked, "/home/u/old", &Vec::new(), &plain())),
        Ok(Some(String::from("old")))
    );
    assert_eq!(ends(next_step(Operation::Add, "/home/u/code", &Vec::new(), &plain())), Ok(None));
}

#[test]
fn next_step_of_stat_asks_twice() {
    let p = "/home/u/code";
    assert_eq!(asks(next_step(Operation::Stat, p, &answers(&[]), &plain())), Query::ShortStatus);
    assert_eq!(asks(next_step(Operation::Stat, p, &answers(&[DIRTY]), &plain())), Query::HeadCommit);
    assert_eq!(
        ends(next_step(Operation::Stat, p, &answers(&[DIRTY, b"abc\n"]), &plain())),
        Ok(Some(String::from("code on main at abc\nM foo.txt\n?? bar.txt\n")))
    );
    assert_eq!(asks(next_step(Operation::Unclean, p, &answers(&[]), &plain())), Query::ShortStatus);
    assert_eq!(asks(next_step(Operation::Unclean, p, &answers(&[CLEAN]), &plain())), Query::HeadCommit);
    assert_eq!(ends(next_step(Operation::Unclean, p, &answers(&[CLEAN, b"abc\n"]), &plain())), Ok(None));
    assert_eq!(
        ends(next_step(Operation::Unclean, p, &answers(&[DIRTY, b"abc\n"]), &plain())),
        Ok(Some(String::from("code")))
    );
}

#[test]
fn next_step_of_branchstat_and_branches() {
    let p = "/home/u/code";
    assert_eq!(asks(next_step(Operation::Branchstat, p, &answers(&[]), &plain())), Query::PorcelainStatus);
    assert_eq!(
        ends(next_step(Operation::Branchstat, p, &answers(&[DIRTY]), &plain())),
        Ok(Some(format!("{:40} | {}", "code", "↑2, ↓1, 1±, 1?")))
    );
    assert_eq!(ends(next_step(Operation::Branchstat, p, &answers(&[CLEAN]), &plain())), Ok(None));
    assert_eq!(asks(next_step(Operation::Branches, p, &answers(&[]), &plain())), Query::BranchList);
    assert_eq!(
        ends(next_step(Operation::Branches, p, &answers(&[b"* main\n"]), &plain())),
        Ok(Some(format!("{:30}\t{}", "code", "* main")))
    );
}

#[test]
fn next_step_of_mutating_operations_reports_nothing() {
    let p = "/home/u/code";
    assert_eq!(asks(next_step(Operation::Fetch, p, &answers(&[]), &plain())), Query::Fetch);
    assert_eq!(ends(next_step(Operation::Fetch, p, &answers(&[b"done"]), &plain())), Ok(None));
    assert_eq!(asks(next_step(Operation::Push, p, &answers(&[]), &plain())), Query::Push);
    assert_eq!(ends(next_step(Operation::Push, p, &answers(&[b"done"]), &plain())), Ok(None));
    assert_eq!(asks(next_step(Operation::Pull, p, &answers(&[]), &plain())), Query::Pull);
    assert_eq!(ends(next_step(Operation::Pull, p, &answers(&[NOT_UTF8]), &plain())), Ok(None));
}

#[test]
fn next_step_of_dashboard_asks_for_logs_only_when_needed() {
    let p = "/home/u/code";
    let op = Operation::Dashboard;
    assert_eq!(asks(next_step(op, p, &answers(&[]), &plain())), Query::ShortStatus);
    assert_eq!(asks(next_step(op, p, &answers(&[DIRTY]), &plain())), Query::HeadCommit);
    assert_eq!(ends(next_step(op, p, &answers(&[CLEAN, b"abc\n"]), &plain())), Ok(None));
    assert_eq!(
        ends(next_step(op, p, &answers(&[NOT_UTF8, b"abc\n"]), &plain())),
        Err(Error::RepositoryOperationFailed(Failure::InvalidUtf8))
    );
    assert_eq!(asks(next_step(op, p, &answers(&[DIRTY, b"abc\n"]), &plain())), Query::LogLastWeek);
    assert_eq!(
        asks(next_step(op, p, &answers(&[DIRTY, b"abc\n", b"\n"]), &plain())),
        Query::LogLastTen
    );
    assert_eq!(
        ends(next_step(op, p, &answers(&[DIRTY, b"abc\n", b"c1\n"]), &plain())),
        Ok(Some(String::from(
            "\ncode on main at abc\n░ M foo.txt\n░ ?? bar.txt\n░ \n░ Recent commits:\n░ c1"
        )))
    );
    assert_eq!(
        ends(next_step(op, p, &answers(&[DIRTY, b"abc\n", b"", b"old\n"]), &plain())),
        Ok(Some(String::from(
            "\ncode on main at abc\n░ M foo.txt\n░ ?? bar.txt\n░ \n░ Recent commits:\n░ old"
        )))
    );
    assert_eq!(
        ends(next_step(op, p, &answers(&[DIRTY, b"abc\n", NOT_UTF8]), &plain())),
        Err(Error::RepositoryOperationFailed(Failure::InvalidUtf8))
    );
}

#[test]
fn jj_stat_frames_the_status() {
    let status = b"Working copy changes:\nM a.rs\n";
    assert_eq!(
        stat("/home/u/code", b"## main\n M a.rs\n", status, &plain()),
        Ok(Some(String::from("/home/u/code \n░ Working copy changes:\n░ M a.rs\n")))
    );
    let fmt = FormatOpts { use_json: false, common_prefix: None, no_colour: false };
    assert_eq!(
        stat("/home/u/code", b"## main\n M a.rs\n", status, &fmt),
        Ok(Some(format!(
            "{YELLOW}/home/u/code{ANSI_RESET} {BOLD}{RED}{ANSI_RESET}\n░ Working copy changes:\n░ M a.rs\n"
        )))
    );
}

#[test]
fn jj_stat_of_a_clean_repository_reports_nothing() {
    assert_eq!(stat("/home/u/code", b"## main\n", b"The working copy is clean\n", &plain()), Ok(None));
    assert_eq!(stat("/home/u/code", b"## main\n M a\n", b"", &plain()), Ok(None));
    assert_eq!(
        stat("/home/u/code", b"", b"x\n", &plain()),
        Ok(Some(String::from("/home/u/code \n░ x\n")))
    );
}

#[test]
fn jj_stat_fails_on_output_that_is_not_utf8() {
    let invalid = Error::RepositoryOperationFailed(Failure::InvalidUtf8);
    assert_eq!(stat("/home/u/code", NOT_UTF8, b"x\n", &plain()), Err(invalid.clone()));
    assert_eq!(stat("/home/u/code", b"## main\n", NOT_UTF8, &plain()), Err(invalid));
}

#[test]
fn jj_sync_reports_the_status() {
    assert_eq!(
        sync("/home/u/code", b"synced\n", b"## main\n M a.rs\n", b"M a.rs\n", &plain()),
        Ok(Some(String::from("/home/u/code \n░ M a.rs\n")))
    );
    assert_eq!(sync("/home/u/code", NOT_UTF8, b"## main\n", b"", &plain()), Ok(None));
}

#[test]
fn answer_of_a_command_that_succeeded_is_what_it_wrote() {
    let run = Run::Ended {
        success: true,
        status: String::from("exit status: 0"),
        stdout: b"## main\n".to_vec(),
    };
    assert_eq!(answer("git status -s -b", run), Ok(b"## main\n".to_vec()));
    let silent = Run::Ended { success: true, status: String::new(), stdout: Vec::new() };
    assert_eq!(answer("git fetch --all --tags", silent), Ok(Vec::new()));
}

#[test]
fn answer_of_a_command_that_failed_is_a_failure() {
    let run = Run::Ended {
        success: false,
        status: String::from("exit status: 128"),
        stdout: b"partial output".to_vec(),
    };
    assert_eq!(
        answer("git status -s -b", run),
        Err(Error::RepositoryOperationFailed(Failure::Command(String::from(
            "git status -s -b: exit status: 128"
        ))))
    );
}

#[test]
fn answer_of_a_command_that_did_not_start_is_a_failure() {
    let run = Run::NotStarted(String::from("No such file or directory (os error 2)"));
    let out = answer("git branch", run);
    assert_eq!(
        out,
        Err(Error::RepositoryOperationFailed(Failure::Command(String::from(
            "git branch: No such file or directory (os error 2)"
        ))))
    );
    let outcomes = vec![(String::from("/r/gone"), out.map(|_| None))];
    assert_eq!(
        failures(&outcomes),
        strings(&["ERR `/r/gone`: git branch: No such file or directory (os error 2)"])
    );
    assert_eq!(collect(&outcomes), Vec::<String>::new());
}
