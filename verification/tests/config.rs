use repoutil::error::Error;
use repoutil::path::{
    contains_path, copy_path, dedup_paths, path_components, remove_paths, render_paths, sort_paths,
};
use repoutil::util::{
    expansion_failures, get_dirs_from_config, get_repos_from_config, get_repos_from_dir,
    ConfigFile, ConfiguredDir, DirProbe,
};
use std::path::PathBuf;

fn strings(items: &[&str]) -> Vec<String> {
    items.iter().map(|s| String::from(*s)).collect()
}

fn paths(items: &[&str]) -> Vec<Vec<Vec<char>>> {
    items.iter().map(|s| path_components(s)).collect()
}

fn repository(path: &str) -> ConfiguredDir {
    ConfiguredDir { path: String::from(path), probe: DirProbe::Repository }
}

fn holding(path: &str, entries: &[(&str, bool)]) -> ConfiguredDir {
    ConfiguredDir {
        path: String::from(path),
        probe: DirProbe::Children(entries.iter().map(|(p, r)| (String::from(*p), *r)).collect()),
    }
}

fn unreadable(path: &str) -> ConfiguredDir {
    ConfiguredDir { path: String::from(path), probe: DirProbe::Unreadable }
}

#[test]
fn get_dirs_from_config_reads_entries() {
    let config = ConfigFile::Contents(String::from(
        "# my repositories\n\n~/code\n!~/code/old\n  /srv/git  \nrel/path\n   # indented comment\n!/tmp/scratch\n",
    ));
    assert_eq!(
        get_dirs_from_config(&config, "/home/u"),
        Ok((
            strings(&["/home/u/code", "/srv/git", "/home/u/rel/path"]),
            strings(&["/home/u/code/old", "/tmp/scratch"])
        ))
    );
}

#[test]
fn get_dirs_from_config_of_nothing_is_empty() {
    assert_eq!(
        get_dirs_from_config(&ConfigFile::Contents(String::new()), "/home/u"),
        Ok((Vec::new(), Vec::new()))
    );
    assert_eq!(
        get_dirs_from_config(&ConfigFile::Contents(String::from("\n#\n  \n")), "/home/u"),
        Ok((Vec::new(), Vec::new()))
    );
}

#[test]
fn get_dirs_from_config_keeps_a_path_that_is_listed_both_ways() {
    let config = ConfigFile::Contents(String::from("!~/code/x\n~/code/x\r\n"));
    assert_eq!(
        get_dirs_from_config(&config, "/home/u"),
        Ok((strings(&["/home/u/code/x"]), strings(&["/home/u/code/x"])))
    );
}

#[test]
fn get_dirs_from_config_fails_without_a_file() {
    assert_eq!(get_dirs_from_config(&ConfigFile::Missing, "/home/u"), Err(Error::ConfigMissing));
    assert_eq!(
        get_dirs_from_config(&ConfigFile::Unreadable, "/home/u"),
        Err(Error::ConfigUnreadable)
    );
}

#[test]
fn get_repos_from_dir_keeps_repositories_in_order() {
    let entries = vec![
        (String::from("/w/b"), true),
        (String::from("/w/a/x"), true),
        (String::from("/w/notes.txt"), false),
        (String::from("/w/a-b"), true),
        (String::from("/w/a"), true),
        (String::from("/w/b"), true),
    ];
    let found = get_repos_from_dir(&entries);
    assert_eq!(found, strings(&["/w/a", "/w/a/x", "/w/a-b", "/w/b", "/w/b"]));
    let mut expected: Vec<PathBuf> =
        entries.iter().filter(|e| e.1).map(|e| PathBuf::from(&e.0)).collect();
    expected.sort();
    assert_eq!(found.iter().map(PathBuf::from).collect::<Vec<PathBuf>>(), expected);
    assert_eq!(get_repos_from_dir(&Vec::new()), Vec::<String>::new());
}

#[test]
fn get_repos_from_config_expands_sorts_and_excludes() {
    let includes = vec![
        holding(
            "/home/u/code",
            &[
                ("/home/u/code/b", true),
                ("/home/u/code/notes", false),
                ("/home/u/code/a", true),
                ("/home/u/code/old", true),
            ],
        ),
        repository("/home/u/dotfiles/"),
        repository("/home/u/code/a"),
        unreadable("/nowhere"),
        holding("/empty", &[]),
    ];
    let excludes = vec![repository("/home/u/code/old"), repository("/home/u/elsewhere")];
    assert_eq!(
        get_repos_from_config(&includes, &excludes),
        (
            strings(&["/home/u/code/a", "/home/u/code/b", "/home/u/dotfiles"]),
            strings(&["/home/u/code/old", "/home/u/elsewhere"])
        )
    );
}

#[test]
fn get_repos_from_config_lets_exclusion_win() {
    let includes = vec![repository("/r/x"), repository("/r/y")];
    let excludes = vec![repository("/r/x/")];
    let (included, excluded) = get_repos_from_config(&includes, &excludes);
    assert_eq!(included, strings(&["/r/y"]));
    assert_eq!(excluded, strings(&["/r/x"]));
    for path in &included {
        assert!(!excluded.contains(path));
    }
}

#[test]
fn get_repos_from_config_expands_excluded_directories() {
    let includes = vec![holding("/w", &[("/w/a", true), ("/w/b", true), ("/w/c", true)])];
    let excludes = vec![holding("/w", &[("/w/b", true), ("/w/c", false)])];
    assert_eq!(
        get_repos_from_config(&includes, &excludes),
        (strings(&["/w/a", "/w/c"]), strings(&["/w/b"]))
    );
}

#[test]
fn get_repos_from_config_gives_the_same_lists_again() {
    let includes = vec![
        holding("/w", &[("/w/z", true), ("/w/a", true), ("/w/a", true)]),
        repository("/w/m"),
    ];
    let excludes = vec![repository("/w/z"), repository("/w/z"), repository("/q")];
    let first = get_repos_from_config(&includes, &excludes);
    let second = get_repos_from_config(&includes, &excludes);
    assert_eq!(first, second);
    assert_eq!(first, (strings(&["/w/a", "/w/m"]), strings(&["/q", "/w/z"])));
    let again = get_repos_from_config(
        &first.0.iter().map(|p| repository(p)).collect(),
        &first.1.iter().map(|p| repository(p)).collect(),
    );
    assert_eq!(again, first);
}

#[test]
fn a_directory_without_repositories_adds_nothing() {
    let includes = vec![
        holding("/empty", &[]),
        holding("/files", &[("/files/a.txt", false), ("/files/b", false)]),
        unreadable("/locked"),
    ];
    assert_eq!(get_repos_from_config(&includes, &Vec::new()), (Vec::new(), Vec::new()));
    let with_one = vec![
        holding("/files", &[("/files/a.txt", false)]),
        repository("/r"),
        unreadable("/locked"),
    ];
    assert_eq!(get_repos_from_config(&with_one, &Vec::new()), (strings(&["/r"]), Vec::new()));
}

#[test]
fn expansion_failures_name_the_directories() {
    let dirs = vec![
        repository("/r"),
        unreadable("/locked"),
        holding("/w", &[("/w/a", true)]),
        unreadable("/gone"),
    ];
    assert_eq!(
        expansion_failures(&dirs),
        vec![
            Error::DirectoryExpansionFailed(String::from("/locked")),
            Error::DirectoryExpansionFailed(String::from("/gone")),
        ]
    );
    assert_eq!(expansion_failures(&vec![repository("/r")]), Vec::new());
}

#[test]
fn sort_dedup_and_remove_paths() {
    let items = paths(&["/b", "/a/x", "/a-b", "/a", "/b/", "/a//x"]);
    let sorted = sort_paths(&items);
    assert_eq!(render_paths(&sorted), strings(&["/a", "/a/x", "/a/x", "/a-b", "/b", "/b"]));
    let distinct = dedup_paths(&sorted);
    assert_eq!(render_paths(&distinct), strings(&["/a", "/a/x", "/a-b", "/b"]));
    let kept = remove_paths(&distinct, &paths(&["/a/x/", "/zzz"]));
    assert_eq!(render_paths(&kept), strings(&["/a", "/a-b", "/b"]));
    assert!(contains_path(&distinct, &path_components("/a-b/")));
    assert!(!contains_path(&distinct, &path_components("/a-")));
    assert_eq!(copy_path(&path_components("/a/b")), path_components("/a/b"));
    assert_eq!(render_paths(&dedup_paths(&paths(&["/a", "/b", "/a"]))), strings(&["/a", "/b", "/a"]));
}
