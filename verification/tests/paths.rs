use repoutil::path::{
    component_before, is_ancestor, path_before, path_components, push_names, render, same_path,
    split,
};
use repoutil::text::chars_of;
use repoutil::util::{common_ancestor, format_json, homedir, remove_common_ancestor};
use std::path::{Path, PathBuf};

fn strings(items: &[&str]) -> Vec<String> {
    items.iter().map(|s| String::from(*s)).collect()
}

fn component_texts(s: &str) -> Vec<String> {
    path_components(s).iter().map(|c| c.iter().collect()).collect()
}

fn std_components(s: &str) -> Vec<String> {
    Path::new(s).components().map(|c| c.as_os_str().to_str().unwrap().to_string()).collect()
}

const SAMPLES: [&str; 28] = [
    "",
    "/",
    "//",
    ".",
    "..",
    "./",
    "./a",
    "././a",
    "a",
    "a/",
    "a/b",
    "a//b",
    "a/./b",
    "a/b/.",
    "a/../b",
    "/a",
    "/a/",
    "/a/b",
    "/a-b",
    "/./a",
    "/../a",
    "/home/u/code",
    "/home/u/code/recipes",
    "/home/ab",
    "/home/abc",
    ".git",
    "..a/b",
    "/home/u/.config/x y",
];

#[test]
fn test_common_ancestor() {
    assert_eq!(
        PathBuf::from(common_ancestor(&[
            String::from("/home/cdavison/code"),
            String::from("/home/cdavison/code/recipes"),
            String::from("/home/cdavison/strathclyde")
        ])),
        PathBuf::from("/home/cdavison/")
    );
}

#[test]
fn common_ancestor_gives_the_text_of_the_shared_components() {
    assert_eq!(
        common_ancestor(&strings(&[
            "/home/cdavison/code",
            "/home/cdavison/code/recipes",
            "/home/cdavison/strathclyde"
        ])),
        "/home/cdavison"
    );
    assert_eq!(
        common_ancestor(&strings(&["/home/u/code", "/home/u/code/recipes", "/home/u/other"])),
        "/home/u"
    );
}

#[test]
fn common_ancestor_of_fewer_than_two_paths_is_empty() {
    assert_eq!(common_ancestor(&[]), "");
    assert_eq!(common_ancestor(&strings(&["/home/u/code"])), "");
    assert_eq!(common_ancestor(&strings(&[""])), "");
}

#[test]
fn common_ancestor_compares_components_not_characters() {
    assert_eq!(common_ancestor(&strings(&["/home/ab", "/home/abc"])), "/home");
    assert_eq!(common_ancestor(&strings(&["/home/ab/x", "/home/ab/y"])), "/home/ab");
    assert_eq!(common_ancestor(&strings(&["/ab", "/abc"])), "/");
}

#[test]
fn common_ancestor_stops_where_a_path_ends_or_differs() {
    assert_eq!(common_ancestor(&strings(&["/a/b", "/a/b"])), "/a/b");
    assert_eq!(common_ancestor(&strings(&["/a/b", "/a/b/c", "/a/b/d"])), "/a/b");
    assert_eq!(common_ancestor(&strings(&["/a", "b"])), "");
    assert_eq!(common_ancestor(&strings(&["a/b", "a/c"])), "a");
    assert_eq!(common_ancestor(&strings(&["/a//b/", "/a/./b/c"])), "/a/b");
    assert_eq!(common_ancestor(&strings(&["", "/a"])), "");
}

#[test]
fn components_match_the_standard_library() {
    for s in SAMPLES {
        assert_eq!(component_texts(s), std_components(s), "{:?}", s);
    }
}

#[test]
fn split_and_push_names_read_the_same_text() {
    assert_eq!(split(&chars_of("/a/./b//c/")), path_components("/a/b/c"));
    let mut parts = path_components("/home/u");
    push_names(&chars_of("~/code/x"), 1, &mut parts);
    assert_eq!(render(&parts, 0, parts.len()), "/home/u/code/x");
}

#[test]
fn render_writes_components_as_a_path() {
    for s in SAMPLES {
        let parts = path_components(s);
        let text = render(&parts, 0, parts.len());
        assert_eq!(PathBuf::from(&text), PathBuf::from(s), "{:?}", s);
        assert_eq!(path_components(&text), parts, "{:?}", s);
    }
    let parts = path_components("/home/u/code/x");
    assert_eq!(render(&parts, 0, 1), "/");
    assert_eq!(render(&parts, 0, 3), "/home/u");
    assert_eq!(render(&parts, 3, 5), "code/x");
    assert_eq!(render(&parts, 2, 2), "");
}

#[test]
fn path_before_is_the_order_of_the_standard_library() {
    for a in SAMPLES {
        for b in SAMPLES {
            assert_eq!(
                path_before(&path_components(a), &path_components(b)),
                PathBuf::from(a) < PathBuf::from(b),
                "{:?} {:?}",
                a,
                b
            );
            assert_eq!(
                same_path(&path_components(a), &path_components(b)),
                PathBuf::from(a) == PathBuf::from(b),
                "{:?} {:?}",
                a,
                b
            );
        }
    }
}

#[test]
fn component_before_puts_names_last() {
    assert!(component_before(&chars_of("/"), &chars_of(".")));
    assert!(component_before(&chars_of("."), &chars_of("..")));
    assert!(component_before(&chars_of(".."), &chars_of("-x")));
    assert!(component_before(&chars_of("a"), &chars_of("a-b")));
    assert!(!component_before(&chars_of("a"), &chars_of("a")));
    assert!(!component_before(&chars_of("b"), &chars_of("a")));
}

#[test]
fn is_ancestor_matches_starts_with() {
    for a in SAMPLES {
        for b in SAMPLES {
            assert_eq!(
                is_ancestor(&path_components(a), &path_components(b)),
                Path::new(b).starts_with(a),
                "{:?} {:?}",
                a,
                b
            );
        }
    }
}

#[test]
fn remove_common_ancestor_strips_components() {
    let common = Some(String::from("/home/u/"));
    assert_eq!(remove_common_ancestor("/home/u/code/x", &common), "code/x");
    assert_eq!(remove_common_ancestor("/home/u", &common), "");
    assert_eq!(remove_common_ancestor("/home/u/code", &Some(String::new())), "/home/u/code");
    assert_eq!(remove_common_ancestor("/home/u/code", &Some(String::from("/"))), "home/u/code");
}

#[test]
fn remove_common_ancestor_matches_strip_prefix() {
    for prefix in SAMPLES {
        for repo in ["/home/u/code", "/home/u/code/recipes", "/home/abc", "a/b", "/a/b", "./a"] {
            if let Ok(rest) = Path::new(repo).strip_prefix(prefix) {
                assert_eq!(
                    remove_common_ancestor(repo, &Some(String::from(prefix))),
                    rest.display().to_string(),
                    "{:?} {:?}",
                    prefix,
                    repo
                );
            }
        }
    }
}

#[test]
fn remove_common_ancestor_leaves_other_paths_whole() {
    assert_eq!(remove_common_ancestor("/home/u/code/", &None), "/home/u/code/");
    assert_eq!(
        remove_common_ancestor("/home/abc", &Some(String::from("/home/ab"))),
        "/home/abc"
    );
    assert_eq!(remove_common_ancestor("/srv/x", &Some(String::from("/home"))), "/srv/x");
}

#[test]
fn format_json_writes_a_compact_object() {
    let common = Some(String::from("/home/u"));
    assert_eq!(
        format_json("/home/u/code", None, true, &common),
        "{\"arg\":\"/home/u/code\",\"title\":\"code\"}"
    );
    assert_eq!(
        format_json("/home/u/code", Some("↑2, 1±"), true, &common),
        "{\"arg\":\"/home/u/code\",\"subtitle\":\"↑2, 1±\",\"title\":\"code\"}"
    );
    assert_eq!(
        format_json("/home/u/code", Some("main, dev"), false, &None),
        "{\"arg\":\"\",\"subtitle\":\"main, dev\",\"title\":\"/home/u/code\"}"
    );
}

#[test]
fn format_json_escapes_what_json_asks_for() {
    let out = format_json("/tmp/a \"b\"\\c", Some("M a\n?? b\t\u{1b}"), true, &None);
    assert_eq!(
        out,
        "{\"arg\":\"/tmp/a \\\"b\\\"\\\\c\",\"subtitle\":\"M a\\n?? b\\t\\u001b\",\"title\":\"/tmp/a \\\"b\\\"\\\\c\"}"
    );
    let value: serde_json::Value = serde_json::from_str(&out).unwrap();
    assert_eq!(value["title"].as_str(), Some("/tmp/a \"b\"\\c"));
    assert_eq!(value["subtitle"].as_str(), Some("M a\n?? b\t\u{1b}"));
}

#[test]
fn json_title_is_the_path_without_the_common_ancestor() {
    let repos = strings(&["/home/u/code", "/home/u/code/recipes", "/home/u/other/deep/er"]);
    let common = Some(common_ancestor(&repos));
    for repo in &repos {
        let out = format_json(repo, Some("x"), true, &common);
        let value: serde_json::Value = serde_json::from_str(&out).unwrap();
        let stripped = remove_common_ancestor(repo, &common);
        assert_eq!(value["title"].as_str(), Some(stripped.as_str()));
        assert_eq!(value["arg"].as_str(), Some(repo.as_str()));
        assert_eq!(
            stripped,
            Path::new(repo).strip_prefix("/home/u").unwrap().display().to_string()
        );
    }
}

#[test]
fn homedir_expands_the_tilde() {
    assert_eq!(homedir("/home/u", "~/code"), "/home/u/code");
    assert_eq!(homedir("/home/u", "~"), "/home/u");
    assert_eq!(homedir("/home/u/", "~/code/recipes/"), "/home/u/code/recipes");
    assert_eq!(homedir("/home/u", "~code"), "/home/u/code");
}

#[test]
fn homedir_takes_relative_paths_from_home() {
    assert_eq!(homedir("/home/u", ".repoutilrc"), "/home/u/.repoutilrc");
    assert_eq!(homedir("/home/u", "code/x"), "/home/u/code/x");
    assert_eq!(homedir("/home/u", ""), "/home/u");
    assert_eq!(homedir("/home/u", "../v"), "/home/u/../v");
}

#[test]
fn homedir_keeps_paths_from_the_root() {
    assert_eq!(homedir("/home/u", "/srv/git"), "/srv/git");
    assert_eq!(homedir("/home/u", "/srv//git/"), "/srv/git");
    assert_eq!(homedir("/home/u", "/"), "/");
}
