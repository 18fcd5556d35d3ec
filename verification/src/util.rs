//! Paths for display, JSON items, and the set of repositories that a
//! configuration names.

use vstd::prelude::*;
use crate::error::Error;
use crate::order::{
    distinct, lemma_distinct_elements, lemma_distinct_of_strict, lemma_distinct_strict,
    lemma_sorted_ascending, lemma_sorted_elements, lemma_sorted_of_ascending,
    lemma_strict_is_ascending, lemma_without_disjoint, lemma_without_elements, lemma_without_strict,
    sorted, strictly_ascending, without,
};
use crate::path::{
    by_path, components, dedup_paths, is_ancestor, lemma_components_of_text,
    lemma_components_well_formed, lemma_parts_well_formed, lemma_path_order, lemma_path_views_push,
    names, path_components, path_text, path_views, paths_of, push_names, remove_paths, render,
    render_paths, sort_paths, split, texts_of, well_formed,
};
use crate::text::{
    chars_of, lemma_views_push, lines, lines_of, pair_views, same_text, string_of, trim_bounds,
    trimmed, views,
};

verus! {

/// The path `repo` as it is shown: without the components of `common`
/// where `common` is given and its components are the first ones of
/// `repo`, and as it stands otherwise.
pub open spec fn shown_path(repo: Seq<char>, common: Option<Seq<char>>) -> Seq<char> {
    match common {
        Some(prefix) => if components(prefix).is_prefix_of(components(repo)) {
            path_text(components(repo).skip(components(prefix).len() as int))
        } else {
            repo
        },
        None => repo,
    }
}

/// The view of a prefix that may be absent.
pub open spec fn prefix_view(common: Option<String>) -> Option<Seq<char>> {
    match common {
        Some(prefix) => Some(prefix@),
        None => None,
    }
}

/// The path `repo` without the leading components that it shares with
/// `common`.
pub fn remove_common_ancestor(repo: &str, common: &Option<String>) -> (out: String)
    ensures
        out@ == shown_path(repo@, prefix_view(*common)),
{
    match common {
        Some(prefix) => {
            let ancestor = path_components(prefix.as_str());
            let path = path_components(repo);
            if is_ancestor(&ancestor, &path) {
                proof {
                    let all = views(path@);
                    assert(all.subrange(ancestor.len() as int, path.len() as int) =~= all.skip(
                        ancestor.len() as int,
                    ));
                }
                render(&path, ancestor.len(), path.len())
            } else {
                String::from_str(repo)
            }
        },
        None => String::from_str(repo),
    }
}

/// The text that `serde_json` writes for a JSON object whose members are
/// the given pairs of a name and a string value, inserted in this order.
pub uninterp spec fn json_object_text(members: Seq<(Seq<char>, Seq<char>)>) -> Seq<char>;

/// Serialises an object of string members with `serde_json`: each pair is
/// inserted into a `serde_json::Map` as a `Value::String`, and the
/// resulting `Value::Object` is written with `to_string`, that is in the
/// compact form. The result is what the library calls
/// `json_object_text` of the pairs.
#[verifier::external_body]
fn json_object(members: &Vec<(String, String)>) -> (text: String)
    ensures
        text@ == json_object_text(pair_views(members@)),
{
    let mut object = serde_json::Map::new();
    for (name, value) in members {
        object.insert(name.clone(), serde_json::Value::String(value.clone()));
    }
    serde_json::Value::Object(object).to_string()
}

/// The members of the JSON item for the repository `title`: its shown
/// path as `title`, its full path or nothing as `arg`, and the subtitle
/// where there is one.
pub open spec fn json_item(
    title: Seq<char>,
    subtitle: Option<Seq<char>>,
    path_as_arg: bool,
    common: Option<Seq<char>>,
) -> Seq<(Seq<char>, Seq<char>)> {
    let fixed = seq![
        ("title"@, shown_path(title, common)),
        (
            "arg"@,
            if path_as_arg {
                title
            } else {
                Seq::empty()
            },
        ),
    ];
    match subtitle {
        Some(sub) => fixed.push(("subtitle"@, sub)),
        None => fixed,
    }
}

/// The view of a subtitle that may be absent.
pub open spec fn subtitle_view(subtitle: Option<&str>) -> Option<Seq<char>> {
    match subtitle {
        Some(sub) => Some(sub@),
        None => None,
    }
}

/// The JSON object for one repository.
pub fn format_json(
    title: &str,
    subtitle: Option<&str>,
    path_as_arg: bool,
    common: &Option<String>,
) -> (out: String)
    ensures
        out@ == json_object_text(
            json_item(title@, subtitle_view(subtitle), path_as_arg, prefix_view(*common)),
        ),
{
    let arg = if path_as_arg {
        String::from_str(title)
    } else {
        String::new()
    };
    let shown = remove_common_ancestor(title, common);
    let mut members: Vec<(String, String)> = Vec::new();
    members.push((String::from_str("title"), shown));
    members.push((String::from_str("arg"), arg));
    if let Some(sub) = subtitle {
        members.push((String::from_str("subtitle"), String::from_str(sub)));
    }
    proof {
        assert(pair_views(members@) =~= json_item(
            title@,
            subtitle_view(subtitle),
            path_as_arg,
            prefix_view(*common),
        ));
    }
    json_object(&members)
}

/// Whether every path has a component at index `k`, the same in all.
pub open spec fn agree_at(paths: Seq<Seq<Seq<char>>>, k: int) -> bool {
    forall|i: int|
        0 <= i < paths.len() ==> k < (#[trigger] paths[i]).len() && paths[i][k] == paths[0][k]
}

/// The first index at or after `from` at which the paths do not agree.
pub open spec fn shared_len(paths: Seq<Seq<Seq<char>>>, from: nat) -> nat
    decreases paths[0].len() - from,
{
    if paths.len() > 0 && agree_at(paths, from as int) {
        proof {
            assert(from < paths[0].len());
        }
        shared_len(paths, from + 1)
    } else {
        from
    }
}

/// The leading components that all of `paths` share; none where there
/// are fewer than two paths.
pub open spec fn common_components(paths: Seq<Seq<Seq<char>>>) -> Seq<Seq<char>> {
    if paths.len() <= 1 {
        Seq::empty()
    } else {
        paths[0].take(shared_len(paths, 0) as int)
    }
}

/// The longest path whose components are leading components of every
/// one of the paths `texts`.
pub open spec fn common_ancestor_text(texts: Seq<Seq<char>>) -> Seq<char> {
    path_text(common_components(paths_of(texts)))
}

/// The longest leading path that all of `ss` share, component by
/// component; the empty path for fewer than two paths.
pub fn common_ancestor(ss: &[String]) -> (out: String)
    ensures
        out@ == common_ancestor_text(views(ss@)),
{
    let ghost all = paths_of(views(ss@));
    if ss.len() <= 1 {
        return String::new();
    }
    let mut paths: Vec<Vec<Vec<char>>> = Vec::new();
    let mut n: usize = 0;
    proof {
        assert(path_views(paths@) =~= all.take(0));
    }
    while n < ss.len()
        invariant
            n <= ss.len(),
            all == paths_of(views(ss@)),
            path_views(paths@) == all.take(n as int),
        decreases ss.len() - n,
    {
        let path = path_components(ss[n].as_str());
        proof {
            lemma_path_views_push(paths@, path);
            assert(all.take(n + 1) =~= all.take(n as int).push(views(path@)));
        }
        paths.push(path);
        n += 1;
    }
    proof {
        assert(all.take(ss.len() as int) =~= all);
    }
    let mut k: usize = 0;
    let mut done = false;
    while !done
        invariant
            paths.len() == ss.len(),
            ss.len() > 1,
            path_views(paths@) == all,
            k <= paths@[0].len(),
            shared_len(all, 0) == shared_len(all, k as nat),
            done ==> !agree_at(all, k as int),
        decreases paths@[0].len() - k + (if done { 0int } else { 1int }),
    {
        let mut agree = true;
        let mut i: usize = 0;
        while agree && i < paths.len()
            invariant
                i <= paths.len(),
                paths.len() > 1,
                path_views(paths@) == all,
                forall|j: int|
                    0 <= j < i ==> k < (#[trigger] all[j]).len() && all[j][k as int]
                        == all[0][k as int],
                !agree ==> !agree_at(all, k as int),
            decreases paths.len() - i + (if agree { 1int } else { 0int }),
        {
            proof {
                assert(all[i as int] == views(paths@[i as int]@));
                assert(all[0] == views(paths@[0]@));
            }
            if k < paths[i].len() && k < paths[0].len() && same_text(&paths[i][k], &paths[0][k]) {
                i += 1;
            } else {
                proof {
                    if k < paths@[i as int].len() && !(k < paths@[0].len()) {
                        assert(all[0].len() <= k);
                    }
                }
                agree = false;
            }
        }
        if agree {
            proof {
                assert(agree_at(all, k as int));
                assert(all[0] == views(paths@[0]@));
            }
            k += 1;
        } else {
            done = true;
        }
    }
    proof {
        assert(all[0] == views(paths@[0]@));
        assert(all[0].take(k as int) =~= views(paths@[0]@).subrange(0, k as int));
    }
    render(&paths[0], 0, k)
}

/// The path that the entry `s` of the configuration names, given the
/// home directory: behind `~` what follows it is taken from the home
/// directory; a path that starts at the root directory stands for
/// itself; any other is taken from the home directory.
pub open spec fn expanded(home: Seq<char>, s: Seq<char>) -> Seq<char> {
    if s.len() > 0 && s[0] == '~' {
        path_text(components(home) + names(s.skip(1)))
    } else if s.len() > 0 && s[0] == '/' {
        path_text(components(s))
    } else {
        path_text(components(home) + names(s))
    }
}

/// The path that `s` names, with `~` and relative paths taken from the
/// home directory `home`.
pub fn homedir(home: &str, s: &str) -> (out: String)
    ensures
        out@ == expanded(home@, s@),
{
    let cs = chars_of(s);
    let parts = if cs.len() > 0 && cs[0] == '~' {
        let mut parts = path_components(home);
        push_names(&cs, 1, &mut parts);
        parts
    } else if cs.len() > 0 && cs[0] == '/' {
        split(&cs)
    } else {
        let mut parts = path_components(home);
        proof {
            assert(cs@.skip(0) =~= cs@);
        }
        push_names(&cs, 0, &mut parts);
        parts
    };
    proof {
        assert(views(parts@).subrange(0, parts.len() as int) =~= views(parts@));
    }
    render(&parts, 0, parts.len())
}

/// The configuration file as it was found.
pub enum ConfigFile {
    /// There is no such file.
    Missing,
    /// The file, or the home directory, cannot be read.
    Unreadable,
    /// The text of the file.
    Contents(String),
}

/// What one line of the configuration says: nothing where it is blank or
/// a comment; else whether it excludes, and the path as it is written.
pub open spec fn config_entry(line: Seq<char>) -> Option<(bool, Seq<char>)> {
    let t = trimmed(line);
    if t.len() == 0 || t[0] == '#' {
        None
    } else if t[0] == '!' {
        Some((true, t.skip(1)))
    } else {
        Some((false, t))
    }
}

/// The paths that `lines` include, or exclude where `excluding` holds,
/// in the order of the lines.
pub open spec fn configured(lines: Seq<Seq<char>>, home: Seq<char>, excluding: bool) -> Seq<
    Seq<char>,
>
    decreases lines.len(),
{
    if lines.len() == 0 {
        Seq::empty()
    } else {
        let before = configured(lines.drop_last(), home, excluding);
        match config_entry(lines.last()) {
            Some((excludes, path)) => if excludes == excluding {
                before.push(expanded(home, path))
            } else {
                before
            },
            None => before,
        }
    }
}

/// The directories that the configuration `config` names, those that it
/// includes before those that it excludes, each list in the order of the
/// lines; the error where there is no configuration to read.
pub open spec fn config_dirs(config: ConfigFile, home: Seq<char>) -> Result<
    (Seq<Seq<char>>, Seq<Seq<char>>),
    Error,
> {
    match config {
        ConfigFile::Missing => Err(Error::ConfigMissing),
        ConfigFile::Unreadable => Err(Error::ConfigUnreadable),
        ConfigFile::Contents(text) => Ok(
            (
                configured(lines_of(text@), home, false),
                configured(lines_of(text@), home, true),
            ),
        ),
    }
}

/// Two lists of paths, or the error in their place, with each path
/// taken by its view.
pub open spec fn dirs_view(dirs: Result<(Vec<String>, Vec<String>), Error>) -> Result<
    (Seq<Seq<char>>, Seq<Seq<char>>),
    Error,
> {
    match dirs {
        Ok(lists) => Ok((views(lists.0@), views(lists.1@))),
        Err(error) => Err(error),
    }
}

/// The directories that the configuration includes and those that it
/// excludes, in this order, each list in the order of the lines.
pub fn get_dirs_from_config(config: &ConfigFile, home: &str) -> (out: Result<
    (Vec<String>, Vec<String>),
    Error,
>)
    ensures
        dirs_view(out) == config_dirs(*config, home@),
{
    let text = match config {
        ConfigFile::Missing => {
            return Err(Error::ConfigMissing);
        },
        ConfigFile::Unreadable => {
            return Err(Error::ConfigUnreadable);
        },
        ConfigFile::Contents(text) => text,
    };
    let all = lines(&chars_of(text.as_str()));
    let ghost spec_lines = views(all@);
    let mut includes: Vec<String> = Vec::new();
    let mut excludes: Vec<String> = Vec::new();
    let mut i: usize = 0;
    proof {
        assert(views(includes@) =~= configured(spec_lines.take(0), home@, false));
        assert(views(excludes@) =~= configured(spec_lines.take(0), home@, true));
    }
    while i < all.len()
        invariant
            i <= all.len(),
            spec_lines == views(all@),
            views(includes@) == configured(spec_lines.take(i as int), home@, false),
            views(excludes@) == configured(spec_lines.take(i as int), home@, true),
        decreases all.len() - i,
    {
        let line = &all[i];
        proof {
            assert(spec_lines.take(i + 1).drop_last() =~= spec_lines.take(i as int));
            assert(spec_lines.take(i + 1).last() == line@);
        }
        let (from, to) = trim_bounds(line);
        if from < to && line[from] != '#' {
            proof {
                assert(trimmed(line@)[0] == line@[from as int]);
            }
            if line[from] == '!' {
                let path = string_of(line, from + 1, to);
                proof {
                    assert(path@ =~= trimmed(line@).skip(1));
                }
                let dir = homedir(home, path.as_str());
                proof {
                    lemma_views_push(excludes@, dir);
                }
                excludes.push(dir);
            } else {
                let path = string_of(line, from, to);
                let dir = homedir(home, path.as_str());
                proof {
                    lemma_views_push(includes@, dir);
                }
                includes.push(dir);
            }
        } else {
            proof {
                if from < to {
                    assert(trimmed(line@)[0] == line@[from as int]);
                }
            }
        }
        i += 1;
    }
    proof {
        assert(spec_lines.take(all.len() as int) =~= spec_lines);
    }
    Ok((includes, excludes))
}

/// The paths of the entries that are marked as repositories, in the
/// order of the entries.
pub open spec fn marked(entries: Seq<(String, bool)>) -> Seq<Seq<Seq<char>>>
    decreases entries.len(),
{
    if entries.len() == 0 {
        Seq::empty()
    } else {
        let before = marked(entries.drop_last());
        if entries.last().1 {
            before.push(components(entries.last().0@))
        } else {
            before
        }
    }
}

/// Appends the paths of the entries that are marked as repositories.
fn push_marked(entries: &Vec<(String, bool)>, out: &mut Vec<Vec<Vec<char>>>)
    ensures
        path_views(final(out)@) == path_views(old(out)@) + marked(entries@),
{
    let ghost head = path_views(out@);
    let mut i: usize = 0;
    proof {
        assert(entries@.take(0) =~= Seq::<(String, bool)>::empty());
        assert(path_views(out@) =~= head + marked(entries@.take(0)));
    }
    while i < entries.len()
        invariant
            i <= entries.len(),
            path_views(out@) == head + marked(entries@.take(i as int)),
        decreases entries.len() - i,
    {
        proof {
            assert(entries@.take(i + 1).drop_last() =~= entries@.take(i as int));
            assert(entries@.take(i + 1).last() == entries@[i as int]);
        }
        if entries[i].1 {
            let path = path_components(entries[i].0.as_str());
            proof {
                lemma_path_views_push(out@, path);
                assert(path_views(out@.push(path)) =~= head + marked(entries@.take(i + 1)));
            }
            out.push(path);
        }
        i += 1;
    }
    proof {
        assert(entries@.take(entries.len() as int) =~= entries@);
    }
}

/// Get every repo from subdirs of `dir`
///
/// `entries` are the paths of what the directory holds, each with
/// whether it is the root of a repository. The result holds the paths
/// that are, in ascending order.
pub fn get_repos_from_dir(entries: &Vec<(String, bool)>) -> (out: Vec<String>)
    ensures
        views(out@) == texts_of(sorted(marked(entries@), by_path())),
{
    let mut found: Vec<Vec<Vec<char>>> = Vec::new();
    proof {
        assert(path_views(found@) =~= Seq::<Seq<Seq<char>>>::empty());
    }
    push_marked(entries, &mut found);
    proof {
        assert(path_views(found@) =~= marked(entries@));
    }
    render_paths(&sort_paths(&found))
}

/// What was found at a configured directory.
pub enum DirProbe {
    /// The directory is the root of a repository.
    Repository,
    /// The directory is none; these are the paths of what it holds, each
    /// with whether it is the root of a repository.
    Children(Vec<(String, bool)>),
    /// The directory is none, and cannot be listed.
    Unreadable,
}

/// A directory that the configuration names, with what was found there.
pub struct ConfiguredDir {
    /// The path of the directory.
    pub path: String,
    /// What was found there.
    pub probe: DirProbe,
}

/// The repositories that one configured directory stands for: itself
/// where it is one, else those directly below it.
pub open spec fn expansion(dir: ConfiguredDir) -> Seq<Seq<Seq<char>>> {
    match dir.probe {
        DirProbe::Repository => seq![components(dir.path@)],
        DirProbe::Children(entries) => marked(entries@),
        DirProbe::Unreadable => Seq::empty(),
    }
}

/// The repositories that the configured directories stand for, in the
/// order of the directories.
pub open spec fn expansions(dirs: Seq<ConfiguredDir>) -> Seq<Seq<Seq<char>>>
    decreases dirs.len(),
{
    if dirs.len() == 0 {
        Seq::empty()
    } else {
        expansions(dirs.drop_last()) + expansion(dirs.last())
    }
}

/// The included and the excluded repositories among the paths that the
/// configuration stands for: each list in ascending order without
/// repetition, the included ones without those that are excluded.
pub open spec fn resolved(included: Seq<Seq<Seq<char>>>, excluded: Seq<Seq<Seq<char>>>) -> (
    Seq<Seq<Seq<char>>>,
    Seq<Seq<Seq<char>>>,
) {
    let banned = distinct(sorted(excluded, by_path()));
    (without(distinct(sorted(included, by_path())), banned), banned)
}

/// The repositories that the configured directories stand for.
fn expand(dirs: &Vec<ConfiguredDir>) -> (out: Vec<Vec<Vec<char>>>)
    ensures
        path_views(out@) == expansions(dirs@),
{
    let mut out: Vec<Vec<Vec<char>>> = Vec::new();
    let mut i: usize = 0;
    proof {
        assert(dirs@.take(0) =~= Seq::<ConfiguredDir>::empty());
        assert(path_views(out@) =~= expansions(dirs@.take(0)));
    }
    while i < dirs.len()
        invariant
            i <= dirs.len(),
            path_views(out@) == expansions(dirs@.take(i as int)),
        decreases dirs.len() - i,
    {
        proof {
            assert(dirs@.take(i + 1).drop_last() =~= dirs@.take(i as int));
            assert(dirs@.take(i + 1).last() == dirs@[i as int]);
        }
        match &dirs[i].probe {
            DirProbe::Repository => {
                let path = path_components(dirs[i].path.as_str());
                proof {
                    lemma_path_views_push(out@, path);
                    assert(path_views(out@.push(path)) =~= path_views(out@) + seq![views(path@)]);
                }
                out.push(path);
            },
            DirProbe::Children(entries) => {
                push_marked(entries, &mut out);
            },
            DirProbe::Unreadable => {
                proof {
                    assert(path_views(out@) + Seq::<Seq<Seq<char>>>::empty() =~= path_views(out@));
                }
            },
        }
        i += 1;
    }
    proof {
        assert(dirs@.take(dirs.len() as int) =~= dirs@);
    }
    out
}

/// The texts of the repositories that the configured directories
/// `includes` include and of those that `excludes` exclude.
pub open spec fn resolution(includes: Seq<ConfiguredDir>, excludes: Seq<ConfiguredDir>) -> (
    Seq<Seq<char>>,
    Seq<Seq<char>>,
) {
    let lists = resolved(expansions(includes), expansions(excludes));
    (texts_of(lists.0), texts_of(lists.1))
}

/// The repositories that the configuration includes and those that it
/// excludes, given what was found at each directory that it names.
///
/// A directory that is a repository stands for itself; any other stands
/// for the repositories directly below it, and for none where it cannot
/// be listed. Each list comes out in ascending order without repetition,
/// and a repository that is excluded is not included.
pub fn get_repos_from_config(
    includes: &Vec<ConfiguredDir>,
    excludes: &Vec<ConfiguredDir>,
) -> (out: (Vec<String>, Vec<String>))
    ensures
        (views(out.0@), views(out.1@)) == resolution(includes@, excludes@),
{
    let banned = dedup_paths(&sort_paths(&expand(excludes)));
    let wanted = dedup_paths(&sort_paths(&expand(includes)));
    let kept = remove_paths(&wanted, &banned);
    (render_paths(&kept), render_paths(&banned))
}

/// The errors for the configured directories that cannot be listed,
/// each with the path of its directory.
pub open spec fn unreadable(dirs: Seq<ConfiguredDir>) -> Seq<Seq<char>>
    decreases dirs.len(),
{
    if dirs.len() == 0 {
        Seq::empty()
    } else {
        let before = unreadable(dirs.drop_last());
        if dirs.last().probe is Unreadable {
            before.push(dirs.last().path@)
        } else {
            before
        }
    }
}

/// The paths of the directories in an error list.
pub open spec fn failed_paths(errors: Seq<Error>) -> Seq<Seq<char>> {
    Seq::new(
        errors.len(),
        |i: int|
            match errors[i] {
                Error::DirectoryExpansionFailed(path) => path@,
                _ => Seq::empty(),
            },
    )
}

/// One error for each configured directory that cannot be listed.
pub fn expansion_failures(dirs: &Vec<ConfiguredDir>) -> (out: Vec<Error>)
    ensures
        forall|i: int| 0 <= i < out.len() ==> (#[trigger] out@[i]) is DirectoryExpansionFailed,
        failed_paths(out@) == unreadable(dirs@),
{
    let mut out: Vec<Error> = Vec::new();
    let mut i: usize = 0;
    proof {
        assert(dirs@.take(0) =~= Seq::<ConfiguredDir>::empty());
        assert(failed_paths(out@) =~= unreadable(dirs@.take(0)));
    }
    while i < dirs.len()
        invariant
            i <= dirs.len(),
            forall|j: int| 0 <= j < out.len() ==> (#[trigger] out@[j]) is DirectoryExpansionFailed,
            failed_paths(out@) == unreadable(dirs@.take(i as int)),
        decreases dirs.len() - i,
    {
        proof {
            assert(dirs@.take(i + 1).drop_last() =~= dirs@.take(i as int));
            assert(dirs@.take(i + 1).last() == dirs@[i as int]);
        }
        match &dirs[i].probe {
            DirProbe::Unreadable => {
                let error = Error::DirectoryExpansionFailed(dirs[i].path.clone());
                proof {
                    assert(failed_paths(out@.push(error)) =~= failed_paths(out@).push(
                        dirs@[i as int].path@,
                    ));
                }
                out.push(error);
            },
            _ => {},
        }
        i += 1;
    }
    proof {
        assert(dirs@.take(dirs.len() as int) =~= dirs@);
    }
    out
}

/// From `from` up to `shared_len` the paths agree at every index, and
/// at `shared_len` they do not.
pub proof fn lemma_shared_len(paths: Seq<Seq<Seq<char>>>, from: nat)
    requires
        paths.len() > 0,
    ensures
        from <= shared_len(paths, from),
        forall|k: int| from <= k < shared_len(paths, from) ==> agree_at(paths, k),
        !agree_at(paths, shared_len(paths, from) as int),
    decreases paths[0].len() - from,
{
    if agree_at(paths, from as int) {
        assert(from < paths[0].len());
        lemma_shared_len(paths, from + 1);
    }
}

/// An index at which the paths do not agree, while they agree at every
/// index from `from` up to it, is `shared_len`.
pub proof fn lemma_shared_len_is(paths: Seq<Seq<Seq<char>>>, from: nat, n: nat)
    requires
        paths.len() > 0,
        from <= n,
        forall|k: int| from <= k < n ==> agree_at(paths, k),
        !agree_at(paths, n as int),
    ensures
        shared_len(paths, from) == n,
    decreases n - from,
{
    if from < n {
        assert(agree_at(paths, from as int));
        lemma_shared_len_is(paths, from + 1, n);
    }
}

/// A list of fewer than two paths has the empty path as its common
/// ancestor.
pub proof fn lemma_common_ancestor_of_few(texts: Seq<Seq<char>>)
    requires
        texts.len() <= 1,
    ensures
        common_ancestor_text(texts) == Seq::<char>::empty(),
{
}

/// Where every one of two or more paths starts with the components
/// `shared`, and the paths do not all go on with one and the same
/// component, their common ancestor is the path of exactly those
/// components.
pub proof fn lemma_common_ancestor_is_shared(texts: Seq<Seq<char>>, shared: Seq<Seq<char>>)
    requires
        texts.len() >= 2,
        forall|i: int|
            0 <= i < texts.len() ==> shared.is_prefix_of(components(#[trigger] texts[i])),
        !agree_at(paths_of(texts), shared.len() as int),
    ensures
        common_components(paths_of(texts)) == shared,
        common_ancestor_text(texts) == path_text(shared),
{
    let all = paths_of(texts);
    assert forall|k: int| 0 <= k < shared.len() implies agree_at(all, k) by {
        assert forall|i: int| 0 <= i < all.len() implies k < (#[trigger] all[i]).len() && all[i][k]
            == all[0][k] by {
            assert(shared.is_prefix_of(components(texts[i])));
            assert(shared.is_prefix_of(components(texts[0])));
            assert(all[i].subrange(0, shared.len() as int)[k] == shared[k]);
            assert(all[0].subrange(0, shared.len() as int)[k] == shared[k]);
        }
    }
    lemma_shared_len_is(all, 0, shared.len());
    assert(shared.is_prefix_of(components(texts[0])));
    assert(all[0].take(shared.len() as int) =~= shared);
}

/// The components that the paths share are the first components of
/// each of them.
pub proof fn lemma_common_components_lead(paths: Seq<Seq<Seq<char>>>, i: int)
    requires
        0 <= i < paths.len(),
    ensures
        common_components(paths).is_prefix_of(paths[i]),
{
    let shared = common_components(paths);
    if paths.len() <= 1 {
        assert(paths[i].subrange(0, 0) =~= shared);
    } else {
        lemma_shared_len(paths, 0);
        let n = shared_len(paths, 0) as int;
        if n > 0 {
            assert(agree_at(paths, n - 1));
            assert(n - 1 < paths[i].len());
            assert(n - 1 < paths[0].len());
        }
        assert forall|k: int| 0 <= k < n implies paths[i][k] == paths[0][k] by {
            assert(agree_at(paths, k));
        }
        assert(paths[i].subrange(0, n) =~= paths[0].take(n));
    }
}

/// The title of the JSON item of a repository is the path that the text
/// report shows. With the common ancestor of a list of paths as the
/// prefix, that is, for each path of the list, the text of its
/// components behind the ones that the list shares; the argument of the
/// item is the path as it stands.
pub proof fn lemma_title_is_stripped_path(
    texts: Seq<Seq<char>>,
    i: int,
    subtitle: Option<Seq<char>>,
)
    requires
        0 <= i < texts.len(),
    ensures
        ({
            let prefix = common_ancestor_text(texts);
            let shared = common_components(paths_of(texts));
            let item = json_item(texts[i], subtitle, true, Some(prefix));
            &&& components(prefix) == shared
            &&& shared.is_prefix_of(components(texts[i]))
            &&& shown_path(texts[i], Some(prefix)) == path_text(
                components(texts[i]).skip(shared.len() as int),
            )
            &&& item[0] == ("title"@, shown_path(texts[i], Some(prefix)))
            &&& item[1] == ("arg"@, texts[i])
        }),
{
    let all = paths_of(texts);
    let shared = common_components(all);
    lemma_common_components_lead(all, i);
    lemma_components_well_formed(texts[i]);
    assert(shared =~= components(texts[i]).take(shared.len() as int));
    lemma_parts_well_formed(components(texts[i]), shared.len() as int);
    lemma_components_of_text(shared);
}

/// Entries of which none is marked as a repository stand for no
/// repository.
pub proof fn lemma_marked_none(entries: Seq<(String, bool)>)
    requires
        forall|i: int| 0 <= i < entries.len() ==> !(#[trigger] entries[i]).1,
    ensures
        marked(entries) == Seq::<Seq<Seq<char>>>::empty(),
    decreases entries.len(),
{
    if entries.len() > 0 {
        let before = entries.drop_last();
        assert forall|i: int| 0 <= i < before.len() implies !(#[trigger] before[i]).1 by {
            assert(before[i] == entries[i]);
        }
        lemma_marked_none(before);
        assert(!entries[entries.len() - 1].1);
    }
}

/// A configured directory that is no repository and holds none changes
/// nothing in what the configuration stands for, wherever it cannot be
/// listed or lists nothing that is marked.
pub proof fn lemma_empty_directory_adds_nothing(dirs: Seq<ConfiguredDir>, dir: ConfiguredDir)
    requires
        dir.probe is Unreadable || (dir.probe matches DirProbe::Children(entries) && forall|
            i: int,
        |
            0 <= i < entries.len() ==> !(#[trigger] entries@[i]).1),
    ensures
        expansion(dir) == Seq::<Seq<Seq<char>>>::empty(),
        expansions(dirs.push(dir)) == expansions(dirs),
{
    match dir.probe {
        DirProbe::Children(entries) => {
            lemma_marked_none(entries@);
        },
        _ => {},
    }
    assert(dirs.push(dir).drop_last() =~= dirs);
    assert(expansions(dirs) + Seq::<Seq<Seq<char>>>::empty() =~= expansions(dirs));
}

/// What `resolved` gives: both lists are strictly ascending; the
/// excluded list holds exactly the excluded paths, the included list
/// exactly the included paths that are not excluded; so no path is in
/// both.
pub proof fn lemma_resolved_sets(included: Seq<Seq<Seq<char>>>, excluded: Seq<Seq<Seq<char>>>)
    ensures
        ({
            let r = resolved(included, excluded);
            &&& strictly_ascending(r.0, by_path())
            &&& strictly_ascending(r.1, by_path())
            &&& forall|p: Seq<Seq<char>>| #[trigger] r.1.contains(p) <==> excluded.contains(p)
            &&& forall|p: Seq<Seq<char>>| #[trigger]
                r.0.contains(p) <==> included.contains(p) && !excluded.contains(p)
            &&& forall|p: Seq<Seq<char>>| !(#[trigger] r.0.contains(p) && r.1.contains(p))
        }),
{
    let less = by_path();
    lemma_path_order();
    let sorted_out = sorted(excluded, less);
    let banned = distinct(sorted_out);
    lemma_sorted_elements(excluded, less);
    lemma_sorted_ascending(excluded, less);
    lemma_distinct_elements(sorted_out);
    lemma_distinct_strict(sorted_out, less);
    let sorted_in = sorted(included, less);
    let wanted = distinct(sorted_in);
    lemma_sorted_elements(included, less);
    lemma_sorted_ascending(included, less);
    lemma_distinct_elements(sorted_in);
    lemma_distinct_strict(sorted_in, less);
    lemma_without_elements(wanted, banned);
    lemma_without_strict(wanted, banned, less);
    let r = resolved(included, excluded);
    assert forall|p: Seq<Seq<char>>| #[trigger] r.1.contains(p) <==> excluded.contains(p) by {
        assert(banned.contains(p) <==> sorted_out.contains(p));
    }
    assert forall|p: Seq<Seq<char>>| #[trigger]
        r.0.contains(p) <==> included.contains(p) && !excluded.contains(p) by {
        assert(wanted.contains(p) <==> sorted_in.contains(p));
        assert(banned.contains(p) <==> sorted_out.contains(p));
        assert(r.0.contains(p) <==> wanted.contains(p) && !banned.contains(p));
    }
}

/// Resolving what was resolved changes nothing.
pub proof fn lemma_resolved_again(included: Seq<Seq<Seq<char>>>, excluded: Seq<Seq<Seq<char>>>)
    ensures
        ({
            let r = resolved(included, excluded);
            resolved(r.0, r.1) == r
        }),
{
    let less = by_path();
    lemma_path_order();
    lemma_resolved_sets(included, excluded);
    let r = resolved(included, excluded);
    lemma_strict_is_ascending(r.1, less);
    lemma_sorted_of_ascending(r.1, less);
    lemma_distinct_of_strict(r.1, less);
    lemma_strict_is_ascending(r.0, less);
    lemma_sorted_of_ascending(r.0, less);
    lemma_distinct_of_strict(r.0, less);
    assert forall|p: Seq<Seq<char>>| r.0.contains(p) implies !r.1.contains(p) by {}
    lemma_without_disjoint(r.0, r.1);
}

/// Every path that configured directories stand for is well formed.
pub proof fn lemma_expansions_well_formed(dirs: Seq<ConfiguredDir>)
    ensures
        forall|i: int|
            0 <= i < expansions(dirs).len() ==> well_formed(#[trigger] expansions(dirs)[i]),
    decreases dirs.len(),
{
    if dirs.len() > 0 {
        let before = expansions(dirs.drop_last());
        let last = expansion(dirs.last());
        lemma_expansions_well_formed(dirs.drop_last());
        match dirs.last().probe {
            DirProbe::Repository => {
                lemma_components_well_formed(dirs.last().path@);
            },
            DirProbe::Children(entries) => {
                lemma_marked_well_formed(entries@);
            },
            DirProbe::Unreadable => {},
        }
        assert forall|i: int| 0 <= i < expansions(dirs).len() implies well_formed(
            #[trigger] expansions(dirs)[i],
        ) by {
            if i < before.len() {
                assert(expansions(dirs)[i] == before[i]);
            } else {
                assert(expansions(dirs)[i] == last[i - before.len()]);
            }
        }
    }
}

/// Every path of a marked entry is well formed.
pub proof fn lemma_marked_well_formed(entries: Seq<(String, bool)>)
    ensures
        forall|i: int|
            0 <= i < marked(entries).len() ==> well_formed(#[trigger] marked(entries)[i]),
    decreases entries.len(),
{
    if entries.len() > 0 {
        let before = marked(entries.drop_last());
        lemma_marked_well_formed(entries.drop_last());
        lemma_components_well_formed(entries.last().0@);
        assert forall|i: int| 0 <= i < marked(entries).len() implies well_formed(
            #[trigger] marked(entries)[i],
        ) by {
            if i < before.len() {
                assert(marked(entries)[i] == before[i]);
            }
        }
    }
}

/// No path is reported both as included and as excluded: the texts of
/// the two lists that `get_repos_from_config` returns have nothing in
/// common, whatever the configuration and whatever was found.
pub proof fn lemma_included_and_excluded_apart(
    includes: Seq<ConfiguredDir>,
    excludes: Seq<ConfiguredDir>,
)
    ensures
        ({
            let r = resolved(expansions(includes), expansions(excludes));
            forall|i: int, j: int|
                0 <= i < r.0.len() && 0 <= j < r.1.len() ==> #[trigger] texts_of(r.0)[i]
                    != #[trigger] texts_of(r.1)[j]
        }),
{
    let included = expansions(includes);
    let excluded = expansions(excludes);
    let r = resolved(included, excluded);
    lemma_resolved_sets(included, excluded);
    lemma_expansions_well_formed(includes);
    lemma_expansions_well_formed(excludes);
    let shown_in = texts_of(r.0);
    let shown_out = texts_of(r.1);
    assert forall|i: int, j: int|
        0 <= i < r.0.len() && 0 <= j < r.1.len() implies #[trigger] shown_in[i]
        != #[trigger] shown_out[j] by {
        let a = r.0[i];
        let b = r.1[j];
        assert(r.0.contains(a));
        assert(r.1.contains(b));
        assert(included.contains(a));
        assert(excluded.contains(b));
        let ia = choose|k: int| 0 <= k < included.len() && included[k] == a;
        let ib = choose|k: int| 0 <= k < excluded.len() && excluded[k] == b;
        assert(well_formed(included[ia]));
        assert(well_formed(excluded[ib]));
        lemma_components_of_text(a);
        lemma_components_of_text(b);
        if path_text(a) == path_text(b) {
            assert(a == b);
            assert(r.0.contains(a) && r.1.contains(a));
        }
    }
}

/// What directories stand for that are all repositories: the
/// components of their paths.
pub proof fn lemma_expansions_of_repositories(dirs: Seq<ConfiguredDir>)
    requires
        forall|i: int| 0 <= i < dirs.len() ==> (#[trigger] dirs[i]).probe is Repository,
    ensures
        expansions(dirs) == Seq::new(dirs.len(), |i: int| components(dirs[i].path@)),
    decreases dirs.len(),
{
    if dirs.len() > 0 {
        let before = dirs.drop_last();
        assert forall|i: int| 0 <= i < before.len() implies (#[trigger] before[i]).probe
            is Repository by {
            assert(before[i] == dirs[i]);
        }
        lemma_expansions_of_repositories(before);
        assert(dirs[dirs.len() - 1].probe is Repository);
    }
    assert(expansions(dirs) =~= Seq::new(dirs.len(), |i: int| components(dirs[i].path@)));
}

/// Resolving again changes nothing: with the included and the excluded
/// repositories of one run as the configured directories of a second,
/// each of them found to be a repository, the second run gives the lists
/// of the first.
pub proof fn lemma_resolution_again(
    includes: Seq<ConfiguredDir>,
    excludes: Seq<ConfiguredDir>,
    included: Seq<ConfiguredDir>,
    excluded: Seq<ConfiguredDir>,
)
    requires
        forall|i: int| 0 <= i < included.len() ==> (#[trigger] included[i]).probe is Repository,
        forall|i: int| 0 <= i < excluded.len() ==> (#[trigger] excluded[i]).probe is Repository,
        Seq::new(included.len(), |i: int| included[i].path@) == resolution(includes, excludes).0,
        Seq::new(excluded.len(), |i: int| excluded[i].path@) == resolution(includes, excludes).1,
    ensures
        resolution(included, excluded) == resolution(includes, excludes),
{
    let first_in = expansions(includes);
    let first_out = expansions(excludes);
    let lists = resolved(first_in, first_out);
    lemma_resolved_sets(first_in, first_out);
    lemma_expansions_well_formed(includes);
    lemma_expansions_well_formed(excludes);
    lemma_expansions_of_repositories(included);
    lemma_expansions_of_repositories(excluded);
    let in_paths = Seq::new(included.len(), |i: int| included[i].path@);
    let out_paths = Seq::new(excluded.len(), |i: int| excluded[i].path@);
    assert(in_paths.len() == lists.0.len());
    assert(out_paths.len() == lists.1.len());
    assert forall|i: int| 0 <= i < lists.0.len() implies components(included[i].path@)
        == lists.0[i] by {
        assert(in_paths[i] == texts_of(lists.0)[i]);
        assert(lists.0.contains(lists.0[i]));
        assert(first_in.contains(lists.0[i]));
        let k = choose|k: int| 0 <= k < first_in.len() && first_in[k] == lists.0[i];
        assert(well_formed(first_in[k]));
        lemma_components_of_text(lists.0[i]);
    }
    assert forall|i: int| 0 <= i < lists.1.len() implies components(excluded[i].path@)
        == lists.1[i] by {
        assert(out_paths[i] == texts_of(lists.1)[i]);
        assert(lists.1.contains(lists.1[i]));
        assert(first_out.contains(lists.1[i]));
        let k = choose|k: int| 0 <= k < first_out.len() && first_out[k] == lists.1[i];
        assert(well_formed(first_out[k]));
        lemma_components_of_text(lists.1[i]);
    }
    assert(expansions(included) =~= lists.0);
    assert(expansions(excluded) =~= lists.1);
    lemma_resolved_again(first_in, first_out);
}

} // verus!
