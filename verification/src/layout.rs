//! Where a Python install keeps its executables.
//!
//! The interpreter's filename varies with the version: a standalone build
//! ships `bin/python3.12` and usually links `bin/python3` and `bin/python` to
//! it, but which of those exist is not guaranteed, so the search tries the
//! specific name first and falls back.
//!
//! * Unix: `<install>/python/bin/{python3.N,python3,python}`.
//! * Windows: `<install>/python/python.exe`, with no `bin` directory.
//!
//! The `python/` component is the standalone channel's own doing: every build,
//! of every version, unpacks into a directory with that name. A layout without
//! it (a host install, or a build laid out differently) is tried second. The
//! search tries the conventional locations rather than walking the tree: a
//! walk would happily find an interpreter bundled inside some package's test
//! fixtures.

use vstd::prelude::*;
use vstd::string::StringExecFns;

use crate::text::{decimal, push_decimal, starts_with};
use crate::version::{lemma_series_then_parse, spec_parse_version, Version};

verus! {

/// A list of strings by their characters.
pub open spec fn names_view(v: Seq<String>) -> Seq<Seq<char>> {
    v.map_values(|s: String| s@)
}

/// The versioned interpreter name of a series: `python3.12` for `3.12`.
pub open spec fn spec_series_name(series: Version) -> Seq<char> {
    "python"@ + decimal(series.major as nat) + "."@ + decimal(series.minor as nat)
}

/// Interpreter filenames to try, most specific first: on Unix the versioned
/// name of the series looked for, when there is one, then `python3`, then
/// `python`.
pub open spec fn spec_interpreter_names(windows: bool, series: Option<Version>) -> Seq<Seq<char>> {
    if windows {
        seq!["python.exe"@]
    } else {
        match series {
            Some(v) => seq![spec_series_name(v), "python3"@, "python"@],
            None => seq!["python3"@, "python"@],
        }
    }
}

/// Package-installer filenames to try.
pub open spec fn spec_pip_names(windows: bool) -> Seq<Seq<char>> {
    if windows {
        seq!["pip.exe"@, "pip3.exe"@]
    } else {
        seq!["pip3"@, "pip"@]
    }
}

/// The directories, relative to an install, that may hold the interpreter,
/// in the order they are tried: inside the channel's `python/` wrapper first,
/// then the install itself.
pub open spec fn spec_bin_dirs(windows: bool) -> Seq<Seq<Seq<char>>> {
    if windows {
        seq![seq!["python"@], Seq::empty()]
    } else {
        seq![seq!["python"@, "bin"@], seq!["bin"@]]
    }
}

/// The paths `dir/name` for each of `names`, in order.
pub open spec fn under_each(dir: Seq<Seq<char>>, names: Seq<Seq<char>>) -> Seq<Seq<Seq<char>>> {
    names.map_values(|name: Seq<char>| dir.push(name))
}

/// Every place the interpreter is looked for, as path components relative to
/// the install, in the order they are tried: each name in the first
/// directory, then each name in the second.
pub open spec fn spec_interpreter_paths(windows: bool, series: Option<Version>) -> Seq<
    Seq<Seq<char>>,
> {
    let dirs = spec_bin_dirs(windows);
    let names = spec_interpreter_names(windows, series);
    under_each(dirs[0], names) + under_each(dirs[1], names)
}

/// A list of paths by their components' characters.
pub open spec fn paths_view(v: Seq<Vec<String>>) -> Seq<Seq<Seq<char>>> {
    v.map_values(|p: Vec<String>| names_view(p@))
}

/// The series name is `python` followed by text that parses back as the
/// series: its major and minor whole, patch `0`.
pub proof fn lemma_series_name_reads_back(series: Version)
    ensures
        starts_with(spec_series_name(series), "python"@),
        spec_parse_version(spec_series_name(series).subrange(6, spec_series_name(series).len() as int))
            == Some(Version { major: series.major, minor: series.minor, patch: 0 }),
{
    reveal_strlit("python");
    let tail = decimal(series.major as nat) + "."@ + decimal(series.minor as nat);
    let name = spec_series_name(series);
    assert(name =~= "python"@ + tail);
    assert(name.subrange(0, 6) =~= "python"@);
    assert(name.subrange(6, name.len() as int) =~= tail);
    lemma_series_then_parse(series.major, series.minor);
}

/// On Unix, when a series is looked for, its versioned name is tried first
/// in each directory, before `python3` and `python`.
pub proof fn lemma_versioned_name_comes_first(series: Version)
    ensures
        spec_interpreter_paths(false, Some(series))[0] == seq![
            "python"@,
            "bin"@,
            spec_series_name(series),
        ],
        spec_interpreter_paths(false, Some(series))[3] == seq!["bin"@, spec_series_name(series)],
        spec_interpreter_paths(false, Some(series)).len() == 6,
{
    let p = spec_interpreter_paths(false, Some(series));
    assert(p[0] =~= seq!["python"@, "bin"@, spec_series_name(series)]);
    assert(p[3] =~= seq!["bin"@, spec_series_name(series)]);
}

fn owned(s: &str) -> (r: String)
    ensures
        r@ == s@,
{
    s.to_owned()
}

/// The versioned interpreter name of a series: `python3.12` for `3.12`.
pub fn series_name(series: Version) -> (r: String)
    ensures
        r@ == spec_series_name(series),
{
    let mut name = String::new();
    name.append("python");
    push_decimal(&mut name, series.major);
    name.append(".");
    push_decimal(&mut name, series.minor);
    name
}

/// Interpreter filenames to try on the named platform, most specific first;
/// `series` is the series looked for, when one is.
pub fn interpreter_names_for(windows: bool, series: Option<Version>) -> (r: Vec<String>)
    ensures
        names_view(r@) == spec_interpreter_names(windows, series),
{
    let mut names: Vec<String> = Vec::new();
    if windows {
        names.push(owned("python.exe"));
    } else {
        if let Some(v) = series {
            names.push(series_name(v));
        }
        names.push(owned("python3"));
        names.push(owned("python"));
    }
    assert(names_view(names@) =~= spec_interpreter_names(windows, series));
    names
}

/// Package-installer filenames to try on the named platform.
pub fn pip_names_for(windows: bool) -> (r: Vec<String>)
    ensures
        names_view(r@) == spec_pip_names(windows),
{
    let mut names: Vec<String> = Vec::new();
    if windows {
        names.push(owned("pip.exe"));
        names.push(owned("pip3.exe"));
    } else {
        names.push(owned("pip3"));
        names.push(owned("pip"));
    }
    assert(names_view(names@) =~= spec_pip_names(windows));
    names
}

fn bin_dirs_for(windows: bool) -> (r: Vec<Vec<String>>)
    ensures
        paths_view(r@) == spec_bin_dirs(windows),
{
    let mut first: Vec<String> = Vec::new();
    let mut second: Vec<String> = Vec::new();
    first.push(owned("python"));
    if !windows {
        first.push(owned("bin"));
        second.push(owned("bin"));
    }
    let mut dirs: Vec<Vec<String>> = Vec::new();
    dirs.push(first);
    dirs.push(second);
    assert(paths_view(dirs@)[0] =~= spec_bin_dirs(windows)[0]);
    assert(paths_view(dirs@)[1] =~= spec_bin_dirs(windows)[1]);
    assert(paths_view(dirs@) =~= spec_bin_dirs(windows));
    dirs
}

/// `dir` with `name` appended.
fn joined(dir: &Vec<String>, name: &String) -> (r: Vec<String>)
    ensures
        names_view(r@) == names_view(dir@).push(name@),
{
    let mut path: Vec<String> = Vec::new();
    let mut k: usize = 0;
    while k < dir.len()
        invariant
            k <= dir.len(),
            names_view(path@) == names_view(dir@).take(k as int),
        decreases dir.len() - k,
    {
        let part = dir[k].clone();
        assert(part@ == dir@[k as int]@);
        let ghost prev = path@;
        path.push(part);
        assert(path@ == prev.push(part));
        assert(names_view(path@) =~= names_view(prev).push(part@));
        assert(names_view(dir@).take(k + 1) =~= names_view(dir@).take(k as int).push(
            names_view(dir@)[k as int],
        ));
        assert(names_view(path@) =~= names_view(dir@).take(k + 1));
        k += 1;
    }
    assert(names_view(dir@).take(dir.len() as int) =~= names_view(dir@));
    let last = name.clone();
    assert(last@ == name@);
    let ghost prev = path@;
    path.push(last);
    assert(path@ == prev.push(last));
    assert(names_view(path@) =~= names_view(dir@).push(name@));
    path
}

/// Append `dir/name` for each of `names` to `out`.
fn push_under_each(out: &mut Vec<Vec<String>>, dir: &Vec<String>, names: &Vec<String>)
    ensures
        paths_view(final(out)@) == paths_view(old(out)@) + under_each(
            names_view(dir@),
            names_view(names@),
        ),
{
    let ghost before = paths_view(out@);
    let mut j: usize = 0;
    while j < names.len()
        invariant
            j <= names.len(),
            paths_view(out@) == before + under_each(names_view(dir@), names_view(names@).take(
                j as int,
            )),
        decreases names.len() - j,
    {
        let path = joined(dir, &names[j]);
        let ghost prev = out@;
        out.push(path);
        assert(out@ == prev.push(path));
        assert(paths_view(out@) =~= paths_view(prev).push(names_view(path@)));
        assert(under_each(names_view(dir@), names_view(names@).take(j + 1)) =~= under_each(
            names_view(dir@),
            names_view(names@).take(j as int),
        ).push(names_view(dir@).push(names@[j as int]@)));
        assert(paths_view(out@) =~= before + under_each(
            names_view(dir@),
            names_view(names@).take(j + 1),
        ));
        j += 1;
    }
    assert(names_view(names@).take(names.len() as int) =~= names_view(names@));
}

/// Every place the interpreter is looked for on the named platform, as path
/// components relative to the install, in the order they are tried; `series`
/// is the series looked for, when one is.
pub fn interpreter_paths_for(windows: bool, series: Option<Version>) -> (r: Vec<Vec<String>>)
    ensures
        paths_view(r@) == spec_interpreter_paths(windows, series),
{
    let names = interpreter_names_for(windows, series);
    let dirs = bin_dirs_for(windows);
    assert(paths_view(dirs@).len() == 2);
    let mut paths: Vec<Vec<String>> = Vec::new();
    assert(paths_view(paths@) =~= Seq::<Seq<Seq<char>>>::empty());
    push_under_each(&mut paths, &dirs[0], &names);
    push_under_each(&mut paths, &dirs[1], &names);
    assert(paths_view(paths@) =~= spec_interpreter_paths(windows, series));
    paths
}

} // verus!
