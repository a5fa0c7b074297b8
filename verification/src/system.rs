//! Deciding which host interpreter to try, and whether one that answered is
//! usable.
//!
//! The candidate order is the interesting part. A caller's preferred command
//! first, then the exact series the floor names (`python3.12`), then the
//! generic `python3`, then bare `python`. Trying the series-specific name
//! before the generic one matters on a machine with several interpreters
//! installed: `python3` is whatever the distribution decided, and it is often
//! older than the versioned binary sitting right next to it.

use vstd::prelude::*;
use vstd::string::StrSliceExecFns;
use vstd::string::StringExecFns;

use crate::layout::{names_view, series_name, spec_series_name};
use crate::text::{chars_of, trim, trim_range};
use crate::version::{opt_view, parse_version, spec_parse_version, spec_satisfies, satisfies, Version};

verus! {

/// `list` with `item` appended, unless it is already there.
pub open spec fn add_unique(list: Seq<Seq<char>>, item: Seq<char>) -> Seq<Seq<char>> {
    if list.contains(item) {
        list
    } else {
        list.push(item)
    }
}

/// The commands to try, in order.
pub open spec fn spec_candidates(preferred: Option<Seq<char>>, minimum: Version) -> Seq<
    Seq<char>,
> {
    let first = match preferred {
        Some(p) => seq![p],
        None => Seq::empty(),
    };
    add_unique(add_unique(add_unique(first, spec_series_name(minimum)), "python3"@), "python"@)
}

/// What an interpreter's `--version` run reports, given whether it exited
/// successfully and what it wrote: standard output when it wrote anything
/// there, standard error otherwise (older releases printed the version
/// there), trimmed; nothing for a failed run or an empty answer.
pub open spec fn spec_reported_version(succeeded: bool, stdout: Seq<char>, stderr: Seq<char>) -> Option<
    Seq<char>,
> {
    if !succeeded {
        None
    } else {
        let out = trim(stdout);
        let reported = if out.len() > 0 {
            out
        } else {
            trim(stderr)
        };
        if reported.len() == 0 {
            None
        } else {
            Some(reported)
        }
    }
}

/// The version an interpreter reported, when it reads as one within the bounds.
pub open spec fn spec_accept_reported(
    reported: Seq<char>,
    minimum: Seq<char>,
    maximum: Option<Seq<char>>,
) -> Option<Version> {
    match spec_parse_version(reported) {
        Some(v) => if spec_satisfies(v, minimum, maximum) {
            Some(v)
        } else {
            None
        },
        None => None,
    }
}

fn contains_string(list: &Vec<String>, item: &String) -> (r: bool)
    ensures
        r == names_view(list@).contains(item@),
{
    let mut i: usize = 0;
    while i < list.len()
        invariant
            i <= list.len(),
            forall|j: int| 0 <= j < i ==> list@[j]@ != item@,
        decreases list.len() - i,
    {
        if list[i] == *item {
            assert(names_view(list@)[i as int] == item@);
            return true;
        }
        i += 1;
    }
    assert(!names_view(list@).contains(item@)) by {
        if names_view(list@).contains(item@) {
            let j = choose|j: int|
                0 <= j < names_view(list@).len() && names_view(list@)[j] == item@;
            assert(list@[j]@ == item@);
        }
    }
    false
}

fn push_unique(list: &mut Vec<String>, item: String)
    ensures
        names_view(final(list)@) == add_unique(names_view(old(list)@), item@),
{
    if !contains_string(list, &item) {
        let ghost before = list@;
        list.push(item);
        assert(names_view(list@) =~= names_view(before).push(item@));
    }
}

/// The commands to try, in order: the preferred command, the series-specific
/// name, `python3`, then `python`, each once.
pub fn candidates(preferred: Option<&str>, minimum: Version) -> (r: Vec<String>)
    ensures
        names_view(r@) == spec_candidates(opt_view(preferred), minimum),
{
    let mut list: Vec<String> = Vec::new();
    if let Some(p) = preferred {
        list.push(p.to_owned());
    }
    let ghost first = names_view(list@);
    assert(first =~= match opt_view(preferred) {
        Some(p) => seq![p],
        None => Seq::<Seq<char>>::empty(),
    });
    push_unique(&mut list, series_name(minimum));
    push_unique(&mut list, "python3".to_owned());
    push_unique(&mut list, "python".to_owned());
    list
}

/// The filenames a bare command is looked for under in each directory of the
/// search path, in order: the command itself, then on Windows its `.exe`.
pub open spec fn spec_executable_names(command: Seq<char>, windows: bool) -> Seq<Seq<char>> {
    if windows {
        seq![command, command + ".exe"@]
    } else {
        seq![command]
    }
}

/// The filenames a bare command is looked for under in each directory of the
/// search path; see [`spec_executable_names`].
pub fn executable_names_for(command: &str, windows: bool) -> (r: Vec<String>)
    ensures
        names_view(r@) == spec_executable_names(command@, windows),
{
    let mut names: Vec<String> = Vec::new();
    names.push(command.to_owned());
    if windows {
        let mut exe = command.to_owned();
        exe.append(".exe");
        names.push(exe);
    }
    assert(names_view(names@) =~= spec_executable_names(command@, windows));
    names
}

/// The commands host detection probes, in order, for a floor spelled
/// `minimum`: none at all when the floor is not a version, since no
/// interpreter could then be accepted.
pub fn detection_plan(preferred: Option<&str>, minimum: &str) -> (r: Option<Vec<String>>)
    ensures
        match r {
            Some(list) => spec_parse_version(minimum@) matches Some(floor) && names_view(list@)
                == spec_candidates(opt_view(preferred), floor),
            None => spec_parse_version(minimum@) is None,
        },
{
    match parse_version(minimum) {
        Some(floor) => Some(candidates(preferred, floor)),
        None => None,
    }
}

/// What an interpreter's `--version` run reports; see [`spec_reported_version`].
pub fn reported_version(succeeded: bool, stdout: &str, stderr: &str) -> (r: Option<String>)
    ensures
        opt_string_view(r) == spec_reported_version(succeeded, stdout@, stderr@),
{
    if !succeeded {
        return None;
    }
    let out = chars_of(stdout);
    let (lo, hi) = trim_range(&out);
    if lo < hi {
        return Some(stdout.substring_char(lo, hi).to_owned());
    }
    let err = chars_of(stderr);
    let (lo, hi) = trim_range(&err);
    if lo < hi {
        Some(stderr.substring_char(lo, hi).to_owned())
    } else {
        None
    }
}

pub open spec fn opt_string_view(o: Option<String>) -> Option<Seq<char>> {
    match o {
        Some(s) => Some(s@),
        None => None,
    }
}

/// The version an interpreter reported, when it reads as one within
/// `[minimum, maximum)`: the judgement made of every probed candidate and of
/// every cached install.
pub fn accept_reported(reported: &str, minimum: &str, maximum: Option<&str>) -> (r: Option<Version>)
    ensures
        r == spec_accept_reported(reported@, minimum@, opt_view(maximum)),
{
    match parse_version(reported) {
        Some(v) => if satisfies(v, minimum, maximum) {
            Some(v)
        } else {
            None
        },
        None => None,
    }
}

// ---------------------------------------------------------------------------
// Laws
// ---------------------------------------------------------------------------

proof fn lemma_add_unique(list: Seq<Seq<char>>, item: Seq<char>)
    requires
        forall|i: int, j: int| 0 <= i < j < list.len() ==> list[i] != list[j],
    ensures
        forall|i: int, j: int|
            0 <= i < j < add_unique(list, item).len() ==> add_unique(list, item)[i] != add_unique(
                list,
                item,
            )[j],
        add_unique(list, item).contains(item),
        forall|i: int| 0 <= i < list.len() ==> add_unique(list, item)[i] == list[i],
        list.len() <= add_unique(list, item).len(),
{
    if !list.contains(item) {
        let l = list.push(item);
        assert(l[list.len() as int] == item);
        assert forall|i: int, j: int| 0 <= i < j < l.len() implies l[i] != l[j] by {
            if j == list.len() {
                assert(l[i] == list[i]);
            }
        }
    }
}

/// Each command is tried once; a preferred command is tried first; and the
/// series-specific name, `python3` and `python` are always among those tried.
pub proof fn lemma_candidates_are_distinct_and_complete(
    preferred: Option<Seq<char>>,
    minimum: Version,
)
    ensures
        forall|i: int, j: int|
            0 <= i < j < spec_candidates(preferred, minimum).len() ==> spec_candidates(
                preferred,
                minimum,
            )[i] != spec_candidates(preferred, minimum)[j],
        preferred matches Some(p) ==> spec_candidates(preferred, minimum)[0] == p,
        spec_candidates(preferred, minimum).contains(spec_series_name(minimum)),
        spec_candidates(preferred, minimum).contains("python3"@),
        spec_candidates(preferred, minimum).contains("python"@),
{
    let first: Seq<Seq<char>> = match preferred {
        Some(p) => seq![p],
        None => Seq::empty(),
    };
    let a = add_unique(first, spec_series_name(minimum));
    let b = add_unique(a, "python3"@);
    lemma_add_unique(first, spec_series_name(minimum));
    lemma_add_unique(a, "python3"@);
    lemma_add_unique(b, "python"@);
    let c = add_unique(b, "python"@);
    let s = spec_series_name(minimum);
    let ia = choose|i: int| 0 <= i < a.len() && a[i] == s;
    assert(b[ia] == s && c[ia] == s);
    let ib = choose|i: int| 0 <= i < b.len() && b[i] == "python3"@;
    assert(c[ib] == "python3"@);
    if preferred is Some {
        assert(a[0] == first[0] && b[0] == first[0] && c[0] == first[0]);
    }
}

/// A probe is accepted exactly when what it reported parses as a version
/// inside the bounds, and then as exactly that version: any version the
/// bounds admit is accepted, not only the floor's own series.
pub proof fn lemma_accepted_exactly_within_bounds(
    reported: Seq<char>,
    minimum: Seq<char>,
    maximum: Option<Seq<char>>,
    v: Version,
)
    ensures
        spec_accept_reported(reported, minimum, maximum) == Some(v) <==> (spec_parse_version(
            reported,
        ) == Some(v) && spec_satisfies(v, minimum, maximum)),
        spec_accept_reported(reported, minimum, maximum) is None <==> (spec_parse_version(reported)
            is None || !spec_satisfies(spec_parse_version(reported)->0, minimum, maximum)),
{
}

/// What a probe reports: nothing for a failed run; for a successful one,
/// standard output trimmed when it holds anything but white space, else
/// standard error trimmed, and nothing when both are blank.
pub proof fn lemma_reported_version_prefers_standard_output(
    succeeded: bool,
    stdout: Seq<char>,
    stderr: Seq<char>,
)
    ensures
        !succeeded ==> spec_reported_version(succeeded, stdout, stderr) is None,
        succeeded && trim(stdout).len() > 0 ==> spec_reported_version(succeeded, stdout, stderr)
            == Some(trim(stdout)),
        succeeded && trim(stdout).len() == 0 && trim(stderr).len() > 0 ==> spec_reported_version(
            succeeded,
            stdout,
            stderr,
        ) == Some(trim(stderr)),
        trim(stdout).len() == 0 && trim(stderr).len() == 0 ==> spec_reported_version(
            succeeded,
            stdout,
            stderr,
        ) is None,
{
}

} // verus!
