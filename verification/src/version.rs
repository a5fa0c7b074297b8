//! What counts as a compatible Python version.
//!
//! A Python request names a **floor**: `3.12` means "3.12 or newer". The
//! standalone channel publishes a moving set of builds, and pinning an exact
//! patch would break the moment that build rotated out. A caller that needs to
//! stay off a newer series sets an exclusive upper bound, which is what keeps
//! selection away from a pre-release of the next series sitting in the same
//! index.

use vstd::prelude::*;
use vstd::string::StringExecFns;

use crate::text::{
    chars_of, decimal, digit_prefix_len, digit_prefix_len_exec, head_len,
    head_len_exec, is_digit, is_white, lemma_decimal_digits, lemma_head_len, parse_u32,
    parse_u32_exec, push_decimal, slice_of, starts_with, starts_with_exec,
    strip_prefix_or_self, trim, trimmed, all_digits,
};

verus! {

/// A parsed Python version.
///
/// Ordered by major, then minor, then patch, which is what makes the floor and
/// ceiling comparisons a plain `<` and `>=`.
#[derive(Debug, Clone, Copy, PartialEq, Eq, Structural, PartialOrd, Ord, Hash)]
pub struct Version {
    /// The major component.
    pub major: u32,
    /// The minor component.
    pub minor: u32,
    /// The patch component, `0` when the spelling omits it.
    pub patch: u32,
}

/// `a` comes strictly before `b`: by major, then minor, then patch.
pub open spec fn version_lt(a: Version, b: Version) -> bool {
    ||| a.major < b.major
    ||| a.major == b.major && a.minor < b.minor
    ||| a.major == b.major && a.minor == b.minor && a.patch < b.patch
}

/// The text a version is displayed as: `major.minor.patch`.
pub open spec fn render(v: Version) -> Seq<char> {
    decimal(v.major as nat) + "."@ + decimal(v.minor as nat) + "."@ + decimal(v.patch as nat)
}

/// The patch a version spelling carries, given what follows its major
/// component: the leading digits of the third dot-separated piece, or `0`
/// when there is no third piece or it does not start with a `u32`.
pub open spec fn patch_of(rest: Seq<char>) -> u32 {
    let h1 = head_len(rest, '.');
    if h1 < rest.len() {
        let tail = rest.subrange(h1 + 1 as int, rest.len() as int);
        let piece = tail.take(head_len(tail, '.') as int);
        match parse_u32(piece.take(digit_prefix_len(piece) as int)) {
            Some(p) => p,
            None => 0,
        }
    } else {
        0
    }
}

/// What `raw` parses as.
///
/// White space is trimmed, a leading `Python ` (what `python --version`
/// prints) is dropped and the rest trimmed again. The first two pieces
/// separated by `.` must each read as a `u32`; the third, when present,
/// contributes its leading digits as the patch.
pub open spec fn spec_parse_version(raw: Seq<char>) -> Option<Version> {
    let s = trim(strip_prefix_or_self(trim(raw), "Python "@));
    let h0 = head_len(s, '.');
    if h0 >= s.len() {
        None
    } else {
        let rest = s.subrange(h0 + 1 as int, s.len() as int);
        match (parse_u32(s.take(h0 as int)), parse_u32(rest.take(head_len(rest, '.') as int))) {
            (Some(major), Some(minor)) => Some(Version { major, minor, patch: patch_of(rest) }),
            _ => None,
        }
    }
}

/// A ceiling as it takes effect: absent when missing or blank, trimmed otherwise.
pub open spec fn effective_max(maximum: Option<Seq<char>>) -> Option<Seq<char>> {
    match maximum {
        Some(m) => if trim(m).len() > 0 {
            Some(trim(m))
        } else {
            None
        },
        None => None,
    }
}

/// Whether `candidate` sits within `[minimum, maximum)`.
pub open spec fn spec_satisfies(
    candidate: Version,
    minimum: Seq<char>,
    maximum: Option<Seq<char>>,
) -> bool {
    match spec_parse_version(minimum) {
        None => false,
        Some(floor) => !version_lt(candidate, floor) && match effective_max(maximum) {
            Some(m) => match spec_parse_version(m) {
                Some(ceiling) => version_lt(candidate, ceiling),
                None => false,
            },
            None => true,
        },
    }
}

/// An optional string by its characters.
pub open spec fn opt_view(o: Option<&str>) -> Option<Seq<char>> {
    match o {
        Some(s) => Some(s@),
        None => None,
    }
}

impl Version {
    /// The version as `major.minor.patch`.
    pub fn to_string(&self) -> (r: String)
        ensures
            r@ == render(*self),
    {
        let mut out = String::new();
        push_decimal(&mut out, self.major);
        out.append(".");
        push_decimal(&mut out, self.minor);
        out.append(".");
        push_decimal(&mut out, self.patch);
        out
    }
}

/// Whether `a` comes strictly before `b`.
pub fn is_older(a: Version, b: Version) -> (r: bool)
    ensures
        r == version_lt(a, b),
{
    a.major < b.major || (a.major == b.major && a.minor < b.minor) || (a.major == b.major
        && a.minor == b.minor && a.patch < b.patch)
}

/// [`parse_version`] on the characters of a spelling.
pub fn parse_version_chars(raw: &Vec<char>) -> (r: Option<Version>)
    ensures
        r == spec_parse_version(raw@),
{
    let outer = trimmed(raw);
    let prefix = chars_of("Python ");
    let inner = if starts_with_exec(&outer, &prefix) {
        slice_of(&outer, prefix.len(), outer.len())
    } else {
        outer
    };
    let s = trimmed(&inner);
    let h0 = head_len_exec(&s, '.');
    proof {
        lemma_head_len(s@, '.');
    }
    if h0 >= s.len() {
        return None;
    }
    let rest = slice_of(&s, h0 + 1, s.len());
    let h1 = head_len_exec(&rest, '.');
    proof {
        lemma_head_len(rest@, '.');
    }
    let major = match parse_u32_exec(&slice_of(&s, 0, h0)) {
        Some(m) => m,
        None => {
            return None;
        },
    };
    let minor = match parse_u32_exec(&slice_of(&rest, 0, h1)) {
        Some(m) => m,
        None => {
            return None;
        },
    };
    let mut patch: u32 = 0;
    if h1 < rest.len() {
        let tail = slice_of(&rest, h1 + 1, rest.len());
        let h2 = head_len_exec(&tail, '.');
        proof {
            lemma_head_len(tail@, '.');
        }
        let piece = slice_of(&tail, 0, h2);
        let k = digit_prefix_len_exec(&piece);
        if let Some(p) = parse_u32_exec(&slice_of(&piece, 0, k)) {
            patch = p;
        }
    }
    Some(Version { major, minor, patch })
}

/// Parse a version from any spelling that turns up in practice.
///
/// Handles what `python --version` prints (`Python 3.12.4`), a bare version
/// (`3.12.4`), a series with no patch (`3.12`, read as `3.12.0`), and a patch
/// carrying a suffix (`3.13.0rc1`, read as `3.13.0`: a release candidate is
/// that series, and treating it as unparseable would silently drop it from
/// selection).
pub fn parse_version(raw: &str) -> (r: Option<Version>)
    ensures
        r == spec_parse_version(raw@),
{
    parse_version_chars(&chars_of(raw))
}

/// [`satisfies`] on the characters of the bounds.
pub fn satisfies_chars(candidate: Version, minimum: &Vec<char>, maximum: Option<&Vec<char>>) -> (r:
    bool)
    ensures
        r == spec_satisfies(
            candidate,
            minimum@,
            match maximum {
                Some(m) => Some(m@),
                None => None,
            },
        ),
{
    let floor = match parse_version_chars(minimum) {
        Some(floor) => floor,
        None => {
            return false;
        },
    };
    if is_older(candidate, floor) {
        return false;
    }
    match maximum {
        Some(m) => {
            let ceiling = trimmed(m);
            if ceiling.len() == 0 {
                true
            } else {
                match parse_version_chars(&ceiling) {
                    Some(c) => is_older(candidate, c),
                    None => false,
                }
            }
        },
        None => true,
    }
}

/// Whether `candidate` sits within `[minimum, maximum)`.
///
/// The upper bound is exclusive, so a ceiling of `3.15` means "anything in
/// 3.14 and below". An absent or blank ceiling means unbounded. A floor, or a
/// non-blank ceiling, that is not a version accepts nothing: accepting
/// anything would quietly install whatever the channel offered first.
pub fn satisfies(candidate: Version, minimum: &str, maximum: Option<&str>) -> (r: bool)
    ensures
        r == spec_satisfies(candidate, minimum@, opt_view(maximum)),
{
    let min = chars_of(minimum);
    match maximum {
        Some(m) => {
            let max = chars_of(m);
            satisfies_chars(candidate, &min, Some(&max))
        },
        None => satisfies_chars(candidate, &min, None),
    }
}

// ---------------------------------------------------------------------------
// Laws
// ---------------------------------------------------------------------------

proof fn lemma_trim_noop(s: Seq<char>)
    requires
        s.len() > 0,
        !is_white(s[0]),
        !is_white(s.last()),
    ensures
        trim(s) == s,
{
}

proof fn lemma_head_len_concat(x: Seq<char>, y: Seq<char>, c: char)
    requires
        forall|i: int| 0 <= i < x.len() ==> x[i] != c,
    ensures
        head_len(x + y, c) == x.len() + head_len(y, c),
    decreases x.len(),
{
    if x.len() > 0 {
        assert((x + y).drop_first() =~= x.drop_first() + y);
        lemma_head_len_concat(x.drop_first(), y, c);
    } else {
        assert(x + y =~= y);
    }
}

proof fn lemma_digit_prefix_all(x: Seq<char>)
    requires
        all_digits(x),
    ensures
        digit_prefix_len(x) == x.len(),
    decreases x.len(),
{
    if x.len() > 0 {
        assert(is_digit(x[0]));
        lemma_digit_prefix_all(x.drop_first());
    }
}

proof fn lemma_parse_decimal(n: nat)
    requires
        n <= u32::MAX,
    ensures
        parse_u32(decimal(n)) == Some(n as u32),
        forall|i: int| 0 <= i < decimal(n).len() ==> decimal(n)[i] != '.',
        !is_white(decimal(n)[0]),
        !is_white(decimal(n).last()),
{
    lemma_decimal_digits(n);
    let d = decimal(n);
    assert forall|i: int| 0 <= i < d.len() implies d[i] != '.' by {
        assert(is_digit(d[i]));
    }
    assert(is_digit(d[0]));
    assert(is_digit(d[d.len() - 1]));
}

/// Rendering a version and parsing the text gives the version back.
pub proof fn lemma_render_then_parse(v: Version)
    ensures
        spec_parse_version(render(v)) == Some(v),
{
    reveal_strlit(".");
    reveal_strlit("Python ");
    let a = decimal(v.major as nat);
    let b = decimal(v.minor as nat);
    let c = decimal(v.patch as nat);
    lemma_parse_decimal(v.major as nat);
    lemma_parse_decimal(v.minor as nat);
    lemma_parse_decimal(v.patch as nat);
    lemma_decimal_digits(v.patch as nat);
    let s = render(v);
    assert(s =~= a + (seq!['.'] + (b + (seq!['.'] + c))));
    assert(s[0] == a[0]);
    assert(s.last() == c.last());
    lemma_trim_noop(s);
    assert(!starts_with(s, "Python "@)) by {
        if starts_with(s, "Python "@) {
            assert(s.subrange(0, 7)[0] == 'P');
        }
    }
    assert(strip_prefix_or_self(s, "Python "@) == s);
    let rest = b + (seq!['.'] + c);
    lemma_head_len_concat(a, seq!['.'] + rest, '.');
    assert(head_len(seq!['.'] + rest, '.') == 0);
    assert(s.take(a.len() as int) =~= a);
    assert(s.subrange(a.len() + 1 as int, s.len() as int) =~= rest);
    lemma_head_len_concat(b, seq!['.'] + c, '.');
    assert(head_len(seq!['.'] + c, '.') == 0);
    assert(rest.take(b.len() as int) =~= b);
    assert(rest.subrange(b.len() + 1 as int, rest.len() as int) =~= c);
    lemma_head_len_concat(c, Seq::<char>::empty(), '.');
    assert(c + Seq::<char>::empty() =~= c);
    assert(c.take(c.len() as int) =~= c);
    lemma_digit_prefix_all(c);
}

/// Versions order by major, then minor, then patch, as a strict total order:
/// a smaller major comes first whatever the rest, a larger one never does;
/// within a major the minor decides, and within a series the patch.
pub proof fn lemma_version_order_is_by_major_then_minor_then_patch(a: Version, b: Version)
    ensures
        a.major < b.major ==> version_lt(a, b),
        version_lt(a, b) ==> a.major <= b.major,
        a.major == b.major && a.minor < b.minor ==> version_lt(a, b),
        a.major == b.major && version_lt(a, b) ==> a.minor <= b.minor,
        a.major == b.major && a.minor == b.minor ==> (version_lt(a, b) <==> a.patch < b.patch),
        !version_lt(a, a),
        version_lt(a, b) ==> !version_lt(b, a),
        a != b ==> version_lt(a, b) || version_lt(b, a),
{
}

/// What `satisfies` decides, component by component: with a floor that
/// parses to `floor`, a version is accepted exactly when it is at least the
/// floor by major, then minor, then patch (the floor's patch included), and,
/// under a non-blank ceiling whose trimmed text parses to `ceiling`, strictly
/// below the ceiling in the same order. Without a ceiling, or under a blank
/// one, the floor alone decides.
pub proof fn lemma_satisfies_by_components(
    v: Version,
    minimum: Seq<char>,
    floor: Version,
    maximum: Seq<char>,
    ceiling: Version,
)
    requires
        spec_parse_version(minimum) == Some(floor),
    ensures
        spec_satisfies(v, minimum, None) <==> (v.major > floor.major || (v.major == floor.major && (
        v.minor > floor.minor || (v.minor == floor.minor && v.patch >= floor.patch)))),
        trim(maximum).len() == 0 ==> (spec_satisfies(v, minimum, Some(maximum)) <==> spec_satisfies(
            v,
            minimum,
            None,
        )),
        trim(maximum).len() > 0 && spec_parse_version(trim(maximum)) == Some(ceiling) ==> (
        spec_satisfies(v, minimum, Some(maximum)) <==> ((v.major > floor.major || (v.major
            == floor.major && (v.minor > floor.minor || (v.minor == floor.minor && v.patch
            >= floor.patch)))) && (v.major < ceiling.major || (v.major == ceiling.major && (v.minor
            < ceiling.minor || (v.minor == ceiling.minor && v.patch < ceiling.patch)))))),
        trim(maximum).len() > 0 && spec_parse_version(trim(maximum)) is None ==> !spec_satisfies(
            v,
            minimum,
            Some(maximum),
        ),
{
}

/// The two-piece spelling of a series, `major.minor`, parses as that series'
/// first release: both pieces are read whole, with no digit lost or added.
pub proof fn lemma_series_then_parse(major: u32, minor: u32)
    ensures
        spec_parse_version(decimal(major as nat) + "."@ + decimal(minor as nat)) == Some(
            Version { major, minor, patch: 0 },
        ),
{
    reveal_strlit(".");
    reveal_strlit("Python ");
    let a = decimal(major as nat);
    let b = decimal(minor as nat);
    lemma_parse_decimal(major as nat);
    lemma_parse_decimal(minor as nat);
    let s = a + "."@ + b;
    assert(s =~= a + (seq!['.'] + b));
    assert(s[0] == a[0]);
    assert(s.last() == b.last());
    lemma_trim_noop(s);
    assert(!starts_with(s, "Python "@)) by {
        if starts_with(s, "Python "@) {
            assert(s.subrange(0, 7)[0] == 'P');
        }
    }
    assert(strip_prefix_or_self(s, "Python "@) == s);
    lemma_head_len_concat(a, seq!['.'] + b, '.');
    assert(head_len(seq!['.'] + b, '.') == 0);
    assert(s.take(a.len() as int) =~= a);
    assert(s.subrange(a.len() + 1 as int, s.len() as int) =~= b);
    lemma_head_len_concat(b, Seq::<char>::empty(), '.');
    assert(b + Seq::<char>::empty() =~= b);
    assert(b.take(b.len() as int) =~= b);
}

/// A request names a floor: anything at least as new as an accepted version
/// is accepted too, when there is no ceiling.
pub proof fn lemma_floor_admits_newer(
    candidate: Version,
    newer: Version,
    minimum: Seq<char>,
)
    requires
        spec_satisfies(candidate, minimum, None),
        !version_lt(newer, candidate),
    ensures
        spec_satisfies(newer, minimum, None),
{
}

/// The ceiling is exclusive: an accepted version is older than it, and the
/// ceiling's own version is never accepted.
pub proof fn lemma_ceiling_is_exclusive(
    candidate: Version,
    minimum: Seq<char>,
    maximum: Seq<char>,
    ceiling: Version,
)
    requires
        spec_parse_version(trim(maximum)) == Some(ceiling),
        trim(maximum).len() > 0,
    ensures
        spec_satisfies(candidate, minimum, Some(maximum)) ==> version_lt(candidate, ceiling),
        !spec_satisfies(ceiling, minimum, Some(maximum)),
{
}

/// A blank ceiling is no ceiling.
pub proof fn lemma_blank_ceiling_is_none(
    candidate: Version,
    minimum: Seq<char>,
    maximum: Seq<char>,
)
    requires
        trim(maximum).len() == 0,
    ensures
        spec_satisfies(candidate, minimum, Some(maximum)) == spec_satisfies(
            candidate,
            minimum,
            None,
        ),
{
}

/// A floor, or a non-blank ceiling, that is not a version accepts nothing.
pub proof fn lemma_unreadable_bound_accepts_nothing(
    candidate: Version,
    minimum: Seq<char>,
    maximum: Option<Seq<char>>,
)
    requires
        spec_parse_version(minimum) is None || (effective_max(maximum) is Some
            && spec_parse_version(effective_max(maximum)->0) is None),
    ensures
        !spec_satisfies(candidate, minimum, maximum),
{
}

} // verus!
