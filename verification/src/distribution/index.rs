//! The shape of the release index, and which asset in it to install.
//!
//! Selection is the part with actual judgement in it — version bounds, host
//! matching, and a preference between two builds of the same version — and
//! none of it needs a network.

use vstd::prelude::*;
use vstd::string::StrSliceExecFns;
use vstd::string::StringExecFns;

use crate::distribution::host::{spec_suffix, suffix_for};
use crate::error::{Error, ErrorView};
use crate::text::{
    chars_of, contains, contains_exec, ends_with, ends_with_exec, head_len, head_len_exec,
    lemma_head_len, lemma_lex_lt_irreflexive, lemma_lex_lt_total, lemma_lex_lt_transitive, lex_lt,
    lex_lt_exec,
    replace_all, replace_all_exec, slice_of, starts_with, starts_with_exec, strip_prefix_or_self,
    strip_suffix_or_self, trim_range,
};
use crate::version::{
    effective_max, is_older, opt_view, parse_version_chars, render, satisfies_chars,
    spec_parse_version, spec_satisfies, version_lt, Version,
};

verus! {

/// One release of the standalone Python channel.
#[derive(Debug, Clone)]
pub struct Release {
    /// The release's tag, which is a datestamp for this channel.
    pub tag_name: String,
    /// Everything published under it.
    pub assets: Vec<Asset>,
}

/// One published file in a release.
#[derive(Debug, Clone)]
pub struct Asset {
    /// The filename, which is where the version and host triple live.
    pub name: String,
    /// Where to fetch it.
    pub browser_download_url: String,
    /// The digest, when the channel published one, as `sha256:<hex>`.
    pub digest: Option<String>,
}

/// How a build is packed.
#[derive(Debug, Clone, Copy, PartialEq, Eq, Structural)]
pub enum ArchiveFormat {
    /// A gzip-compressed tar archive.
    TarGz,
}

/// The build chosen for installation.
#[derive(Debug, Clone)]
pub struct Distribution {
    /// The version the build carries, as `major.minor.patch`.
    pub version: String,
    /// The asset's filename.
    pub archive_name: String,
    /// Where to fetch it.
    pub url: String,
    /// How it is packed.
    pub format: ArchiveFormat,
    /// The cache directory it installs into, named from the asset.
    pub install_dir_name: String,
    /// The SHA-256 digest in hex, when the channel published one.
    pub expected_sha256: Option<String>,
}

/// An [`Asset`] with its text fields taken as character sequences.
pub struct AssetView {
    pub name: Seq<char>,
    pub url: Seq<char>,
    pub digest: Option<Seq<char>>,
}

/// A [`Release`] with its text fields taken as character sequences.
pub struct ReleaseView {
    pub tag: Seq<char>,
    pub assets: Seq<AssetView>,
}

/// A [`Distribution`] with its text fields taken as character sequences.
pub struct DistributionView {
    pub version: Seq<char>,
    pub archive_name: Seq<char>,
    pub url: Seq<char>,
    pub format: ArchiveFormat,
    pub install_dir_name: Seq<char>,
    pub sha256: Option<Seq<char>>,
}

pub open spec fn opt_string_view(o: Option<String>) -> Option<Seq<char>> {
    match o {
        Some(s) => Some(s@),
        None => None,
    }
}

impl View for Asset {
    type V = AssetView;

    open spec fn view(&self) -> AssetView {
        AssetView {
            name: self.name@,
            url: self.browser_download_url@,
            digest: opt_string_view(self.digest),
        }
    }
}

impl View for Release {
    type V = ReleaseView;

    open spec fn view(&self) -> ReleaseView {
        ReleaseView { tag: self.tag_name@, assets: self.assets@.map_values(|a: Asset| a@) }
    }
}

impl View for Distribution {
    type V = DistributionView;

    open spec fn view(&self) -> DistributionView {
        DistributionView {
            version: self.version@,
            archive_name: self.archive_name@,
            url: self.url@,
            format: self.format,
            install_dir_name: self.install_dir_name@,
            sha256: opt_string_view(self.expected_sha256),
        }
    }
}

/// A selection's outcome with its text fields taken as character sequences.
pub open spec fn outcome(r: Result<Distribution, Error>) -> Result<DistributionView, ErrorView> {
    match r {
        Ok(d) => Ok(d@),
        Err(e) => Err(e@),
    }
}

// ---------------------------------------------------------------------------
// What selection means
// ---------------------------------------------------------------------------

/// An `install_only` CPython archive: the channel also publishes debug
/// builds, build manifests and checksum files, none of which is a runnable
/// interpreter tree.
pub open spec fn is_install_archive(name: Seq<char>) -> bool {
    &&& starts_with(name, "cpython-"@)
    &&& ends_with(name, ".tar.gz"@)
    &&& contains(name, "install_only"@)
}

/// The stripped spelling of a host suffix.
pub open spec fn stripped_suffix(suffix: Seq<char>) -> Seq<char> {
    replace_all(suffix, "-install_only.tar.gz"@, "-install_only_stripped.tar.gz"@)
}

/// An asset targets the host: both the full and the stripped spelling of the
/// suffix count.
pub open spec fn spec_matches_host(name: Seq<char>, suffix: Seq<char>) -> bool {
    ends_with(name, suffix) || ends_with(name, stripped_suffix(suffix))
}

/// The version part of an asset name: from after `cpython-` to the `+` that
/// starts the channel's build stamp.
pub open spec fn version_text(name: Seq<char>) -> Seq<char> {
    let after = strip_prefix_or_self(name, "cpython-"@);
    after.take(head_len(after, '+') as int)
}

/// The version a usable asset for the host carries; `None` for any other asset.
pub open spec fn candidate_version(name: Seq<char>, suffix: Seq<char>) -> Option<Version> {
    if is_install_archive(name) && spec_matches_host(name, suffix) {
        spec_parse_version(version_text(name))
    } else {
        None
    }
}

/// A stripped build: no debug symbols or static libraries.
pub open spec fn is_stripped(name: Seq<char>) -> bool {
    contains(name, "install_only_stripped"@)
}

/// The hex digest a `sha256:<hex>` digest names.
pub open spec fn digest_sha256(digest: Option<Seq<char>>) -> Option<Seq<char>> {
    match digest {
        Some(d) => if starts_with(d, "sha256:"@) {
            Some(strip_prefix_or_self(d, "sha256:"@))
        } else {
            None
        },
        None => None,
    }
}

/// A usable asset for the host whose version is within the bounds.
pub open spec fn eligible(
    name: Seq<char>,
    suffix: Seq<char>,
    minimum: Seq<char>,
    maximum: Option<Seq<char>>,
) -> bool {
    match candidate_version(name, suffix) {
        Some(v) => spec_satisfies(v, minimum, maximum),
        None => false,
    }
}

/// Asset `x` ranks strictly ahead of asset `y`: newer first, then stripped
/// over full, then by name.
pub open spec fn ahead(x: Seq<char>, y: Seq<char>, suffix: Seq<char>) -> bool {
    let vx = candidate_version(x, suffix)->0;
    let vy = candidate_version(y, suffix)->0;
    ||| version_lt(vy, vx)
    ||| vx == vy && is_stripped(x) && !is_stripped(y)
    ||| vx == vy && is_stripped(x) == is_stripped(y) && lex_lt(x, y)
}

/// The position of the asset selection takes: scanning in index order, an
/// eligible asset replaces the one held so far only when it ranks strictly
/// ahead of it, so of assets that rank alike the first is kept.
pub open spec fn pick(
    assets: Seq<AssetView>,
    suffix: Seq<char>,
    minimum: Seq<char>,
    maximum: Option<Seq<char>>,
) -> Option<int>
    decreases assets.len(),
{
    if assets.len() == 0 {
        None
    } else {
        let prev = pick(assets.drop_last(), suffix, minimum, maximum);
        let last = assets.last();
        if eligible(last.name, suffix, minimum, maximum) && (prev is None || ahead(
            last.name,
            assets[prev->0].name,
            suffix,
        )) {
            Some(assets.len() - 1)
        } else {
            prev
        }
    }
}

/// The version bounds as a person reads them.
pub open spec fn spec_render_bounds(minimum: Seq<char>, maximum: Option<Seq<char>>) -> Seq<char> {
    match effective_max(maximum) {
        Some(m) => ">= "@ + minimum + " and < "@ + m,
        None => ">= "@ + minimum,
    }
}

/// The directory a build installs into: its asset name without `.tar.gz`.
pub open spec fn spec_install_dir_name(name: Seq<char>) -> Seq<char> {
    strip_suffix_or_self(name, ".tar.gz"@)
}

/// What a usable asset for the host tells about the build it holds.
pub struct CandidateView {
    pub version: Version,
    pub asset_name: Seq<char>,
    pub url: Seq<char>,
    pub sha256: Option<Seq<char>>,
    pub stripped: bool,
}

/// The candidate build an asset is: `None` unless it is an `install_only`
/// CPython archive for the host whose version text parses; otherwise its
/// version, name and URL, the hex of a `sha256:` digest, and whether it is
/// the stripped build.
pub open spec fn spec_candidate(asset: AssetView, suffix: Seq<char>) -> Option<CandidateView> {
    match candidate_version(asset.name, suffix) {
        Some(v) => Some(
            CandidateView {
                version: v,
                asset_name: asset.name,
                url: asset.url,
                sha256: digest_sha256(asset.digest),
                stripped: is_stripped(asset.name),
            },
        ),
        None => None,
    }
}

/// The distribution a candidate installs as.
pub open spec fn distribution_of(c: CandidateView) -> DistributionView {
    DistributionView {
        version: render(c.version),
        archive_name: c.asset_name,
        url: c.url,
        format: ArchiveFormat::TarGz,
        install_dir_name: spec_install_dir_name(c.asset_name),
        sha256: c.sha256,
    }
}

/// The release publishes something for the host: some asset's name ends
/// with the host suffix in one of its two spellings.
pub open spec fn publishes_for_host(assets: Seq<AssetView>, suffix: Seq<char>) -> bool {
    exists|i: int| 0 <= i < assets.len() && #[trigger] spec_matches_host(assets[i].name, suffix)
}

/// What selecting from `release` for the host suffix `suffix` gives.
///
/// Bounds that are not versions come first. `Ok(None)` means the release
/// publishes nothing for the suffix, in either spelling: for a machine, that
/// is an unsupported host, which [`spec_select`] reports as such.
/// [`ErrorView::NoMatchingBuild`] is left for a release that does hold builds
/// for the suffix but whose versions the bounds all exclude.
pub open spec fn spec_select_for_suffix(
    release: ReleaseView,
    minimum: Seq<char>,
    maximum: Option<Seq<char>>,
    suffix: Seq<char>,
) -> Result<Option<DistributionView>, ErrorView> {
    if spec_parse_version(minimum) is None {
        Err(ErrorView::InvalidVersion { value: minimum, bound: "minimum"@ })
    } else if effective_max(maximum) is Some && spec_parse_version(effective_max(maximum)->0)
        is None {
        Err(ErrorView::InvalidVersion { value: effective_max(maximum)->0, bound: "maximum"@ })
    } else if !publishes_for_host(release.assets, suffix) {
        Ok(None)
    } else {
        match pick(release.assets, suffix, minimum, maximum) {
            None => Err(
                ErrorView::NoMatchingBuild {
                    release: release.tag,
                    bounds: spec_render_bounds(minimum, maximum),
                },
            ),
            Some(k) => Ok(Some(distribution_of(spec_candidate(release.assets[k], suffix)->0))),
        }
    }
}

/// What selecting from `release` for the host `os`/`arch` gives.
///
/// A host the channel has no suffix for, and a release holding nothing for
/// the host's suffix, are both [`ErrorView::UnsupportedHost`]: the channel
/// publishes nothing for this machine. Otherwise it is selection for the
/// host's suffix.
pub open spec fn spec_select(
    release: ReleaseView,
    minimum: Seq<char>,
    maximum: Option<Seq<char>>,
    os: Seq<char>,
    arch: Seq<char>,
) -> Result<DistributionView, ErrorView> {
    match spec_suffix(os, arch) {
        None => Err(ErrorView::UnsupportedHost { os, arch }),
        Some(suffix) => match spec_select_for_suffix(release, minimum, maximum, suffix) {
            Ok(Some(d)) => Ok(d),
            Ok(None) => Err(ErrorView::UnsupportedHost { os, arch }),
            Err(e) => Err(e),
        },
    }
}

/// A suffix-level selection's outcome with its text fields taken as
/// character sequences.
pub open spec fn suffix_outcome(r: Result<Option<Distribution>, Error>) -> Result<
    Option<DistributionView>,
    ErrorView,
> {
    match r {
        Ok(Some(d)) => Ok(Some(d@)),
        Ok(None) => Ok(None),
        Err(e) => Err(e@),
    }
}

// ---------------------------------------------------------------------------
// Laws of the ranking
// ---------------------------------------------------------------------------

proof fn lemma_ahead_irreflexive(x: Seq<char>, suffix: Seq<char>)
    ensures
        !ahead(x, x, suffix),
{
    lemma_lex_lt_irreflexive(x);
}

proof fn lemma_ahead_transitive(x: Seq<char>, y: Seq<char>, z: Seq<char>, suffix: Seq<char>)
    requires
        ahead(x, y, suffix),
        ahead(y, z, suffix),
    ensures
        ahead(x, z, suffix),
{
    if lex_lt(x, y) && lex_lt(y, z) {
        lemma_lex_lt_transitive(x, y, z);
    }
}

proof fn lemma_ahead_total(x: Seq<char>, y: Seq<char>, suffix: Seq<char>)
    requires
        x != y,
    ensures
        ahead(x, y, suffix) || ahead(y, x, suffix),
{
    lemma_lex_lt_total(x, y);
}

/// How two builds rank, by their versions' components: a build of a newer
/// major, or of the same major and a newer minor, or of the same series and a
/// newer patch, ranks ahead; a build never ranks ahead of one of a newer
/// major. Of one version, a stripped build ranks ahead of a full one, and of
/// two stripped or two full builds the one earlier by name ranks ahead.
pub proof fn lemma_ranking_by_components(x: Seq<char>, y: Seq<char>, suffix: Seq<char>)
    ensures
        ({
            let vx = candidate_version(x, suffix)->0;
            let vy = candidate_version(y, suffix)->0;
            &&& vx.major > vy.major ==> ahead(x, y, suffix)
            &&& vx.major == vy.major && vx.minor > vy.minor ==> ahead(x, y, suffix)
            &&& vx.major == vy.major && vx.minor == vy.minor && vx.patch > vy.patch ==> ahead(
                x,
                y,
                suffix,
            )
            &&& ahead(x, y, suffix) ==> vx.major >= vy.major
            &&& vx == vy && is_stripped(x) && !is_stripped(y) ==> ahead(x, y, suffix)
            &&& vx == vy && is_stripped(x) == is_stripped(y) ==> (ahead(x, y, suffix) <==> lex_lt(
                x,
                y,
            ))
        }),
{
}

/// Selection keeps the first build that ranks best.
///
/// Nothing is selected exactly when no asset is a usable build for the host
/// within the bounds. Otherwise the selected asset is such a build; every
/// eligible asset before it ranks strictly behind it (older, or the same
/// version but full where it is stripped, or the same on both and later by
/// name), and no eligible asset after it ranks ahead of it.
pub proof fn lemma_pick_is_first_best(
    assets: Seq<AssetView>,
    suffix: Seq<char>,
    minimum: Seq<char>,
    maximum: Option<Seq<char>>,
)
    ensures
        pick(assets, suffix, minimum, maximum) is None <==> (forall|j: int|
            0 <= j < assets.len() ==> !#[trigger] eligible(assets[j].name, suffix, minimum, maximum)),
        pick(assets, suffix, minimum, maximum) matches Some(k) ==> {
            &&& 0 <= k < assets.len()
            &&& eligible(assets[k].name, suffix, minimum, maximum)
            &&& forall|j: int|
                0 <= j < assets.len() && j != k && #[trigger] eligible(
                    assets[j].name,
                    suffix,
                    minimum,
                    maximum,
                ) ==> (j < k ==> ahead(assets[k].name, assets[j].name, suffix)) && (k < j
                    ==> !ahead(assets[j].name, assets[k].name, suffix))
        },
    decreases assets.len(),
{
    if assets.len() > 0 {
        let d = assets.drop_last();
        let n = assets.len() - 1;
        lemma_pick_is_first_best(d, suffix, minimum, maximum);
        assert forall|j: int| 0 <= j < n implies #[trigger] assets[j] == d[j] by {}
        let prev = pick(d, suffix, minimum, maximum);
        let last = assets[n].name;
        if eligible(last, suffix, minimum, maximum) && (prev is None || ahead(
            last,
            assets[prev->0].name,
            suffix,
        )) {
            assert(pick(assets, suffix, minimum, maximum) == Some(n));
            assert forall|j: int|
                0 <= j < assets.len() && j != n && #[trigger] eligible(
                    assets[j].name,
                    suffix,
                    minimum,
                    maximum,
                ) implies ahead(last, assets[j].name, suffix) by {
                assert(eligible(d[j].name, suffix, minimum, maximum));
                let p = prev->0;
                let y = assets[p].name;
                let z = assets[j].name;
                if j < p {
                    lemma_ahead_transitive(last, y, z, suffix);
                } else if j > p {
                    if y != z {
                        lemma_ahead_total(y, z, suffix);
                        if ahead(y, z, suffix) {
                            lemma_ahead_transitive(last, y, z, suffix);
                        }
                    }
                }
            }
        } else {
            assert(pick(assets, suffix, minimum, maximum) == prev);
            if let Some(p) = prev {
                assert forall|j: int|
                    0 <= j < assets.len() && j != p && #[trigger] eligible(
                        assets[j].name,
                        suffix,
                        minimum,
                        maximum,
                    ) implies (j < p ==> ahead(assets[p].name, assets[j].name, suffix)) && (p < j
                    ==> !ahead(assets[j].name, assets[p].name, suffix)) by {
                    if j < n {
                        assert(eligible(d[j].name, suffix, minimum, maximum));
                    }
                }
            } else {
                assert forall|j: int| 0 <= j < assets.len() implies !#[trigger] eligible(
                    assets[j].name,
                    suffix,
                    minimum,
                    maximum,
                ) by {
                    if j < n {
                        assert(!eligible(d[j].name, suffix, minimum, maximum));
                    }
                }
            }
        }
        if pick(assets, suffix, minimum, maximum) is None {
            assert(!eligible(last, suffix, minimum, maximum));
        }
    }
}

/// Selection does not depend on the order of the index: when asset names are
/// distinct, a release whose assets are a permutation of another's (`order`
/// sends each new position to its old one, and `back` undoes it) selects the
/// same build, or fails with the same error.
pub proof fn lemma_select_for_suffix_ignores_index_order(
    release: ReleaseView,
    reordered: ReleaseView,
    order: Seq<int>,
    back: Seq<int>,
    minimum: Seq<char>,
    maximum: Option<Seq<char>>,
    suffix: Seq<char>,
)
    requires
        reordered.tag == release.tag,
        reordered.assets.len() == release.assets.len(),
        order.len() == release.assets.len(),
        back.len() == release.assets.len(),
        forall|i: int|
            0 <= i < order.len() ==> 0 <= #[trigger] order[i] < order.len() && reordered.assets[i]
                == release.assets[order[i]] && back[order[i]] == i,
        forall|j: int| 0 <= j < back.len() ==> 0 <= #[trigger] back[j] < back.len() && order[back[j]] == j,
        forall|i: int, j: int|
            0 <= i < j < release.assets.len() ==> release.assets[i].name != release.assets[j].name,
    ensures
        spec_select_for_suffix(reordered, minimum, maximum, suffix) == spec_select_for_suffix(
            release,
            minimum,
            maximum,
            suffix,
        ),
{
    {
        let a = release.assets;
        let b = reordered.assets;
        if publishes_for_host(a, suffix) {
            let i = choose|i: int| 0 <= i < a.len() && #[trigger] spec_matches_host(a[i].name, suffix);
            let j = back[i];
            assert(b[j] == a[i]);
            assert(spec_matches_host(b[j].name, suffix));
        }
        if publishes_for_host(b, suffix) {
            let j = choose|j: int| 0 <= j < b.len() && #[trigger] spec_matches_host(b[j].name, suffix);
            assert(b[j] == a[order[j]]);
            assert(spec_matches_host(a[order[j]].name, suffix));
        }
        lemma_pick_is_first_best(a, suffix, minimum, maximum);
        lemma_pick_is_first_best(b, suffix, minimum, maximum);
        if pick(a, suffix, minimum, maximum) is None {
            assert forall|j: int| 0 <= j < b.len() implies !#[trigger] eligible(
                b[j].name,
                suffix,
                minimum,
                maximum,
            ) by {
                assert(b[j] == a[order[j]]);
                assert(!eligible(a[order[j]].name, suffix, minimum, maximum));
            }
        } else if pick(b, suffix, minimum, maximum) is None {
            assert forall|i: int| 0 <= i < a.len() implies !#[trigger] eligible(
                a[i].name,
                suffix,
                minimum,
                maximum,
            ) by {
                assert(b[back[i]] == a[i]);
                assert(!eligible(b[back[i]].name, suffix, minimum, maximum));
            }
        } else {
            let k1 = pick(a, suffix, minimum, maximum)->0;
            let k2 = pick(b, suffix, minimum, maximum)->0;
            let j = order[k2];
            assert(b[k2] == a[j]);
            if j != k1 {
                let x = a[k1].name;
                let y = a[j].name;
                assert(eligible(y, suffix, minimum, maximum));
                assert(x != y) by {
                    if j < k1 {
                        assert(a[j].name != a[k1].name);
                    } else {
                        assert(a[k1].name != a[j].name);
                    }
                }
                lemma_ahead_total(x, y, suffix);
                assert(ahead(x, y, suffix));
                let i1 = back[k1];
                assert(b[i1] == a[k1]);
                assert(i1 != k2);
                assert(eligible(b[i1].name, suffix, minimum, maximum));
                if i1 < k2 {
                    assert(ahead(y, x, suffix));
                    lemma_ahead_transitive(x, y, x, suffix);
                    lemma_ahead_irreflexive(x, suffix);
                } else {
                    assert(!ahead(x, y, suffix));
                }
            }
        }
    }
}

/// [`lemma_select_for_suffix_ignores_index_order`] for a host named by its
/// operating system and architecture.
pub proof fn lemma_select_ignores_index_order(
    release: ReleaseView,
    reordered: ReleaseView,
    order: Seq<int>,
    back: Seq<int>,
    minimum: Seq<char>,
    maximum: Option<Seq<char>>,
    os: Seq<char>,
    arch: Seq<char>,
)
    requires
        reordered.tag == release.tag,
        reordered.assets.len() == release.assets.len(),
        order.len() == release.assets.len(),
        back.len() == release.assets.len(),
        forall|i: int|
            0 <= i < order.len() ==> 0 <= #[trigger] order[i] < order.len() && reordered.assets[i]
                == release.assets[order[i]] && back[order[i]] == i,
        forall|j: int| 0 <= j < back.len() ==> 0 <= #[trigger] back[j] < back.len() && order[back[j]] == j,
        forall|i: int, j: int|
            0 <= i < j < release.assets.len() ==> release.assets[i].name != release.assets[j].name,
    ensures
        spec_select(reordered, minimum, maximum, os, arch) == spec_select(
            release,
            minimum,
            maximum,
            os,
            arch,
        ),
{
    if let Some(suffix) = spec_suffix(os, arch) {
        lemma_select_for_suffix_ignores_index_order(
            release,
            reordered,
            order,
            back,
            minimum,
            maximum,
            suffix,
        );
    }
}

/// What selection for a suffix answers, in the terms the ranking is stated in.
///
/// A build is selected exactly when the bounds are versions and some asset is
/// eligible (a usable archive for the suffix whose version is within the
/// bounds). The selected build is the distribution of an eligible asset `k`:
/// every eligible asset before it ranks strictly behind it (older, or the same
/// version but full where it is stripped, or the same on both and later by
/// name), and none after it ranks ahead of it. `Ok(None)` comes exactly when
/// the bounds are versions and no asset targets the suffix; `NoMatchingBuild`
/// exactly when some asset targets it but none is eligible.
pub proof fn lemma_selection_is_first_best(
    release: ReleaseView,
    minimum: Seq<char>,
    maximum: Option<Seq<char>>,
    suffix: Seq<char>,
)
    ensures
        ({
            let a = release.assets;
            let bounds_read = spec_parse_version(minimum) is Some && !(effective_max(maximum) is Some
                && spec_parse_version(effective_max(maximum)->0) is None);
            &&& spec_select_for_suffix(release, minimum, maximum, suffix) is Ok ==> bounds_read
            &&& (spec_select_for_suffix(release, minimum, maximum, suffix) == Ok::<
                Option<DistributionView>,
                ErrorView,
            >(None)) == (bounds_read && !publishes_for_host(a, suffix))
            &&& (spec_select_for_suffix(release, minimum, maximum, suffix) matches Err(
                ErrorView::NoMatchingBuild { .. },
            )) == (bounds_read && publishes_for_host(a, suffix) && forall|j: int|
                0 <= j < a.len() ==> !#[trigger] eligible(a[j].name, suffix, minimum, maximum))
            &&& spec_select_for_suffix(release, minimum, maximum, suffix) matches Ok(Some(d))
                ==> exists|k: int|
                0 <= k < a.len() && d == distribution_of(
                    #[trigger] spec_candidate(a[k], suffix)->0,
                ) && eligible(a[k].name, suffix, minimum, maximum) && forall|j: int|
                    0 <= j < a.len() && j != k && #[trigger] eligible(
                        a[j].name,
                        suffix,
                        minimum,
                        maximum,
                    ) ==> (j < k ==> ahead(a[k].name, a[j].name, suffix)) && (k < j ==> !ahead(
                        a[j].name,
                        a[k].name,
                        suffix,
                    ))
        }),
{
    let a = release.assets;
    lemma_pick_is_first_best(a, suffix, minimum, maximum);
    if publishes_for_host(a, suffix) {
        if let Some(k) = pick(a, suffix, minimum, maximum) {
            assert(spec_candidate(a[k], suffix) is Some);
        }
    }
}

/// The candidate an asset is, spelled out: it is one exactly when its name
/// starts with `cpython-`, ends with `.tar.gz`, contains `install_only`, ends
/// with the suffix in either spelling, and the text between `cpython-` and
/// the first `+` parses as a version; it then records that version, the name,
/// the URL, the hex of a `sha256:` digest (nothing for any other digest) and
/// whether the name contains `install_only_stripped`.
pub proof fn lemma_candidate_record(asset: AssetView, suffix: Seq<char>)
    ensures
        spec_candidate(asset, suffix) is Some <==> (starts_with(asset.name, "cpython-"@) && ends_with(
            asset.name,
            ".tar.gz"@,
        ) && contains(asset.name, "install_only"@) && (ends_with(asset.name, suffix) || ends_with(
            asset.name,
            replace_all(suffix, "-install_only.tar.gz"@, "-install_only_stripped.tar.gz"@),
        )) && spec_parse_version(version_text(asset.name)) is Some),
        spec_candidate(asset, suffix) matches Some(c) ==> {
            &&& Some(c.version) == spec_parse_version(version_text(asset.name))
            &&& c.asset_name == asset.name
            &&& c.url == asset.url
            &&& c.sha256 == (match asset.digest {
                Some(d) => if starts_with(d, "sha256:"@) {
                    Some(d.subrange("sha256:"@.len() as int, d.len() as int))
                } else {
                    None
                },
                None => None,
            })
            &&& c.stripped == contains(asset.name, "install_only_stripped"@)
        },
{
}

/// The install directory is named from the asset, not from what the archive
/// holds: it is the chosen archive's name without `.tar.gz`, so it is never
/// the bare `python` every build unpacks into.
pub proof fn lemma_install_dir_is_named_from_the_asset(
    release: ReleaseView,
    minimum: Seq<char>,
    maximum: Option<Seq<char>>,
    suffix: Seq<char>,
)
    ensures
        spec_select_for_suffix(release, minimum, maximum, suffix) matches Ok(Some(d)) ==> {
            &&& d.install_dir_name + ".tar.gz"@ == d.archive_name
            &&& starts_with(d.archive_name, "cpython-"@)
            &&& d.install_dir_name != "python"@
        },
{
    lemma_pick_is_first_best(release.assets, suffix, minimum, maximum);
    if let Ok(Some(d)) = spec_select_for_suffix(release, minimum, maximum, suffix) {
        reveal_strlit("python");
        reveal_strlit("cpython-");
        reveal_strlit(".tar.gz");
        let k = pick(release.assets, suffix, minimum, maximum)->0;
        let name = release.assets[k].name;
        assert(eligible(name, suffix, minimum, maximum));
        assert(is_install_archive(name));
        let cut = name.len() - ".tar.gz"@.len();
        assert(d.install_dir_name == name.subrange(0, cut));
        assert(name.subrange(0, cut) + ".tar.gz"@ =~= name);
        if d.install_dir_name == "python"@ {
            assert(name.subrange(0, 8)[0] == name[0]);
            assert(name[0] == d.install_dir_name[0]);
        }
    }
}

// ---------------------------------------------------------------------------
// Executable selection
// ---------------------------------------------------------------------------

/// Whether an asset name targets the host whose suffix is `suffix`.
///
/// Both spellings of the suffix count: the channel publishes a full
/// `-install_only.tar.gz` and a smaller `-install_only_stripped.tar.gz` for the
/// same triple, and both are usable.
fn matches_host(name: &Vec<char>, suffix: &Vec<char>) -> (r: bool)
    ensures
        r == spec_matches_host(name@, suffix@),
{
    if ends_with_exec(name, suffix) {
        return true;
    }
    let full = chars_of("-install_only.tar.gz");
    let stripped_spelling = chars_of("-install_only_stripped.tar.gz");
    proof {
        reveal_strlit("-install_only.tar.gz");
    }
    let stripped = replace_all_exec(suffix, &full, &stripped_spelling);
    ends_with_exec(name, &stripped)
}

/// The version an asset name carries when it is a usable archive for the host.
fn candidate_version_of(name: &Vec<char>, suffix: &Vec<char>) -> (r: Option<Version>)
    ensures
        r == candidate_version(name@, suffix@),
{
    let prefix = chars_of("cpython-");
    if !(starts_with_exec(name, &prefix) && ends_with_exec(name, &chars_of(".tar.gz"))
        && contains_exec(name, &chars_of("install_only"))) {
        return None;
    }
    if !matches_host(name, suffix) {
        return None;
    }
    let after = slice_of(name, prefix.len(), name.len());
    let h = head_len_exec(&after, '+');
    proof {
        lemma_head_len(after@, '+');
    }
    parse_version_chars(&slice_of(&after, 0, h))
}

/// A candidate build, parsed out of an asset.
struct Candidate {
    version: Version,
    asset_name: String,
    url: String,
    sha256: Option<String>,
    stripped: bool,
}

impl View for Candidate {
    type V = CandidateView;

    closed spec fn view(&self) -> CandidateView {
        CandidateView {
            version: self.version,
            asset_name: self.asset_name@,
            url: self.url@,
            sha256: opt_string_view(self.sha256),
            stripped: self.stripped,
        }
    }
}

/// The hex of a `sha256:<hex>` digest; nothing for any other digest.
fn sha256_of(digest: &Option<String>) -> (r: Option<String>)
    ensures
        opt_string_view(r) == digest_sha256(opt_string_view(*digest)),
{
    match digest {
        Some(d) => {
            let text = chars_of(d.as_str());
            let tag = chars_of("sha256:");
            if starts_with_exec(&text, &tag) {
                Some(d.as_str().substring_char(tag.len(), text.len()).to_owned())
            } else {
                None
            }
        },
        None => None,
    }
}

/// Parse one asset into a candidate, or skip it.
///
/// Only `install_only` archives for the host are considered; the channel also
/// publishes full build artifacts with debug information and a build
/// manifest, which are large and are not a runnable interpreter tree.
fn candidate(asset: &Asset, suffix: &Vec<char>) -> (r: Option<Candidate>)
    ensures
        match r {
            Some(c) => spec_candidate(asset@, suffix@) == Some(c@),
            None => spec_candidate(asset@, suffix@) is None,
        },
{
    let name = chars_of(asset.name.as_str());
    let version = match candidate_version_of(&name, suffix) {
        Some(v) => v,
        None => {
            return None;
        },
    };
    let stripped = contains_exec(&name, &chars_of("install_only_stripped"));
    Some(
        Candidate {
            version,
            asset_name: asset.name.clone(),
            url: asset.browser_download_url.clone(),
            sha256: sha256_of(&asset.digest),
            stripped,
        },
    )
}

/// Whether some asset of the release targets the host.
fn publishes_for(assets: &Vec<Asset>, suffix: &Vec<char>) -> (r: bool)
    ensures
        r == publishes_for_host(assets@.map_values(|a: Asset| a@), suffix@),
{
    let ghost views = assets@.map_values(|a: Asset| a@);
    let mut i: usize = 0;
    while i < assets.len()
        invariant
            i <= assets.len(),
            views == assets@.map_values(|a: Asset| a@),
            forall|j: int| 0 <= j < i ==> !#[trigger] spec_matches_host(views[j].name, suffix@),
        decreases assets.len() - i,
    {
        let name = chars_of(assets[i].name.as_str());
        assert(views[i as int].name == name@);
        if matches_host(&name, suffix) {
            return true;
        }
        i += 1;
    }
    false
}

/// Whether the name `x` ranks strictly ahead of the name `y`, given their
/// versions and whether each is stripped.
fn is_ahead(
    x: &Vec<char>,
    vx: Version,
    sx: bool,
    y: &Vec<char>,
    vy: Version,
    sy: bool,
    suffix: Ghost<Seq<char>>,
) -> (r: bool)
    requires
        candidate_version(x@, suffix@) == Some(vx),
        candidate_version(y@, suffix@) == Some(vy),
        sx == is_stripped(x@),
        sy == is_stripped(y@),
    ensures
        r == ahead(x@, y@, suffix@),
{
    if is_older(vy, vx) {
        true
    } else if vx == vy && sx && !sy {
        true
    } else if vx == vy && sx == sy {
        lex_lt_exec(x, y)
    } else {
        false
    }
}

/// The position [`pick`] names, with the version the asset there carries.
fn pick_exec(
    assets: &Vec<Asset>,
    suffix: &Vec<char>,
    minimum: &Vec<char>,
    maximum: Option<&Vec<char>>,
) -> (r: Option<(usize, Version)>)
    ensures
        match r {
            Some((k, v)) => pick(
                assets@.map_values(|a: Asset| a@),
                suffix@,
                minimum@,
                opt_vec_view(maximum),
            ) == Some(k as int) && k < assets.len() && candidate_version(assets@[k as int].name@, suffix@)
                == Some(v),
            None => pick(
                assets@.map_values(|a: Asset| a@),
                suffix@,
                minimum@,
                opt_vec_view(maximum),
            ) is None,
        },
{
    let ghost views = assets@.map_values(|a: Asset| a@);
    let ghost max = opt_vec_view(maximum);
    let marker = chars_of("install_only_stripped");
    let mut best: Option<usize> = None;
    let mut best_v = Version { major: 0, minor: 0, patch: 0 };
    let mut best_s = false;
    let mut best_n: Vec<char> = Vec::new();
    let mut i: usize = 0;
    assert(views.take(0) =~= Seq::<AssetView>::empty());
    while i < assets.len()
        invariant
            i <= assets.len(),
            views == assets@.map_values(|a: Asset| a@),
            max == opt_vec_view(maximum),
            marker@ == "install_only_stripped"@,
            pick(views.take(i as int), suffix@, minimum@, max) == match best {
                Some(k) => Some(k as int),
                None => None::<int>,
            },
            best matches Some(k) ==> {
                &&& k < i
                &&& candidate_version(views[k as int].name, suffix@) == Some(best_v)
                &&& best_s == is_stripped(views[k as int].name)
                &&& best_n@ == views[k as int].name
            },
        decreases assets.len() - i,
    {
        let name = chars_of(assets[i].name.as_str());
        assert(views[i as int].name == name@);
        let ghost prefix = views.take(i + 1);
        assert(prefix.drop_last() =~= views.take(i as int));
        assert(prefix.last() == views[i as int]);
        proof {
            if let Some(k) = best {
                assert(prefix[k as int] == views[k as int]);
            }
        }
        if let Some(v) = candidate_version_of(&name, suffix) {
            if satisfies_chars(v, minimum, maximum) {
                let s = contains_exec(&name, &marker);
                let take = match best {
                    None => true,
                    Some(_) => is_ahead(&name, v, s, &best_n, best_v, best_s, Ghost(suffix@)),
                };
                if take {
                    best = Some(i);
                    best_v = v;
                    best_s = s;
                    best_n = name;
                }
            }
        }
        i += 1;
    }
    assert(views.take(assets.len() as int) =~= views);
    match best {
        Some(k) => Some((k, best_v)),
        None => None,
    }
}

pub open spec fn opt_vec_view(o: Option<&Vec<char>>) -> Option<Seq<char>> {
    match o {
        Some(v) => Some(v@),
        None => None,
    }
}

/// The bounds rendered for an error a person reads.
fn render_bounds(minimum: &str, maximum: Option<&str>) -> (r: String)
    ensures
        r@ == spec_render_bounds(minimum@, opt_view(maximum)),
{
    let mut out = String::new();
    out.append(">= ");
    out.append(minimum);
    if let Some(m) = maximum {
        let chars = chars_of(m);
        let (lo, hi) = trim_range(&chars);
        if lo < hi {
            out.append(" and < ");
            out.append(m.substring_char(lo, hi));
        }
    }
    out
}

/// The directory name a build installs into, derived from its asset name.
///
/// The archive expands into a plain `python/` directory, identical across
/// every build, so the install directory has to be named from the asset
/// rather than from what is inside it — otherwise every version would want
/// the same directory.
fn install_dir_name(asset_name: &str) -> (r: String)
    ensures
        r@ == spec_install_dir_name(asset_name@),
{
    let name = chars_of(asset_name);
    let archive = chars_of(".tar.gz");
    if ends_with_exec(&name, &archive) {
        asset_name.substring_char(0, name.len() - archive.len()).to_owned()
    } else {
        asset_name.to_owned()
    }
}

/// Pick the build to install from `release` for the host suffix `suffix`.
///
/// Preference order, applied in turn: newest version first, then a stripped
/// build over a full one, then the name; of assets that rank alike, the first
/// in the index. Gives `Ok(None)` when no asset targets the suffix in either
/// spelling, so the caller can name the host it was choosing for. Fails with
/// [`Error::InvalidVersion`] when a bound is not a version and with
/// [`Error::NoMatchingBuild`] when the bounds excluded every build for the
/// suffix.
pub fn select_for_suffix(
    release: &Release,
    minimum: &str,
    maximum: Option<&str>,
    suffix: &str,
) -> (r: Result<Option<Distribution>, Error>)
    ensures
        suffix_outcome(r) == spec_select_for_suffix(release@, minimum@, opt_view(maximum), suffix@),
{
    let min = chars_of(minimum);
    if parse_version_chars(&min).is_none() {
        return Err(Error::InvalidVersion { value: minimum.to_owned(), bound: "minimum" });
    }
    let max_chars: Option<Vec<char>> = match maximum {
        Some(m) => Some(chars_of(m)),
        None => None,
    };
    if let Some(m) = maximum {
        let chars = chars_of(m);
        let (lo, hi) = trim_range(&chars);
        if lo < hi && parse_version_chars(&slice_of(&chars, lo, hi)).is_none() {
            return Err(
                Error::InvalidVersion { value: m.substring_char(lo, hi).to_owned(), bound: "maximum" },
            );
        }
    }
    let max_ref: Option<&Vec<char>> = match &max_chars {
        Some(m) => Some(m),
        None => None,
    };
    assert(opt_vec_view(max_ref) == opt_view(maximum));
    let suffix_chars = chars_of(suffix);
    if !publishes_for(&release.assets, &suffix_chars) {
        return Ok(None);
    }
    match pick_exec(&release.assets, &suffix_chars, &min, max_ref) {
        None => Err(
            Error::NoMatchingBuild {
                release: release.tag_name.clone(),
                bounds: render_bounds(minimum, maximum),
            },
        ),
        Some((k, _)) => {
            assert(release@.assets[k as int] == release.assets[k as int]@);
            match candidate(&release.assets[k], &suffix_chars) {
                Some(chosen) => {
                    let install_dir_name = install_dir_name(chosen.asset_name.as_str());
                    Ok(
                        Some(
                            Distribution {
                                version: chosen.version.to_string(),
                                archive_name: chosen.asset_name,
                                url: chosen.url,
                                format: ArchiveFormat::TarGz,
                                install_dir_name,
                                expected_sha256: chosen.sha256,
                            },
                        ),
                    )
                },
                None => {
                    assert(false);
                    Err(Error::IndexUnavailable(String::new()))
                },
            }
        },
    }
}

/// Pick the build to install from `release` for the host `os`/`arch`, as
/// Rust names them.
///
/// Fails with [`Error::UnsupportedHost`] when the channel publishes nothing
/// for this machine: no suffix in the table, or nothing in the release for
/// it. Otherwise as [`select_for_suffix`] for the host's suffix.
pub fn select(release: &Release, minimum: &str, maximum: Option<&str>, os: &str, arch: &str) -> (r:
    Result<Distribution, Error>)
    ensures
        outcome(r) == spec_select(release@, minimum@, opt_view(maximum), os@, arch@),
{
    let suffix = match suffix_for(os, arch) {
        Ok(suffix) => suffix,
        Err(e) => {
            return Err(e);
        },
    };
    match select_for_suffix(release, minimum, maximum, suffix) {
        Ok(Some(d)) => Ok(d),
        Ok(None) => Err(Error::UnsupportedHost { os: os.to_owned(), arch: arch.to_owned() }),
        Err(e) => Err(e),
    }
}

} // verus!
