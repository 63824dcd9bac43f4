//! The export target: Quadlet output is for Podman, over a range of Podman releases that the
//! capability catalogue covers.

use vstd::prelude::*;
use crate::number::{decimal_text, push_decimal};
use crate::text::{chars_of, same_chars, string_from};
use quadlet_lens::capability::CapabilityCatalogue;

verus! {

broadcast use vstd::string::group_string_axioms;

/// A Podman release, `major.minor.patch`.
#[derive(Clone, Copy, Debug, PartialEq, Eq, Structural)]
pub struct PodmanRelease {
    pub major: u64,
    pub minor: u64,
    pub patch: u64,
}

/// `a` comes before `b`: by major, then minor, then patch number.
pub open spec fn release_before(a: PodmanRelease, b: PodmanRelease) -> bool {
    a.major < b.major || (a.major == b.major && (a.minor < b.minor || (a.minor == b.minor && a.patch < b.patch)))
}

/// Whether release `a` comes before release `b`.
pub fn is_release_before(a: PodmanRelease, b: PodmanRelease) -> (before: bool)
    ensures
        before == release_before(a, b),
{
    a.major < b.major || (a.major == b.major && (a.minor < b.minor || (a.minor == b.minor && a.patch < b.patch)))
}

/// The spelling of a release, `major.minor.patch`.
pub open spec fn release_text(r: PodmanRelease) -> Seq<char> {
    decimal_text(r.major as nat) + seq!['.'] + decimal_text(r.minor as nat) + seq!['.'] + decimal_text(r.patch as nat)
}

fn push_release(out: &mut Vec<char>, r: PodmanRelease)
    ensures
        final(out)@ == old(out)@ + release_text(r),
{
    push_decimal(out, r.major);
    out.push('.');
    push_decimal(out, r.minor);
    out.push('.');
    push_decimal(out, r.patch);
    assert(final(out)@ =~= old(out)@ + release_text(r));
}

fn push_text(out: &mut Vec<char>, text: &str)
    ensures
        final(out)@ == old(out)@ + text@,
{
    let chars = chars_of(text);
    let mut i: usize = 0;
    while i < chars.len()
        invariant
            i <= chars@.len(),
            chars@ == text@,
            out@ == old(out)@ + text@.take(i as int),
        decreases chars@.len() - i,
    {
        out.push(chars[i]);
        assert(out@ =~= old(out)@ + text@.take(i + 1));
        i = i + 1;
    }
    assert(text@.take(text@.len() as int) =~= text@);
}

/// Why a target cannot be exported to.
#[derive(Clone, Debug, PartialEq, Eq)]
pub enum TargetIssue {
    /// The target implementation is not Podman.
    NotPodman,
    /// The requested range leaves the catalogue's coverage; what was requested and covered.
    OutsideCatalogue(String),
    /// The requested maximum comes before the requested minimum.
    InvertedRange,
}

impl TargetIssue {
    /// What is wrong with the target, and what to do or know about it.
    pub fn explanation(&self) -> (texts: (&'static str, String))
        ensures
            match self {
                TargetIssue::NotPodman => texts.0@ == "Quadlet output requires the `podman` target implementation"@
                    && texts.1@ == "select target implementation `podman`"@,
                TargetIssue::OutsideCatalogue(detail) => texts.0@
                    == "requested Podman range is outside the verified QuadletLens catalogue"@ && texts.1@ == detail@,
                TargetIssue::InvertedRange => texts.0@ == "requested Podman range is invalid"@ && texts.1@
                    == "maximum version is before minimum version"@,
            },
    {
        match self {
            TargetIssue::NotPodman => (
                "Quadlet output requires the `podman` target implementation",
                "select target implementation `podman`".to_string(),
            ),
            TargetIssue::OutsideCatalogue(detail) => (
                "requested Podman range is outside the verified QuadletLens catalogue",
                detail.clone(),
            ),
            TargetIssue::InvertedRange => (
                "requested Podman range is invalid",
                "maximum version is before minimum version".to_string(),
            ),
        }
    }
}

/// The Podman range exported to.
#[derive(Clone, Copy, Debug, PartialEq, Eq, Structural)]
pub struct TargetRange {
    pub minimum: PodmanRelease,
    pub maximum: Option<PodmanRelease>,
}

/// The detail of a range outside the catalogue: `requested MIN through MAX; verified coverage
/// is LOW through HIGH`, with `open ended` for an omitted maximum.
pub open spec fn coverage_detail(
    minimum: PodmanRelease,
    maximum: Option<PodmanRelease>,
    coverage: (PodmanRelease, PodmanRelease),
) -> Seq<char> {
    "requested "@ + release_text(minimum) + " through "@ + match maximum {
        Some(m) => release_text(m),
        None => "open ended"@,
    } + "; verified coverage is "@ + release_text(coverage.0) + " through "@ + release_text(coverage.1)
}

/// Mathematical model of a [`TargetIssue`].
pub enum TargetIssueModel {
    NotPodman,
    OutsideCatalogue(Seq<char>),
    InvertedRange,
}

impl View for TargetIssue {
    type V = TargetIssueModel;

    open spec fn view(&self) -> TargetIssueModel {
        match self {
            TargetIssue::NotPodman => TargetIssueModel::NotPodman,
            TargetIssue::OutsideCatalogue(detail) => TargetIssueModel::OutsideCatalogue(detail@),
            TargetIssue::InvertedRange => TargetIssueModel::InvertedRange,
        }
    }
}

/// The view of a target check.
pub open spec fn target_view(checked: Result<TargetRange, TargetIssue>) -> Result<TargetRange, TargetIssueModel> {
    match checked {
        Ok(range) => Ok(range),
        Err(issue) => Err(issue@),
    }
}

/// The target check of implementation `implementation` over `minimum` through `maximum`
/// (open-ended when `None`), against catalogue coverage `coverage`: the implementation must be
/// `podman`; the minimum must lie within the coverage and the maximum (the coverage's own
/// maximum when omitted) must not pass it; and the maximum must not come before the minimum.
pub open spec fn target_check(
    implementation: Seq<char>,
    minimum: PodmanRelease,
    maximum: Option<PodmanRelease>,
    coverage: (PodmanRelease, PodmanRelease),
) -> Result<TargetRange, TargetIssueModel> {
    let evaluated = match maximum {
        Some(m) => m,
        None => coverage.1,
    };
    if implementation != "podman"@ {
        Err(TargetIssueModel::NotPodman)
    } else if release_before(minimum, coverage.0) || release_before(coverage.1, minimum) || release_before(
        coverage.1,
        evaluated,
    ) {
        Err(TargetIssueModel::OutsideCatalogue(coverage_detail(minimum, maximum, coverage)))
    } else if maximum matches Some(m) && release_before(m, minimum) {
        Err(TargetIssueModel::InvertedRange)
    } else {
        Ok(TargetRange { minimum, maximum })
    }
}

/// Checks the target `implementation` and its Podman range against catalogue coverage
/// `coverage`.
pub fn check_target_range(
    implementation: &str,
    minimum: PodmanRelease,
    maximum: Option<PodmanRelease>,
    coverage: (PodmanRelease, PodmanRelease),
) -> (checked: Result<TargetRange, TargetIssue>)
    ensures
        target_view(checked) == target_check(implementation@, minimum, maximum, coverage),
{
    let podman = vec!['p', 'o', 'd', 'm', 'a', 'n'];
    proof {
        reveal_strlit("podman");
    }
    assert(podman@ =~= "podman"@);
    if !same_chars(chars_of(implementation).as_slice(), podman.as_slice()) {
        return Err(TargetIssue::NotPodman);
    }
    let evaluated = match maximum {
        Some(m) => m,
        None => coverage.1,
    };
    if is_release_before(minimum, coverage.0) || is_release_before(coverage.1, minimum) || is_release_before(
        coverage.1,
        evaluated,
    ) {
        let mut detail: Vec<char> = Vec::new();
        push_text(&mut detail, "requested ");
        push_release(&mut detail, minimum);
        push_text(&mut detail, " through ");
        match maximum {
            Some(m) => push_release(&mut detail, m),
            None => push_text(&mut detail, "open ended"),
        }
        push_text(&mut detail, "; verified coverage is ");
        push_release(&mut detail, coverage.0);
        push_text(&mut detail, " through ");
        push_release(&mut detail, coverage.1);
        assert(detail@ =~= coverage_detail(minimum, maximum, coverage));
        return Err(TargetIssue::OutsideCatalogue(string_from(detail.as_slice())));
    }
    match maximum {
        Some(m) => {
            if is_release_before(m, minimum) {
                return Err(TargetIssue::InvertedRange);
            }
        },
        None => {},
    }
    Ok(TargetRange { minimum, maximum })
}

/// The releases the catalogue's evidence covers, read with `CapabilityCatalogue::coverage` and
/// the `major`, `minor` and `patch` numbers of its bounds. They come from the loaded catalogue
/// data, so nothing is said of them here.
#[verifier::external_body]
fn catalogue_coverage(catalogue: &CapabilityCatalogue) -> (PodmanRelease, PodmanRelease) {
    let coverage = catalogue.coverage();
    let low = coverage.minimum();
    let high = coverage.maximum();
    (
        PodmanRelease { major: low.major(), minor: low.minor(), patch: low.patch() },
        PodmanRelease { major: high.major(), minor: high.minor(), patch: high.patch() },
    )
}

/// Checks the target `implementation` and its Podman range against the coverage of
/// `catalogue`: the check of [`check_target_range`] for the coverage the catalogue reports.
pub fn check_target(
    catalogue: &CapabilityCatalogue,
    implementation: &str,
    minimum: PodmanRelease,
    maximum: Option<PodmanRelease>,
) -> (checked: Result<TargetRange, TargetIssue>)
    ensures
        exists|coverage: (PodmanRelease, PodmanRelease)|
            target_view(checked) == target_check(implementation@, minimum, maximum, coverage),
{
    let coverage = catalogue_coverage(catalogue);
    check_target_range(implementation, minimum, maximum, coverage)
}

/// Releases are ordered as versions are: `release_before` is a strict total order, so that of two
/// releases exactly one comes first unless they are the same, and it compares the major number
/// first, then the minor number, then the patch number.
pub proof fn lemma_release_order(a: PodmanRelease, b: PodmanRelease, c: PodmanRelease)
    ensures
        !release_before(a, a),
        release_before(a, b) && release_before(b, c) ==> release_before(a, c),
        a != b ==> (release_before(a, b) != release_before(b, a)),
        a == b ==> !release_before(a, b) && !release_before(b, a),
        a.major < b.major ==> release_before(a, b),
        a.major == b.major && a.minor < b.minor ==> release_before(a, b),
        a.major == b.major && a.minor == b.minor ==> (release_before(a, b) <==> a.patch < b.patch),
{
}

/// A checked target lies within the catalogue's coverage: whenever the check accepts a range,
/// every release from its minimum through its maximum (the end of the coverage when open ended)
/// is covered, and the minimum does not come after that end.
pub proof fn lemma_accepted_range_is_covered(
    implementation: Seq<char>,
    minimum: PodmanRelease,
    maximum: Option<PodmanRelease>,
    coverage: (PodmanRelease, PodmanRelease),
    r: PodmanRelease,
)
    requires
        target_check(implementation, minimum, maximum, coverage) is Ok,
    ensures
        !release_before(minimum, coverage.0),
        !release_before(coverage.1, minimum),
        ({
            let end = match maximum {
                Some(m) => m,
                None => coverage.1,
            };
            &&& !release_before(end, minimum)
            &&& (!release_before(r, minimum) && !release_before(end, r)) ==> !release_before(r, coverage.0)
                && !release_before(coverage.1, r)
        }),
{
    let end = match maximum {
        Some(m) => m,
        None => coverage.1,
    };
    lemma_release_order(minimum, coverage.1, coverage.1);
    lemma_release_order(coverage.0, minimum, r);
    lemma_release_order(r, minimum, coverage.0);
    lemma_release_order(r, end, coverage.1);
    lemma_release_order(coverage.1, r, end);
    lemma_release_order(coverage.1, end, r);
    lemma_release_order(end, minimum, coverage.0);
    lemma_release_order(r, coverage.0, minimum);
}

} // verus!
