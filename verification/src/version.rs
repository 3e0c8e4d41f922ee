//! Semantic versions and the version predicates attached to endpoints.
//!
//! A version is a `major.minor.patch` triple ordered lexicographically.  An
//! endpoint's predicate describes the set of versions it serves: every
//! version (`All`), or a half-open range (`From`, `Until`, `FromUntil`,
//! lower bounds inclusive and upper bounds exclusive).  The distinguished
//! predicate `All` also matches an unversioned lookup; no range does.

use vstd::prelude::*;

use crate::util::dec_str;
use crate::util::u64_to_string;

verus! {

/// A semantic version: a `major.minor.patch` triple.
#[derive(Clone, Copy, Debug, PartialEq, Eq, Structural)]
pub struct Version {
    pub major: u64,
    pub minor: u64,
    pub patch: u64,
}

/// Strict lexicographic order on versions.
pub open spec fn version_lt(a: Version, b: Version) -> bool {
    a.major < b.major || (a.major == b.major && (a.minor < b.minor || (a.minor == b.minor
        && a.patch < b.patch)))
}

/// Non-strict lexicographic order on versions.
pub open spec fn version_le(a: Version, b: Version) -> bool {
    version_lt(a, b) || a == b
}

/// The rendering of a version as `major.minor.patch`.
pub open spec fn version_render(v: Version) -> Seq<char> {
    dec_str(v.major as int) + seq!['.'] + dec_str(v.minor as int) + seq!['.'] + dec_str(
        v.patch as int,
    )
}

impl Version {
    /// Build a version from its three components.
    pub fn new(major: u64, minor: u64, patch: u64) -> (v: Version)
        ensures
            v == (Version { major, minor, patch }),
    {
        Version { major, minor, patch }
    }

    /// Whether `self` is strictly below `other` in lexicographic order.
    pub fn lt(&self, other: &Version) -> (r: bool)
        ensures
            r == version_lt(*self, *other),
    {
        self.major < other.major || (self.major == other.major && (self.minor < other.minor || (
        self.minor == other.minor && self.patch < other.patch)))
    }

    /// Whether `self` is at or below `other` in lexicographic order.
    pub fn le(&self, other: &Version) -> (r: bool)
        ensures
            r == version_le(*self, *other),
    {
        self.lt(other) || (self.major == other.major && self.minor == other.minor && self.patch
            == other.patch)
    }

    /// Render the version as `major.minor.patch`.
    pub fn render(&self) -> (s: String)
        ensures
            s@ == version_render(*self),
    {
        proof {
            reveal_strlit(".");
        }
        let s = u64_to_string(self.major);
        let s = s.concat(".");
        let s = s.concat(u64_to_string(self.minor).as_str());
        let s = s.concat(".");
        s.concat(u64_to_string(self.patch).as_str())
    }
}

/// The set of semantic versions an endpoint applies to.
#[derive(Clone, Copy, Debug, PartialEq, Eq, Structural)]
pub enum ApiEndpointVersions {
    /// Every version, and also an unversioned lookup.
    All,
    /// Versions at or above the given one.
    From(Version),
    /// Versions strictly below the given one.
    Until(Version),
    /// Versions at or above the first and strictly below the second.
    FromUntil(Version, Version),
}

/// Reported when a `FromUntil` range is requested with bounds out of order.
#[derive(Clone, Debug, PartialEq, Eq)]
pub struct VersionRangeError {
    pub message: String,
}

impl VersionRangeError {
    /// The error text.
    pub fn message(self) -> (m: String)
        ensures
            m == self.message,
    {
        self.message
    }
}

impl ApiEndpointVersions {
    /// Whether the predicate is internally consistent: a `FromUntil` range
    /// must have its lower bound strictly below its upper bound.
    pub open spec fn wf(self) -> bool {
        match self {
            ApiEndpointVersions::FromUntil(f, u) => version_lt(f, u),
            _ => true,
        }
    }

    /// Whether the predicate admits the given (optional) version.  `All`
    /// matches everything, including an unversioned lookup; a range matches
    /// only versions inside it, and never an unversioned lookup.
    pub open spec fn matches_spec(self, v: Option<Version>) -> bool {
        match self {
            ApiEndpointVersions::All => true,
            ApiEndpointVersions::From(f) => v matches Some(x) && version_le(f, x),
            ApiEndpointVersions::Until(u) => v matches Some(x) && version_lt(x, u),
            ApiEndpointVersions::FromUntil(f, u) => v matches Some(x) && version_le(f, x)
                && version_lt(x, u),
        }
    }

    /// Whether some version exists that the predicate admits.
    pub open spec fn nonempty(self) -> bool {
        match self {
            ApiEndpointVersions::Until(u) => version_lt(Version { major: 0, minor: 0, patch: 0 }, u),
            ApiEndpointVersions::FromUntil(f, u) => version_lt(f, u),
            _ => true,
        }
    }

    /// Structural overlap between two predicates: `All` overlaps with
    /// everything, and two ranges overlap when each lower bound is below the
    /// other range's upper bound.
    pub open spec fn overlaps_spec(self, other: ApiEndpointVersions) -> bool {
        match (self, other) {
            (ApiEndpointVersions::All, _) => true,
            (_, ApiEndpointVersions::All) => true,
            (ApiEndpointVersions::From(_), ApiEndpointVersions::From(_)) => true,
            (ApiEndpointVersions::From(f), ApiEndpointVersions::Until(u)) => version_lt(f, u),
            (ApiEndpointVersions::From(f), ApiEndpointVersions::FromUntil(_, u2)) => version_lt(
                f,
                u2,
            ),
            (ApiEndpointVersions::Until(u), ApiEndpointVersions::From(f)) => version_lt(f, u),
            (ApiEndpointVersions::Until(_), ApiEndpointVersions::Until(_)) => true,
            (ApiEndpointVersions::Until(u), ApiEndpointVersions::FromUntil(f2, _)) => version_lt(
                f2,
                u,
            ),
            (ApiEndpointVersions::FromUntil(_, u1), ApiEndpointVersions::From(f)) => version_lt(
                f,
                u1,
            ),
            (ApiEndpointVersions::FromUntil(f1, _), ApiEndpointVersions::Until(u)) => version_lt(
                f1,
                u,
            ),
            (
                ApiEndpointVersions::FromUntil(f1, u1),
                ApiEndpointVersions::FromUntil(f2, u2),
            ) => version_lt(f1, u2) && version_lt(f2, u1),
        }
    }

    /// A range over versions at or above `v`.
    pub fn from_version(v: Version) -> (r: ApiEndpointVersions)
        ensures
            r == ApiEndpointVersions::From(v),
    {
        ApiEndpointVersions::From(v)
    }

    /// A range over versions strictly below `v`.
    pub fn until(v: Version) -> (r: ApiEndpointVersions)
        ensures
            r == ApiEndpointVersions::Until(v),
    {
        ApiEndpointVersions::Until(v)
    }

    /// A range over versions at or above `from` and strictly below `until`.
    /// The bounds must be in strict order, else an error is returned.
    pub fn from_until(from: Version, until: Version) -> (r: Result<
        ApiEndpointVersions,
        VersionRangeError,
    >)
        ensures
            version_lt(from, until) ==> r == Ok::<_, VersionRangeError>(
                ApiEndpointVersions::FromUntil(from, until),
            ),
            !version_lt(from, until) ==> r is Err,
    {
        if from.lt(&until) {
            Ok(ApiEndpointVersions::FromUntil(from, until))
        } else {
            proof {
                reveal_strlit("versions \"from\" must be strictly less than \"until\"");
            }
            Err(
                VersionRangeError {
                    message: String::from_str(
                        "versions \"from\" must be strictly less than \"until\"",
                    ),
                },
            )
        }
    }

    /// Whether the predicate admits the given version, or, for an
    /// unversioned lookup, whether it is `All`.
    pub fn matches(&self, version: Option<&Version>) -> (r: bool)
        ensures
            r == self.matches_spec(opt_deref(version)),
    {
        match self {
            ApiEndpointVersions::All => true,
            ApiEndpointVersions::From(f) => match version {
                Some(v) => f.le(v),
                None => false,
            },
            ApiEndpointVersions::Until(u) => match version {
                Some(v) => v.lt(u),
                None => false,
            },
            ApiEndpointVersions::FromUntil(f, u) => match version {
                Some(v) => f.le(v) && v.lt(u),
                None => false,
            },
        }
    }

    /// Whether the two predicates overlap structurally; for well-formed,
    /// non-empty predicates this coincides with sharing an admitted version
    /// (see [`lemma_overlap_iff_common_version`]).
    pub fn overlaps_with(&self, other: &ApiEndpointVersions) -> (r: bool)
        ensures
            r == self.overlaps_spec(*other),
    {
        match (self, other) {
            (ApiEndpointVersions::All, _) => true,
            (_, ApiEndpointVersions::All) => true,
            (ApiEndpointVersions::From(_), ApiEndpointVersions::From(_)) => true,
            (ApiEndpointVersions::From(f), ApiEndpointVersions::Until(u)) => f.lt(u),
            (ApiEndpointVersions::From(f), ApiEndpointVersions::FromUntil(_, u2)) => f.lt(u2),
            (ApiEndpointVersions::Until(u), ApiEndpointVersions::From(f)) => f.lt(u),
            (ApiEndpointVersions::Until(_), ApiEndpointVersions::Until(_)) => true,
            (ApiEndpointVersions::Until(u), ApiEndpointVersions::FromUntil(f2, _)) => f2.lt(u),
            (ApiEndpointVersions::FromUntil(_, u1), ApiEndpointVersions::From(f)) => f.lt(u1),
            (ApiEndpointVersions::FromUntil(f1, _), ApiEndpointVersions::Until(u)) => f1.lt(u),
            (
                ApiEndpointVersions::FromUntil(f1, u1),
                ApiEndpointVersions::FromUntil(f2, u2),
            ) => f1.lt(u2) && f2.lt(u1),
        }
    }
}

/// The value behind an optional reference, as a spec-level `Option`.
pub open spec fn opt_deref(v: Option<&Version>) -> Option<Version> {
    match v {
        Some(x) => Some(*x),
        None => None,
    }
}

/// No range predicate ever admits an unversioned lookup: only `All` does.
pub proof fn lemma_versioned_rejects_unversioned(p: ApiEndpointVersions)
    requires
        p != ApiEndpointVersions::All,
    ensures
        !p.matches_spec(None),
{
}

/// For well-formed, non-empty predicates, structural overlap holds exactly
/// when some version is admitted by both.
pub proof fn lemma_overlap_iff_common_version(a: ApiEndpointVersions, b: ApiEndpointVersions)
    requires
        a.wf(),
        b.wf(),
        a.nonempty(),
        b.nonempty(),
    ensures
        a.overlaps_spec(b) <==> exists|v: Version|
            a.matches_spec(Some(v)) && b.matches_spec(Some(v)),
{
    let zero = Version { major: 0, minor: 0, patch: 0 };
    if a.overlaps_spec(b) {
        let w = overlap_witness(a, b);
        assert(a.matches_spec(Some(w)) && b.matches_spec(Some(w)));
    }
}

/// A version admitted by both of two overlapping, well-formed, non-empty
/// predicates: the larger of the lower bounds, or the zero version when
/// neither has one.
pub open spec fn overlap_witness(a: ApiEndpointVersions, b: ApiEndpointVersions) -> Version {
    version_max(lower_bound_of(a), lower_bound_of(b))
}

/// The inclusive lower bound of a predicate, taking the zero version where
/// it is unbounded below.
pub open spec fn lower_bound_of(p: ApiEndpointVersions) -> Version {
    match p {
        ApiEndpointVersions::From(f) => f,
        ApiEndpointVersions::FromUntil(f, _) => f,
        _ => Version { major: 0, minor: 0, patch: 0 },
    }
}

/// The larger of two versions.
pub open spec fn version_max(a: Version, b: Version) -> Version {
    if version_lt(a, b) {
        b
    } else {
        a
    }
}

} // verus!
