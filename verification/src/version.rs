//! Semantic versions and version requirements, as the `semver` crate parses, orders and matches them.

use vstd::prelude::*;

verus! {

/// A semantic version `major.minor.patch[-pre][+build]`, held as plain values.
///
/// `pre` and `build` are the pre-release and build-metadata texts without their
/// leading `-` / `+` (empty when absent).
#[derive(Debug, Clone, PartialEq, Eq, Hash)]
pub struct Semver {
    pub major: u64,
    pub minor: u64,
    pub patch: u64,
    pub pre: String,
    pub build: String,
}

/// The mathematical value of a [`Semver`].
pub ghost struct SemverView {
    pub major: u64,
    pub minor: u64,
    pub patch: u64,
    pub pre: Seq<char>,
    pub build: Seq<char>,
}

impl View for Semver {
    type V = SemverView;

    open spec fn view(&self) -> SemverView {
        SemverView {
            major: self.major,
            minor: self.minor,
            patch: self.patch,
            pre: self.pre@,
            build: self.build@,
        }
    }
}

/// What `semver::Version::parse` gives for a text: the version, or the error's message.
pub uninterp spec fn semver_parse(text: Seq<char>) -> Result<SemverView, Seq<char>>;

/// Whether `semver::Prerelease::new` accepts a text.
pub uninterp spec fn prerelease_accepts(text: Seq<char>) -> bool;

/// Whether `semver::BuildMetadata::new` accepts a text.
pub uninterp spec fn build_metadata_accepts(text: Seq<char>) -> bool;

/// The sign (-1, 0 or 1) of `Ord::cmp` between two `semver::Version`s.
pub uninterp spec fn semver_order(a: SemverView, b: SemverView) -> int;

/// What `semver::VersionReq::parse` gives for a text: `Ok(())` or the error's message.
pub uninterp spec fn semver_req_parse(text: Seq<char>) -> Result<(), Seq<char>>;

/// `Display` of the `semver::VersionReq` parsed from a text.
pub uninterp spec fn semver_req_display(req: Seq<char>) -> Seq<char>;

/// `semver::VersionReq::matches` for the requirement parsed from `req` and a version.
pub uninterp spec fn semver_req_matches(req: Seq<char>, v: SemverView) -> bool;

impl SemverView {
    /// The pre-release and build texts are ones that `semver` accepts.
    pub open spec fn wf(self) -> bool {
        prerelease_accepts(self.pre) && build_metadata_accepts(self.build)
    }

    pub open spec fn is_prerelease(self) -> bool {
        self.pre.len() > 0
    }

    /// `self < other` in `semver`'s total order.
    pub open spec fn lt(self, other: SemverView) -> bool {
        semver_order(self, other) < 0
    }

    pub open spec fn same(self, other: SemverView) -> bool {
        self.major == other.major && self.minor == other.minor && self.patch == other.patch
            && self.pre == other.pre && self.build == other.build
    }
}

pub open spec fn result_view(r: Result<Semver, String>) -> Result<SemverView, Seq<char>> {
    match r {
        Ok(v) => Ok(v@),
        Err(e) => Err(e@),
    }
}

/// Calls `semver::Version::parse`.
///
/// Claims that the result is the named `semver_parse` of the text, and that the
/// pre-release and build texts of a parsed version are accepted by
/// `Prerelease::new` / `BuildMetadata::new` (both are parsed by the same
/// identifier parser that `Version::parse` uses).
#[verifier::external_body]
fn semver_parse_call(text: &str) -> (r: Result<Semver, String>)
    ensures
        result_view(r) == semver_parse(text@),
        r matches Ok(v) ==> prerelease_accepts(v.pre@) && build_metadata_accepts(v.build@),
{
    match semver::Version::parse(text) {
        Ok(v) => Ok(Semver { major: v.major, minor: v.minor, patch: v.patch, pre: v.pre.as_str().to_string(), build: v.build.as_str().to_string() }),
        Err(e) => Err(e.to_string()),
    }
}

/// Calls `semver::VersionReq::parse`, keeping the text when it parses.
///
/// Claims that the result is the named `semver_req_parse` of the text.
#[verifier::external_body]
fn semver_req_parse_call(text: &str) -> (r: Result<(), String>)
    ensures
        match r {
            Ok(()) => semver_req_parse(text@) == Ok::<(), Seq<char>>(()),
            Err(e) => semver_req_parse(text@) == Err::<(), Seq<char>>(e@),
        },
{
    semver::VersionReq::parse(text).map(|_| ()).map_err(|e| e.to_string())
}

/// Calls `Ord::cmp` on the two `semver::Version`s.
///
/// Claims the result is the named `semver_order`, is one of -1, 0, 1, reverses
/// when the arguments are swapped (`Ord` is a total order), and that the order
/// compares `major`, `minor`, `patch` first (it is derived over the fields in
/// that order), that a version without pre-release is above one with a
/// pre-release when the numbers agree, and that equal versions compare equal.
#[verifier::external_body]
fn semver_order_call(a: &Semver, b: &Semver) -> (r: i8)
    requires
        a@.wf(),
        b@.wf(),
    ensures
        r == semver_order(a@, b@),
        -1 <= r <= 1,
        semver_order(b@, a@) == -r,
        a.major != b.major ==> (r < 0 <==> a.major < b.major),
        a.major == b.major && a.minor != b.minor ==> (r < 0 <==> a.minor < b.minor),
        a.major == b.major && a.minor == b.minor && a.patch != b.patch ==> (r < 0 <==> a.patch
            < b.patch),
        a.major == b.major && a.minor == b.minor && a.patch == b.patch && a@.pre.len() == 0
            && b@.pre.len() > 0 ==> r == 1,
        a@.same(b@) ==> r == 0,
{
    let x = semver::Version { major: a.major, minor: a.minor, patch: a.patch, pre: semver::Prerelease::new(&a.pre).unwrap(), build: semver::BuildMetadata::new(&a.build).unwrap() };
    let y = semver::Version { major: b.major, minor: b.minor, patch: b.patch, pre: semver::Prerelease::new(&b.pre).unwrap(), build: semver::BuildMetadata::new(&b.build).unwrap() };
    match x.cmp(&y) {
        std::cmp::Ordering::Less => -1,
        std::cmp::Ordering::Equal => 0,
        std::cmp::Ordering::Greater => 1,
    }
}

/// Calls `semver::VersionReq::parse`, then `to_string`.
///
/// Claims the result is the named `semver_req_display` of the text.
#[verifier::external_body]
fn semver_req_display_call(req: &str) -> (r: String)
    requires
        semver_req_parse(req@) is Ok,
    ensures
        r@ == semver_req_display(req@),
{
    semver::VersionReq::parse(req).unwrap().to_string()
}

/// Calls `semver::VersionReq::matches` on the parsed requirement text.
///
/// Claims the result is the named `semver_req_matches`.
#[verifier::external_body]
fn semver_req_matches_call(req: &str, v: &Semver) -> (r: bool)
    requires
        semver_req_parse(req@) is Ok,
        v@.wf(),
    ensures
        r == semver_req_matches(req@, v@),
{
    let x = semver::Version { major: v.major, minor: v.minor, patch: v.patch, pre: semver::Prerelease::new(&v.pre).unwrap(), build: semver::BuildMetadata::new(&v.build).unwrap() };
    semver::VersionReq::parse(req).unwrap().matches(&x)
}

impl Semver {
    /// Parses a version with `semver`'s grammar; the error is `semver`'s message.
    pub fn parse(text: &str) -> (r: Result<Semver, String>)
        ensures
            result_view(r) == semver_parse(text@),
            r matches Ok(v) ==> v@.wf(),
    {
        semver_parse_call(text)
    }

    pub fn is_prerelease(&self) -> (r: bool)
        ensures
            r == self@.is_prerelease(),
    {
        !self.pre.as_str().is_empty()
    }

    /// Another value equal to this one.
    pub fn duplicate(&self) -> (r: Semver)
        ensures
            r@ == self@,
    {
        Semver {
            major: self.major,
            minor: self.minor,
            patch: self.patch,
            pre: self.pre.clone(),
            build: self.build.clone(),
        }
    }

    /// The sign (-1, 0 or 1) of `self` against `other` in `semver`'s order.
    pub fn order_sign(&self, other: &Semver) -> (r: i8)
        requires
            self@.wf(),
            other@.wf(),
        ensures
            r == semver_order(self@, other@),
            -1 <= r <= 1,
            semver_order(other@, self@) == -r,
    {
        semver_order_call(self, other)
    }

    /// Whether `self < other` in `semver`'s order.
    pub fn less_than(&self, other: &Semver) -> (r: bool)
        requires
            self@.wf(),
            other@.wf(),
        ensures
            r == self@.lt(other@),
            r == (semver_order(other@, self@) > 0),
    {
        semver_order_call(self, other) < 0
    }

    /// Field-wise equality (`semver::Version`'s derived `==`).
    pub fn same(&self, other: &Semver) -> (r: bool)
        ensures
            r == self@.same(other@),
    {
        self.major == other.major && self.minor == other.minor && self.patch == other.patch
            && self.pre == other.pre && self.build == other.build
    }
}

/// A version requirement such as `>=1.2, <2`, held as the text it was parsed from.
#[derive(Debug, Clone, PartialEq, Eq, Hash)]
pub struct VersionReq {
    pub text: String,
}

impl VersionReq {
    /// The text parses as a `semver` requirement.
    pub open spec fn wf(&self) -> bool {
        semver_req_parse(self.text@) is Ok
    }

    /// Parses a requirement with `semver`'s grammar; the error is `semver`'s message.
    pub fn parse(text: &str) -> (r: Result<VersionReq, String>)
        ensures
            match r {
                Ok(q) => q.text@ == text@ && semver_req_parse(text@) == Ok::<(), Seq<char>>(()),
                Err(e) => semver_req_parse(text@) == Err::<(), Seq<char>>(e@),
            },
    {
        match semver_req_parse_call(text) {
            Ok(()) => Ok(VersionReq { text: String::from_str(text) }),
            Err(e) => Err(e),
        }
    }

    /// Whether `v` satisfies this requirement.
    pub fn matches(&self, v: &Semver) -> (r: bool)
        requires
            self.wf(),
            v@.wf(),
        ensures
            r == semver_req_matches(self.text@, v@),
    {
        semver_req_matches_call(self.text.as_str(), v)
    }

    /// The requirement as `semver` writes it.
    pub fn to_text(&self) -> (r: String)
        requires
            self.wf(),
        ensures
            r@ == semver_req_display(self.text@),
    {
        semver_req_display_call(self.text.as_str())
    }

    pub fn duplicate(&self) -> (r: VersionReq)
        ensures
            r.text@ == self.text@,
    {
        VersionReq { text: self.text.clone() }
    }
}

} // verus!
