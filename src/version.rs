//! Version gating: an object is handled by this controller only when its
//! version annotation is a requirement that this build's version meets.
use vstd::prelude::*;
use vstd::string::StringExecFns;
use crate::selector::opt_view;

verus! {

#[verifier::external_type_specification]
#[verifier::external_body]
pub struct ExVersion(semver::Version);

#[verifier::external_type_specification]
#[verifier::external_body]
pub struct ExSemverError(semver::Error);

/// Whether semver reads the text as a version.
pub uninterp spec fn version_parses(text: Seq<char>) -> bool;

/// Whether semver reads the text as a version requirement.
pub uninterp spec fn requirement_parses(text: Seq<char>) -> bool;

/// Relies on semver's `Version::parse`: whether it succeeds depends on the
/// text alone.
pub assume_specification[ semver::Version::parse ](text: &str) -> (r: Result<
    semver::Version,
    semver::Error,
>)
    ensures
        r is Ok <==> version_parses(text@),
;

/// Whether semver finds that the version requirement `requirement` admits
/// the version `version`.
pub uninterp spec fn requirement_admits(requirement: Seq<char>, version: Seq<char>) -> bool;

/// Relies on semver's `VersionReq::parse`, `Version::parse` and
/// `VersionReq::matches`: whether the texts read as a requirement and a
/// version, and whether the one admits the other, depend on the two texts
/// alone; none of the three panics.
#[verifier::external_body]
pub(crate) fn requirement_admits_version(requirement: &str, version: &str) -> (r: bool)
    ensures
        r == (requirement_parses(requirement@) && version_parses(version@) && requirement_admits(
            requirement@,
            version@,
        )),
{
    match (semver::VersionReq::parse(requirement), semver::Version::parse(version)) {
        (Ok(req), Ok(v)) => req.matches(&v),
        _ => false,
    }
}

/// The annotation that holds the version requirement of an object.
pub const VERSION_ANNOTATION: &'static str = "vault-injector.io/version";

/// The annotation that holds the configuration of an object.
pub const CONFIG_ANNOTATION: &'static str = "vault-injector.io/config";

/// The value of the first annotation named `key`.
pub open spec fn lookup(pairs: Seq<(String, String)>, key: Seq<char>) -> Option<Seq<char>>
    decreases pairs.len(),
{
    if pairs.len() == 0 {
        None
    } else if pairs[0].0@ == key {
        Some(pairs[0].1@)
    } else {
        lookup(pairs.drop_first(), key)
    }
}

/// The object's version annotation is a requirement that admits the build
/// version `build`.
pub open spec fn admitted_by(pairs: Seq<(String, String)>, build: Seq<char>) -> bool {
    match lookup(pairs, VERSION_ANNOTATION@) {
        Some(t) => requirement_parses(t) && version_parses(build) && requirement_admits(t, build),
        None => false,
    }
}

/// The configuration text of an object, given whether its version
/// requirement admits this build.
pub open spec fn admitted_config(pairs: Seq<(String, String)>, admitted: bool) -> Option<Seq<char>> {
    if admitted {
        lookup(pairs, CONFIG_ANNOTATION@)
    } else {
        None
    }
}

/// The value of the annotation named `key`, if the object has one.
pub fn annotation<'a>(pairs: &'a Vec<(String, String)>, key: &str) -> (r: Option<&'a String>)
    ensures
        match r {
            Some(v) => lookup(pairs@, key@) == Some(v@),
            None => lookup(pairs@, key@) is None,
        },
{
    let k = String::from_str(key);
    let mut i: usize = 0;
    assert(pairs@.skip(0) =~= pairs@);
    while i < pairs.len()
        invariant
            k@ == key@,
            i <= pairs@.len(),
            lookup(pairs@, key@) == lookup(pairs@.skip(i as int), key@),
        decreases pairs@.len() - i,
    {
        assert(pairs@.skip(i as int)[0] == pairs@[i as int]);
        if pairs[i].0.eq(&k) {
            return Some(&pairs[i].1);
        }
        assert(pairs@.skip(i as int).drop_first() =~= pairs@.skip(i + 1));
        i = i + 1;
    }
    None
}

/// The configuration text to decode for an object, given whether its version
/// requirement admits this build: none unless admitted and annotated.
pub fn config_if_admitted(annotations: &Vec<(String, String)>, admitted: bool) -> (r: Option<String>)
    ensures
        opt_view(r) == admitted_config(annotations@, admitted),
{
    if !admitted {
        return None;
    }
    match annotation(annotations, CONFIG_ANNOTATION) {
        Some(text) => Some(text.clone()),
        None => None,
    }
}

} // verus!
