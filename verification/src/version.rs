//! Whether the installed jj is recent enough to work with this application.
use vstd::prelude::*;

use crate::text::chars_of;
use crate::text::copy_string;
use crate::text::slice_to_vec;
use crate::text::string_from;
use crate::text::trim;
use crate::text::trim_string;

verus! {

/// The oldest version of jj that is known to work with this application.
pub const JJ_MIN_VERSION: &'static str = "0.33.0";

/// How to go on with an unsupported jj anyway.
pub const JJ_VERSION_IGNORE_HELP: &'static str = "If you want to continue anyway, use --ignore-jj-version";

/// How one version number relates to another.
#[derive(Debug, Clone, Copy, PartialEq, Eq, Structural)]
pub enum VersionRelation {
    Equal,
    NotEqual,
    Less,
    LessOrEqual,
    GreaterOrEqual,
    Greater,
}

/// How the version number `a` relates to `b`, as `version_compare` finds it;
/// `None` where either is not a version number.
pub uninterp spec fn version_relation(a: Seq<char>, b: Seq<char>) -> Option<VersionRelation>;

/// Compares the version numbers `a` and `b` with `version_compare::compare`.
/// The result is a function of the two texts alone, named
/// [version_relation]; as the crate documents, it is equal, less or greater
/// when both parse. Which texts parse, and how they order, is not stated.
#[verifier::external_body]
fn compare_versions(a: &str, b: &str) -> (res: Option<VersionRelation>)
    ensures
        res == version_relation(a@, b@),
        res matches Some(r) ==> (r is Equal || r is Less || r is Greater),
{
    match version_compare::compare(a, b) {
        Ok(version_compare::Cmp::Eq) => Some(VersionRelation::Equal),
        Ok(version_compare::Cmp::Ne) => Some(VersionRelation::NotEqual),
        Ok(version_compare::Cmp::Lt) => Some(VersionRelation::Less),
        Ok(version_compare::Cmp::Le) => Some(VersionRelation::LessOrEqual),
        Ok(version_compare::Cmp::Ge) => Some(VersionRelation::GreaterOrEqual),
        Ok(version_compare::Cmp::Gt) => Some(VersionRelation::Greater),
        Err(_) => None,
    }
}

/// Why jj was found unfit.
#[derive(Debug)]
pub enum VersionError {
    /// `jj version` did not print a version.
    Unrecognized,
    /// The version jj printed cannot be compared.
    Unparsable(String),
    /// The version jj printed is older than [JJ_MIN_VERSION].
    TooOld(String),
}

/// The message of a version error.
pub open spec fn version_message(e: VersionError) -> Seq<char> {
    match e {
        VersionError::Unrecognized => "jj version string was not recognized"@,
        VersionError::Unparsable(found) => "Unable to compare version '"@ + found@ + "' to '"@ + JJ_MIN_VERSION@
            + "'\n"@ + JJ_VERSION_IGNORE_HELP@,
        VersionError::TooOld(found) => "jj version is too old ("@ + found@ + "). Must be at least "@ + JJ_MIN_VERSION@
            + "\n"@ + JJ_VERSION_IGNORE_HELP@,
    }
}

impl VersionError {
    /// The message shown to the user.
    pub fn message(&self) -> (res: String)
        ensures
            res@ == version_message(*self),
    {
        match self {
            VersionError::Unrecognized => copy_string("jj version string was not recognized"),
            VersionError::Unparsable(found) => {
                let mut res = copy_string("Unable to compare version '");
                res.push_str(found.as_str());
                res.push_str("' to '");
                res.push_str(JJ_MIN_VERSION);
                res.push_str("'\n");
                res.push_str(JJ_VERSION_IGNORE_HELP);
                res
            },
            VersionError::TooOld(found) => {
                let mut res = copy_string("jj version is too old (");
                res.push_str(found.as_str());
                res.push_str("). Must be at least ");
                res.push_str(JJ_MIN_VERSION);
                res.push_str("\n");
                res.push_str(JJ_VERSION_IGNORE_HELP);
                res
            },
        }
    }
}

/// The views of a verdict on the version.
pub enum VerdictView {
    Fit,
    Unrecognized,
    Unparsable(Seq<char>),
    TooOld(Seq<char>),
}

/// The view of a verdict.
pub open spec fn verdict_view(r: Result<(), VersionError>) -> VerdictView {
    match r {
        Ok(()) => VerdictView::Fit,
        Err(VersionError::Unrecognized) => VerdictView::Unrecognized,
        Err(VersionError::Unparsable(f)) => VerdictView::Unparsable(f@),
        Err(VersionError::TooOld(f)) => VerdictView::TooOld(f@),
    }
}

/// The verdict on the version `found`, from how it relates to the minimum:
/// unparsable, too old where it is less, fit otherwise.
pub open spec fn spec_verdict(found: Seq<char>, relation: Option<VersionRelation>) -> VerdictView {
    match relation {
        None => VerdictView::Unparsable(found),
        Some(VersionRelation::Less) => VerdictView::TooOld(found),
        Some(_) => VerdictView::Fit,
    }
}

/// The verdict on the version `found`, given how it relates to [JJ_MIN_VERSION].
pub fn version_verdict(found: &str, relation: Option<VersionRelation>) -> (res: Result<(), VersionError>)
    ensures
        verdict_view(res) == spec_verdict(found@, relation),
{
    match relation {
        None => Err(VersionError::Unparsable(copy_string(found))),
        Some(VersionRelation::Less) => Err(VersionError::TooOld(copy_string(found))),
        Some(_) => Ok(()),
    }
}

/// The verdict on the output of `jj version`: unrecognized unless it
/// starts with `jj `; else the verdict on the rest, trimmed.
pub open spec fn spec_check_version(out: Seq<char>) -> VerdictView {
    if out.len() >= 3 && out.take(3) == "jj "@ {
        let found = trim(out.skip(3));
        spec_verdict(found, version_relation(found, JJ_MIN_VERSION@))
    } else {
        VerdictView::Unrecognized
    }
}

/// Check that the output of `jj version` names a version of jj that is
/// recent enough.
pub fn check_jj_version_output(output: &str) -> (res: Result<(), VersionError>)
    ensures
        verdict_view(res) == spec_check_version(output@),
{
    let t = chars_of(output);
    proof {
        reveal_strlit("jj ");
    }
    if !(t.len() >= 3 && t[0] == 'j' && t[1] == 'j' && t[2] == ' ') {
        proof {
            if t@.len() >= 3 && t@.take(3) == "jj "@ {
                assert(t@.take(3)[0] == 'j' && t@.take(3)[1] == 'j' && t@.take(3)[2] == ' ');
            }
        }
        return Err(VersionError::Unrecognized);
    }
    proof {
        assert(t@.take(3) =~= "jj "@);
    }
    let rest = string_from(&slice_to_vec(&t, 3, t.len()));
    proof {
        assert(rest@ =~= output@.skip(3));
    }
    let found = trim_string(rest.as_str());
    let relation = compare_versions(found.as_str(), JJ_MIN_VERSION);
    version_verdict(found.as_str(), relation)
}

} // verus!
