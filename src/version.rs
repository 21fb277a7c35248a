use vstd::prelude::*;

use crate::error::GenError;

verus! {

/// An exact version: major, minor and patch numbers.
#[derive(Clone, Copy, Debug, PartialEq, Eq, Structural)]
pub struct Version {
    pub major: u64,
    pub minor: u64,
    pub patch: u64,
}

/// A compatibility bucket: all versions in one bucket can stand in for one
/// another under semantic-versioning rules.
///
/// `Major(m)` holds `m >= 1`; `Minor(m)` stands for `0.m` with `m >= 1`;
/// `Patch(p)` stands for `0.0.p`.
#[derive(Clone, Copy, Debug, PartialEq, Eq, Structural, Hash)]
pub enum Epoch {
    Major(u64),
    Minor(u64),
    Patch(u64),
}

/// The operator of one comparator of a version requirement. Operators that
/// never name a single bucket are all `Other`.
#[derive(Clone, Copy, Debug, PartialEq, Eq, Structural)]
pub enum ReqOp {
    Exact,
    Tilde,
    Caret,
    Wildcard,
    Other,
}

/// One comparator of a parsed version requirement, such as `^1.2`.
#[derive(Clone, Copy, Debug, PartialEq, Eq, Structural)]
pub struct Comparator {
    pub op: ReqOp,
    pub major: u64,
    pub minor: Option<u64>,
    pub patch: Option<u64>,
}

/// The bucket that an exact version falls in.
pub open spec fn epoch_of_version(v: Version) -> Epoch {
    if v.major > 0 {
        Epoch::Major(v.major)
    } else if v.minor > 0 {
        Epoch::Minor(v.minor)
    } else {
        Epoch::Patch(v.patch)
    }
}

/// An epoch as it can be derived: a major or minor number of a bucket is
/// never zero.
pub open spec fn epoch_wf(e: Epoch) -> bool {
    match e {
        Epoch::Major(m) => m > 0,
        Epoch::Minor(m) => m > 0,
        Epoch::Patch(_) => true,
    }
}

/// Whether an operator can name one bucket.
pub open spec fn op_names_bucket(op: ReqOp) -> bool {
    op == ReqOp::Exact || op == ReqOp::Tilde || op == ReqOp::Caret || op == ReqOp::Wildcard
}

/// The bucket that a requirement names: it must be one comparator with an
/// operator of `op_names_bucket`, and give enough numbers to pin the bucket.
pub open spec fn req_epoch(cs: Seq<Comparator>) -> Option<Epoch> {
    if cs.len() != 1 || !op_names_bucket(cs[0].op) {
        None
    } else {
        let c = cs[0];
        if c.major > 0 {
            Some(Epoch::Major(c.major))
        } else {
            match c.minor {
                Some(m) => if m > 0 {
                    Some(Epoch::Minor(m))
                } else {
                    match c.patch {
                        Some(p) => Some(Epoch::Patch(p)),
                        None => None,
                    }
                },
                None => None,
            }
        }
    }
}

/// `a` is at most `b` in version order.
pub open spec fn version_le(a: Version, b: Version) -> bool {
    a.major < b.major || (a.major == b.major && (a.minor < b.minor || (a.minor == b.minor
        && a.patch <= b.patch)))
}

/// The least version that a comparator admits, missing numbers read as zero.
pub open spec fn lower_bound(c: Comparator) -> Version {
    Version {
        major: c.major,
        minor: match c.minor {
            Some(m) => m,
            None => 0,
        },
        patch: match c.patch {
            Some(p) => p,
            None => 0,
        },
    }
}

/// Whether `v` meets a caret comparator: at least its lower bound, and with
/// the same leftmost non-zero number.
pub open spec fn caret_matches(c: Comparator, v: Version) -> bool {
    let lb = lower_bound(c);
    version_le(lb, v) && if lb.major > 0 {
        v.major == lb.major
    } else if lb.minor > 0 {
        v.major == 0 && v.minor == lb.minor
    } else {
        v == lb
    }
}

/// Two caret requirements that each name a bucket name the same bucket
/// exactly when one version meets both, so one vendored copy serves both.
pub proof fn lemma_epoch_shared_iff_common_version(a: Comparator, b: Comparator)
    requires
        a.op == ReqOp::Caret,
        b.op == ReqOp::Caret,
        req_epoch(seq![a]) is Some,
        req_epoch(seq![b]) is Some,
    ensures
        req_epoch(seq![a]) == req_epoch(seq![b]) <==> exists|v: Version|
            caret_matches(a, v) && caret_matches(b, v),
{
    let la = lower_bound(a);
    let lb = lower_bound(b);
    if req_epoch(seq![a]) == req_epoch(seq![b]) {
        let w = if version_le(la, lb) { lb } else { la };
        assert(caret_matches(a, w) && caret_matches(b, w));
    }
    if exists|v: Version| caret_matches(a, v) && caret_matches(b, v) {
        let v = choose|v: Version| caret_matches(a, v) && caret_matches(b, v);
        assert(req_epoch(seq![a]) == Some(epoch_of_version(v)));
        assert(req_epoch(seq![b]) == Some(epoch_of_version(v)));
    }
}

/// What the semver crate parses a requirement string into, as comparators;
/// `None` where it rejects the string.
pub uninterp spec fn parsed_req(s: Seq<char>) -> Option<Seq<Comparator>>;

/// Relies on `semver::VersionReq::parse`: parses a requirement string into its
/// comparators, or fails; the result depends on the string alone.
#[verifier::external_body]
fn parse_version_req(s: &str) -> (r: Option<Vec<Comparator>>)
    ensures
        match r {
            Some(v) => parsed_req(s@) == Some(v@),
            None => parsed_req(s@) == None::<Seq<Comparator>>,
        },
{
    let req = semver::VersionReq::parse(s).ok()?;
    let mut out = Vec::new();
    for c in req.comparators.iter() {
        let op = match c.op {
            semver::Op::Exact => ReqOp::Exact,
            semver::Op::Tilde => ReqOp::Tilde,
            semver::Op::Caret => ReqOp::Caret,
            semver::Op::Wildcard => ReqOp::Wildcard,
            _ => ReqOp::Other,
        };
        out.push(Comparator { op, major: c.major, minor: c.minor, patch: c.patch });
    }
    Some(out)
}

/// The epoch of an exact version.
pub fn epoch_from_version(v: &Version) -> (e: Epoch)
    ensures
        e == epoch_of_version(*v),
        epoch_wf(e),
{
    if v.major > 0 {
        Epoch::Major(v.major)
    } else if v.minor > 0 {
        Epoch::Minor(v.minor)
    } else {
        Epoch::Patch(v.patch)
    }
}

/// The epoch named by parsed comparators.
pub fn epoch_from_comparators(cs: &Vec<Comparator>) -> (r: Result<Epoch, GenError>)
    ensures
        r == match req_epoch(cs@) {
            Some(e) => Ok::<Epoch, GenError>(e),
            None => Err(GenError::MalformedVersionRequirement),
        },
        r matches Ok(e) ==> epoch_wf(e),
{
    if cs.len() != 1 {
        return Err(GenError::MalformedVersionRequirement);
    }
    let c = cs[0];
    match c.op {
        ReqOp::Other => { return Err(GenError::MalformedVersionRequirement); },
        _ => {},
    }
    if c.major > 0 {
        Ok(Epoch::Major(c.major))
    } else {
        match c.minor {
            Some(m) => if m > 0 {
                Ok(Epoch::Minor(m))
            } else {
                match c.patch {
                    Some(p) => Ok(Epoch::Patch(p)),
                    None => Err(GenError::MalformedVersionRequirement),
                }
            },
            None => Err(GenError::MalformedVersionRequirement),
        }
    }
}

/// The spec-level epoch of a requirement string.
pub open spec fn req_str_epoch(s: Seq<char>) -> Option<Epoch> {
    match parsed_req(s) {
        Some(cs) => req_epoch(cs),
        None => None,
    }
}

/// The epoch named by a requirement string such as `"1.2"` or `"=0.3.1"`.
pub fn epoch_from_req_str(s: &str) -> (r: Result<Epoch, GenError>)
    ensures
        r == match req_str_epoch(s@) {
            Some(e) => Ok::<Epoch, GenError>(e),
            None => Err(GenError::MalformedVersionRequirement),
        },
        r matches Ok(e) ==> epoch_wf(e),
{
    match parse_version_req(s) {
        Some(cs) => epoch_from_comparators(&cs),
        None => Err(GenError::MalformedVersionRequirement),
    }
}

} // verus!
