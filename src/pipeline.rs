use vstd::prelude::*;

use crate::crates::VendoredCrate;
use crate::error::GenError;
use crate::graph::{RawGraph, ResolvedPackage};
use crate::manifest::DeclMeta;
use crate::reconcile::{all_findings, reconcile, Finding};
use crate::synth::{
    check_one_to_one, inventory_unique, lemma_synthesis_bijection, one_to_one, synthesize,
    synthesized, BuildFileDescription,
};

verus! {

/// Why the third-party pipeline stopped.
#[derive(Debug)]
pub enum Failure {
    /// Reconciliation found problems; all of them are listed.
    Findings(Vec<Finding>),
    /// Another error, on which the pipeline stopped at once.
    Error(GenError),
}

/// Reconciles the normalized packages with the vendored crates and, when
/// nothing is found, synthesizes one description per vendored crate and
/// checks the mapping is one to one.
pub fn reconcile_and_synthesize(
    inventory: &Vec<VendoredCrate>,
    packages: &Vec<ResolvedPackage>,
    metas: &Vec<DeclMeta>,
) -> (r: Result<Vec<BuildFileDescription>, Failure>)
    ensures
        (all_findings(inventory@, packages@).len() > 0) == (r matches Err(Failure::Findings(_))),
        r matches Err(Failure::Findings(f)) ==> f@ == all_findings(inventory@, packages@),
        r matches Err(Failure::Error(e)) ==> e == GenError::SynthesisMismatch,
        r matches Ok(ds) ==> synthesized(ds@, packages@, inventory@, metas@) && one_to_one(
            ds@,
            inventory.len() as int,
        ),
        inventory_unique(inventory@) && all_findings(inventory@, packages@).len() == 0 ==> r is Ok,
{
    let findings = reconcile(inventory, packages);
    if findings.len() > 0 {
        return Err(Failure::Findings(findings));
    }
    let ds = synthesize(packages, inventory, metas);
    let ghost ni = inventory.len();
    let ghost np = packages.len();
    proof {
        if inventory_unique(inventory@) {
            lemma_synthesis_bijection(ds@, packages@, inventory@, metas@);
            assert forall|d1: int, d2: int|
                0 <= d1 < d2 < ds.len() implies #[trigger] ds[d1].crate_index != #[trigger] ds[d2].crate_index by {
            }
        }
    }
    match check_one_to_one(&ds, inventory.len()) {
        Ok(()) => Ok(ds),
        Err(e) => Err(Failure::Error(e)),
    }
}

/// The third-party pipeline on the resolver's output: normalizes it without
/// the roots, then reconciles and synthesizes.
pub fn third_party_pipeline(
    g: &RawGraph,
    vendored_root: &str,
    inventory: &Vec<VendoredCrate>,
    metas: &Vec<DeclMeta>,
) -> (r: (Vec<ResolvedPackage>, Result<Vec<BuildFileDescription>, Failure>))
    requires
        g.wf(),
    ensures
        g.normalized(r.0@, vendored_root@, false, None),
        (all_findings(inventory@, r.0@).len() > 0) == (r.1 matches Err(Failure::Findings(_))),
        r.1 matches Err(Failure::Findings(f)) ==> f@ == all_findings(inventory@, r.0@),
        r.1 matches Err(Failure::Error(e)) ==> e == GenError::SynthesisMismatch,
        r.1 matches Ok(ds) ==> synthesized(ds@, r.0@, inventory@, metas@) && one_to_one(
            ds@,
            inventory.len() as int,
        ),
        inventory_unique(inventory@) && all_findings(inventory@, r.0@).len() == 0 ==> r.1 is Ok,
{
    let packages = g.normalize(vendored_root, false, None);
    let result = reconcile_and_synthesize(inventory, &packages, metas);
    (packages, result)
}

} // verus!
