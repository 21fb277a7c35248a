use vstd::prelude::*;
use vstd::set_lib::*;

use crate::crates::{find_vendored, in_inventory, package_key, VendoredCrate};
use crate::error::GenError;
use crate::graph::{opt_str_view, PackageRef, ResolvedPackage};
use crate::manifest::{clone_strings, strings_view, DeclMeta, Visibility};
use crate::reconcile::{all_findings, collides, lemma_reconciliation_complete, inventory_keys, graph_keys};
use crate::version::{epoch_from_version, epoch_of_version, Epoch};

verus! {

/// The build description of one vendored crate.
#[derive(Debug)]
pub struct BuildFileDescription {
    /// The resolved package it describes, by position in the normalized graph.
    pub package: usize,
    /// The vendored crate it belongs to, by position in the inventory.
    pub crate_index: usize,
    pub target_name: String,
    pub visibility: Visibility,
    pub build_script_outputs: Vec<String>,
    pub gn_variables_lib: Option<String>,
    /// The vendored crates it depends on, by position in the inventory, one
    /// per dependency that resolved to a vendored crate.
    pub dependency_edges: Vec<usize>,
}

/// The visibility the first `n` declarations give crate `key`: the last
/// declaration of it decides; an undeclared crate is third-party only.
pub open spec fn meta_visibility(ms: Seq<DeclMeta>, key: (Seq<char>, Epoch), n: int) -> Visibility
    decreases n,
{
    if n <= 0 {
        Visibility::ThirdParty
    } else if ms[n - 1].crate_id.key() == key {
        ms[n - 1].visibility
    } else {
        meta_visibility(ms, key, n - 1)
    }
}

/// The build-script outputs of crate `key`: those of its last declaration
/// among the first `n` that lists any.
pub open spec fn meta_outputs(ms: Seq<DeclMeta>, key: (Seq<char>, Epoch), n: int) -> Seq<Seq<char>>
    decreases n,
{
    if n <= 0 {
        seq![]
    } else if ms[n - 1].crate_id.key() == key && ms[n - 1].build_script_outputs.len() > 0 {
        strings_view(ms[n - 1].build_script_outputs@)
    } else {
        meta_outputs(ms, key, n - 1)
    }
}

/// The extra-variable override of crate `key`: that of its last declaration
/// among the first `n` that gives one.
pub open spec fn meta_gn_variables(ms: Seq<DeclMeta>, key: (Seq<char>, Epoch), n: int) -> Option<
    Seq<char>,
>
    decreases n,
{
    if n <= 0 {
        None
    } else if ms[n - 1].crate_id.key() == key && ms[n - 1].gn_variables_lib is Some {
        opt_str_view(ms[n - 1].gn_variables_lib)
    } else {
        meta_gn_variables(ms, key, n - 1)
    }
}

pub open spec fn ref_key(d: PackageRef) -> (Seq<char>, Epoch) {
    (d.name@, epoch_of_version(d.version))
}

/// The identities of the first `n` dependencies that are vendored, in order.
pub open spec fn vendored_dep_keys(deps: Seq<PackageRef>, inv: Seq<VendoredCrate>, n: int) -> Seq<
    (Seq<char>, Epoch),
>
    decreases n,
{
    if n <= 0 {
        seq![]
    } else if in_inventory(inv, ref_key(deps[n - 1])) {
        vendored_dep_keys(deps, inv, n - 1).push(ref_key(deps[n - 1]))
    } else {
        vendored_dep_keys(deps, inv, n - 1)
    }
}

pub open spec fn edge_keys(edges: Seq<usize>, inv: Seq<VendoredCrate>) -> Seq<(Seq<char>, Epoch)> {
    edges.map_values(|e: usize| inv[e as int].key())
}

/// `d` describes a resolved package and the vendored crate it matches, with
/// the metadata that the declarations give that crate.
pub open spec fn describes(
    d: BuildFileDescription,
    ps: Seq<ResolvedPackage>,
    inv: Seq<VendoredCrate>,
    ms: Seq<DeclMeta>,
) -> bool {
    let p = ps[d.package as int];
    let key = package_key(p);
    &&& d.package < ps.len()
    &&& d.crate_index < inv.len()
    &&& inv[d.crate_index as int].key() == key
    &&& d.target_name@ == p.package_name@
    &&& d.visibility == meta_visibility(ms, key, ms.len() as int)
    &&& strings_view(d.build_script_outputs@) == meta_outputs(ms, key, ms.len() as int)
    &&& opt_str_view(d.gn_variables_lib) == meta_gn_variables(ms, key, ms.len() as int)
    &&& forall|k: int| 0 <= k < d.dependency_edges.len() ==> #[trigger] d.dependency_edges[k] < inv.len()
    &&& edge_keys(d.dependency_edges@, inv) == vendored_dep_keys(p.dependencies@, inv, p.dependencies.len() as int)
}

/// `ds` is what synthesis yields: one description per resolved package that
/// matches a vendored crate, in package order.
pub open spec fn synthesized(
    ds: Seq<BuildFileDescription>,
    ps: Seq<ResolvedPackage>,
    inv: Seq<VendoredCrate>,
    ms: Seq<DeclMeta>,
) -> bool {
    &&& forall|k: int| 0 <= k < ds.len() ==> describes(#[trigger] ds[k], ps, inv, ms)
    &&& forall|k1: int, k2: int| 0 <= k1 < k2 < ds.len() ==> #[trigger] ds[k1].package < #[trigger] ds[k2].package
    &&& forall|j: int| 0 <= j < ps.len() && in_inventory(inv, package_key(ps[j])) ==> exists|k: int|
        0 <= k < ds.len() && #[trigger] ds[k].package == j
}

/// No two vendored crates share an identity.
pub open spec fn inventory_unique(inv: Seq<VendoredCrate>) -> bool {
    forall|a: int, b: int| 0 <= a < b < inv.len() ==> #[trigger] inv[a].key() != #[trigger] inv[b].key()
}

/// The visibility that the declarations give crate `c`.
pub fn visibility_for(ms: &Vec<DeclMeta>, c: &VendoredCrate) -> (r: Visibility)
    ensures
        r == meta_visibility(ms@, c.key(), ms.len() as int),
{
    let mut r = Visibility::ThirdParty;
    let mut i: usize = 0;
    while i < ms.len()
        invariant
            i <= ms.len(),
            r == meta_visibility(ms@, c.key(), i as int),
        decreases ms.len() - i,
    {
        if ms[i].crate_id.same_crate(c) {
            r = ms[i].visibility;
        }
        i = i + 1;
    }
    r
}

/// The build-script outputs that the declarations give crate `c`.
pub fn outputs_for(ms: &Vec<DeclMeta>, c: &VendoredCrate) -> (r: Vec<String>)
    ensures
        strings_view(r@) == meta_outputs(ms@, c.key(), ms.len() as int),
{
    let mut at: Option<usize> = None;
    let mut i: usize = 0;
    while i < ms.len()
        invariant
            i <= ms.len(),
            match at {
                Some(k) => k < ms.len() && strings_view(ms[k as int].build_script_outputs@) == meta_outputs(ms@, c.key(), i as int),
                None => meta_outputs(ms@, c.key(), i as int) == Seq::<Seq<char>>::empty(),
            },
        decreases ms.len() - i,
    {
        if ms[i].crate_id.same_crate(c) && ms[i].build_script_outputs.len() > 0 {
            at = Some(i);
        }
        i = i + 1;
    }
    match at {
        Some(k) => clone_strings(&ms[k].build_script_outputs),
        None => {
            proof {
                assert(strings_view(Seq::<String>::empty()) =~= seq![]);
            }
            Vec::new()
        },
    }
}

/// The extra-variable override that the declarations give crate `c`.
pub fn gn_variables_for(ms: &Vec<DeclMeta>, c: &VendoredCrate) -> (r: Option<String>)
    ensures
        opt_str_view(r) == meta_gn_variables(ms@, c.key(), ms.len() as int),
{
    let mut r: Option<String> = None;
    let mut i: usize = 0;
    while i < ms.len()
        invariant
            i <= ms.len(),
            opt_str_view(r) == meta_gn_variables(ms@, c.key(), i as int),
        decreases ms.len() - i,
    {
        if ms[i].crate_id.same_crate(c) {
            match &ms[i].gn_variables_lib {
                Some(s) => { r = Some(s.clone()); },
                None => {},
            }
        }
        i = i + 1;
    }
    r
}

/// The inventory positions of the dependencies that are vendored, in order.
pub fn vendored_edges(deps: &Vec<PackageRef>, inv: &Vec<VendoredCrate>) -> (r: Vec<usize>)
    ensures
        forall|k: int| 0 <= k < r.len() ==> #[trigger] r[k] < inv.len(),
        edge_keys(r@, inv@) == vendored_dep_keys(deps@, inv@, deps.len() as int),
{
    let mut r: Vec<usize> = Vec::new();
    let mut i: usize = 0;
    while i < deps.len()
        invariant
            i <= deps.len(),
            forall|k: int| 0 <= k < r.len() ==> #[trigger] r[k] < inv.len(),
            edge_keys(r@, inv@) == vendored_dep_keys(deps@, inv@, i as int),
        decreases deps.len() - i,
    {
        let c = VendoredCrate { name: deps[i].name.clone(), epoch: epoch_from_version(&deps[i].version) };
        match find_vendored(inv, &c) {
            Some(k) => {
                let ghost before = r@;
                r.push(k);
                assert(edge_keys(r@, inv@) =~= edge_keys(before, inv@).push(inv@[k as int].key()));
            },
            None => {},
        }
        i = i + 1;
    }
    r
}

/// Builds one description per resolved package that matches a vendored
/// crate, joining the declarations' metadata.
pub fn synthesize(packages: &Vec<ResolvedPackage>, inventory: &Vec<VendoredCrate>, metas: &Vec<DeclMeta>) -> (r: Vec<BuildFileDescription>)
    ensures
        synthesized(r@, packages@, inventory@, metas@),
{
    let mut r: Vec<BuildFileDescription> = Vec::new();
    let mut j: usize = 0;
    while j < packages.len()
        invariant
            j <= packages.len(),
            forall|k: int| 0 <= k < r.len() ==> describes(#[trigger] r[k], packages@, inventory@, metas@) && r[k].package < j,
            forall|k1: int, k2: int| 0 <= k1 < k2 < r.len() ==> #[trigger] r[k1].package < #[trigger] r[k2].package,
            forall|i: int| 0 <= i < j && in_inventory(inventory@, package_key(packages[i])) ==> exists|k: int|
                0 <= k < r.len() && #[trigger] r[k].package == i,
        decreases packages.len() - j,
    {
        let p = &packages[j];
        let id = p.third_party_crate_id();
        match find_vendored(inventory, &id) {
            Some(k) => {
                let d = BuildFileDescription {
                    package: j,
                    crate_index: k,
                    target_name: p.package_name.clone(),
                    visibility: visibility_for(metas, &id),
                    build_script_outputs: outputs_for(metas, &id),
                    gn_variables_lib: gn_variables_for(metas, &id),
                    dependency_edges: vendored_edges(&p.dependencies, inventory),
                };
                let ghost before = r@;
                r.push(d);
                proof {
                    assert forall|i: int| 0 <= i < j + 1 && in_inventory(inventory@, package_key(packages[i])) implies exists|k: int|
                        0 <= k < r.len() && #[trigger] r[k].package == i by {
                        if i == j {
                            assert(r[before.len() as int].package == i);
                        } else {
                            let w = choose|w: int| 0 <= w < before.len() && #[trigger] before[w].package == i;
                            assert(r@[w] == before[w]);
                        }
                    }
                }
            },
            None => {},
        }
        j = j + 1;
    }
    r
}

/// After reconciliation finds nothing, over vendored crates with distinct
/// identities, synthesis yields exactly one description per vendored crate,
/// and as many descriptions as vendored crates.
pub proof fn lemma_synthesis_bijection(
    ds: Seq<BuildFileDescription>,
    packages: Seq<ResolvedPackage>,
    inventory: Seq<VendoredCrate>,
    metas: Seq<DeclMeta>,
)
    requires
        inventory.len() <= usize::MAX,
        packages.len() <= usize::MAX,
        inventory_unique(inventory),
        all_findings(inventory, packages).len() == 0,
        synthesized(ds, packages, inventory, metas),
    ensures
        ds.len() == inventory.len(),
        forall|k: int| 0 <= k < inventory.len() ==> #[trigger] crate_listed(ds, k),
        forall|d1: int, d2: int|
            0 <= d1 < ds.len() && 0 <= d2 < ds.len() && #[trigger] ds[d1].crate_index == #[trigger] ds[d2].crate_index
                ==> d1 == d2,
{
    lemma_reconciliation_complete(inventory, packages);
    let n = inventory.len() as int;
    assert forall|d1: int, d2: int|
        0 <= d1 < ds.len() && 0 <= d2 < ds.len() && #[trigger] ds[d1].crate_index == #[trigger] ds[d2].crate_index
            implies d1 == d2 by {
        assert(describes(ds[d1], packages, inventory, metas));
        assert(describes(ds[d2], packages, inventory, metas));
        if d1 < d2 {
            assert(!collides(packages, ds[d2].package as int));
            assert(package_key(packages[ds[d1].package as int]) == package_key(packages[ds[d2].package as int]));
        } else if d2 < d1 {
            assert(!collides(packages, ds[d1].package as int));
            assert(package_key(packages[ds[d1].package as int]) == package_key(packages[ds[d2].package as int]));
        }
    }
    assert forall|k: int| 0 <= k < n implies #[trigger] crate_listed(ds, k) by {
        let key = inventory[k].key();
        assert(inventory_keys(inventory).contains(key));
        assert(graph_keys(packages).contains(key));
        let j = choose|j: int| 0 <= j < packages.len() && #[trigger] package_key(packages[j]) == key;
        assert(in_inventory(inventory, package_key(packages[j])));
        let d = choose|d: int| 0 <= d < ds.len() && #[trigger] ds[d].package == j;
        assert(describes(ds[d], packages, inventory, metas));
        let c = ds[d].crate_index as int;
        if c < k {
            assert(inventory[c].key() != inventory[k].key());
        } else if k < c {
            assert(inventory[k].key() != inventory[c].key());
        }
    }
    let idx = ds.map_values(|x: BuildFileDescription| x.crate_index as int);
    assert(idx.no_duplicates());
    idx.unique_seq_to_set();
    assert(idx.to_set() =~= set_int_range(0, n)) by {
        assert forall|k: int| idx.to_set().contains(k) implies 0 <= k < n by {
            let w = choose|w: int| 0 <= w < idx.len() && idx[w] == k;
            assert(describes(ds[w], packages, inventory, metas));
        }
        assert forall|k: int| 0 <= k < n implies idx.to_set().contains(k) by {
            assert(crate_listed(ds, k));
            let d = choose|d: int| 0 <= d < ds.len() && #[trigger] ds[d].crate_index == k;
            assert(idx[d] == k);
        }
    }
    lemma_int_range(0, n);
}

/// Some description belongs to the vendored crate at position `k`.
pub open spec fn crate_listed(ds: Seq<BuildFileDescription>, k: int) -> bool {
    exists|d: int| 0 <= d < ds.len() && #[trigger] ds[d].crate_index == k
}

/// Every vendored crate has exactly one description, and every description
/// names a vendored crate.
pub open spec fn one_to_one(ds: Seq<BuildFileDescription>, n_inventory: int) -> bool {
    &&& forall|d: int| 0 <= d < ds.len() ==> #[trigger] ds[d].crate_index < n_inventory
    &&& forall|k: int| 0 <= k < n_inventory ==> #[trigger] crate_listed(ds, k)
    &&& forall|d1: int, d2: int| 0 <= d1 < d2 < ds.len() ==> #[trigger] ds[d1].crate_index != #[trigger] ds[d2].crate_index
}

/// Checks that every vendored crate has exactly one description and every
/// description names a vendored crate.
pub fn check_one_to_one(ds: &Vec<BuildFileDescription>, n_inventory: usize) -> (r: Result<(), GenError>)
    ensures
        r is Ok <==> one_to_one(ds@, n_inventory as int),
        r is Err ==> r == Err::<(), GenError>(GenError::SynthesisMismatch),
{
    let mut d: usize = 0;
    while d < ds.len()
        invariant
            d <= ds.len(),
            forall|e: int| 0 <= e < d ==> #[trigger] ds[e].crate_index < n_inventory,
            forall|e1: int, e2: int| 0 <= e1 < e2 < d ==> #[trigger] ds[e1].crate_index != #[trigger] ds[e2].crate_index,
        decreases ds.len() - d,
    {
        if ds[d].crate_index >= n_inventory {
            return Err(GenError::SynthesisMismatch);
        }
        let mut e: usize = 0;
        while e < d
            invariant
                e <= d,
                d < ds.len(),
                forall|x: int| 0 <= x < e ==> #[trigger] ds[x].crate_index != ds[d as int].crate_index,
            decreases d - e,
        {
            if ds[e].crate_index == ds[d].crate_index {
                return Err(GenError::SynthesisMismatch);
            }
            e = e + 1;
        }
        d = d + 1;
    }
    let mut k: usize = 0;
    while k < n_inventory
        invariant
            k <= n_inventory,
            forall|x: int| 0 <= x < k ==> #[trigger] crate_listed(ds@, x),
        decreases n_inventory - k,
    {
        let mut d: usize = 0;
        let mut found = false;
        while d < ds.len() && !found
            invariant
                d <= ds.len(),
                found ==> exists|y: int| 0 <= y < ds.len() && #[trigger] ds[y].crate_index == k,
                !found ==> forall|y: int| 0 <= y < d ==> #[trigger] ds[y].crate_index != k,
            decreases ds.len() - d,
        {
            if ds[d].crate_index == k {
                found = true;
            }
            d = d + 1;
        }
        if !found {
            assert(!crate_listed(ds@, k as int));
            return Err(GenError::SynthesisMismatch);
        }
        assert(crate_listed(ds@, k as int));
        k = k + 1;
    }
    Ok(())
}

/// The positions of the vendored crates that no description belongs to, in
/// order.
pub fn unlisted_crates(ds: &Vec<BuildFileDescription>, n_inventory: usize) -> (r: Vec<usize>)
    ensures
        forall|k: int| 0 <= k < r.len() ==> #[trigger] r[k] < n_inventory && !crate_listed(ds@, r[k] as int),
        forall|k1: int, k2: int| 0 <= k1 < k2 < r.len() ==> #[trigger] r[k1] < #[trigger] r[k2],
        forall|c: int| 0 <= c < n_inventory && !crate_listed(ds@, c) ==> #[trigger] r@.contains(c as usize),
{
    let mut r: Vec<usize> = Vec::new();
    let mut k: usize = 0;
    while k < n_inventory
        invariant
            k <= n_inventory,
            forall|x: int| 0 <= x < r.len() ==> #[trigger] r[x] < k && !crate_listed(ds@, r[x] as int),
            forall|k1: int, k2: int| 0 <= k1 < k2 < r.len() ==> #[trigger] r[k1] < #[trigger] r[k2],
            forall|c: int| 0 <= c < k && !crate_listed(ds@, c) ==> #[trigger] r@.contains(c as usize),
        decreases n_inventory - k,
    {
        let mut d: usize = 0;
        let mut found = false;
        while d < ds.len() && !found
            invariant
                d <= ds.len(),
                found ==> crate_listed(ds@, k as int),
                !found ==> forall|y: int| 0 <= y < d ==> #[trigger] ds[y].crate_index != k,
            decreases ds.len() - d,
        {
            if ds[d].crate_index == k {
                found = true;
            }
            d = d + 1;
        }
        if !found {
            let ghost before = r@;
            r.push(k);
            proof {
                assert(r@[before.len() as int] == k);
                assert forall|c: int| 0 <= c < k + 1 && !crate_listed(ds@, c) implies #[trigger] r@.contains(c as usize) by {
                    if c < k {
                        assert(before.contains(c as usize));
                        let w = choose|w: int| 0 <= w < before.len() && before[w] == c as usize;
                        assert(r@[w] == c as usize);
                    }
                }
            }
        } else {
            assert forall|c: int| 0 <= c < k + 1 && !crate_listed(ds@, c) implies #[trigger] r@.contains(c as usize) by {
                if c < k {
                    assert(r@.contains(c as usize));
                }
            }
        }
        k = k + 1;
    }
    r
}

} // verus!
