use vstd::prelude::*;

use crate::graph::ResolvedPackage;
use crate::version::{epoch_from_version, epoch_of_version, Epoch, Version};

verus! {

/// A vendored third-party crate: its name and compatibility bucket.
#[derive(Debug)]
pub struct VendoredCrate {
    pub name: String,
    pub epoch: Epoch,
}

/// A vendored standard-library dependency; lookups ignore `is_latest`.
#[derive(Debug)]
pub struct StdVendoredCrate {
    pub name: String,
    pub version: Version,
    pub is_latest: bool,
}

impl VendoredCrate {
    /// What identifies the crate: its name and its epoch.
    pub open spec fn key(&self) -> (Seq<char>, Epoch) {
        (self.name@, self.epoch)
    }

    /// Whether two crates have the same identity.
    pub fn same_crate(&self, other: &VendoredCrate) -> (r: bool)
        ensures
            r == (self.key() == other.key()),
    {
        self.name == other.name && self.epoch == other.epoch
    }
}

/// The vendored-crate identity of a resolved package: its name and the epoch
/// of its version.
pub open spec fn package_key(p: ResolvedPackage) -> (Seq<char>, Epoch) {
    (p.package_name@, epoch_of_version(p.version))
}

impl ResolvedPackage {
    /// The vendored crate that this package must match.
    pub fn third_party_crate_id(&self) -> (r: VendoredCrate)
        ensures
            r.key() == package_key(*self),
    {
        VendoredCrate { name: self.package_name.clone(), epoch: epoch_from_version(&self.version) }
    }
}

/// Some vendored crate has identity `key`.
pub open spec fn in_inventory(inv: Seq<VendoredCrate>, key: (Seq<char>, Epoch)) -> bool {
    exists|k: int| 0 <= k < inv.len() && #[trigger] inv[k].key() == key
}

/// Some resolved package has identity `key`.
pub open spec fn in_graph(ps: Seq<ResolvedPackage>, key: (Seq<char>, Epoch)) -> bool {
    exists|j: int| 0 <= j < ps.len() && #[trigger] package_key(ps[j]) == key
}

/// The position of the vendored crate with identity `c`, if there is one.
pub fn find_vendored(inv: &Vec<VendoredCrate>, c: &VendoredCrate) -> (r: Option<usize>)
    ensures
        match r {
            Some(k) => k < inv.len() && inv[k as int].key() == c.key(),
            None => !in_inventory(inv@, c.key()),
        },
{
    let mut k: usize = 0;
    while k < inv.len()
        invariant
            k <= inv.len(),
            forall|j: int| 0 <= j < k ==> #[trigger] inv[j].key() != c.key(),
        decreases inv.len() - k,
    {
        if inv[k].same_crate(c) {
            return Some(k);
        }
        k = k + 1;
    }
    None
}

/// The position of the first resolved package with identity `c`, if any.
pub fn find_package(ps: &Vec<ResolvedPackage>, c: &VendoredCrate) -> (r: Option<usize>)
    ensures
        match r {
            Some(j) => j < ps.len() && package_key(ps[j as int]) == c.key(),
            None => !in_graph(ps@, c.key()),
        },
{
    let mut j: usize = 0;
    while j < ps.len()
        invariant
            j <= ps.len(),
            forall|i: int| 0 <= i < j ==> #[trigger] package_key(ps[i]) != c.key(),
        decreases ps.len() - j,
    {
        if ps[j].third_party_crate_id().same_crate(c) {
            return Some(j);
        }
        j = j + 1;
    }
    None
}

} // verus!
