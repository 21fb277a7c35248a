use vstd::prelude::*;

use crate::crates::{
    find_package, find_vendored, in_graph, in_inventory, package_key, VendoredCrate,
};
use crate::graph::ResolvedPackage;
use crate::version::Epoch;

verus! {

/// One problem found by reconciliation. Packages are named by their position
/// in the normalized graph, vendored crates by their position in the
/// inventory.
#[derive(Clone, Copy, Debug, PartialEq, Eq, Structural)]
pub enum Finding {
    /// The package has the identity of an earlier package.
    EpochCollision { package: usize },
    /// No vendored crate has the package's identity.
    MissingVendoredUnit { package: usize },
    /// The package matches a vendored crate but was resolved elsewhere.
    NonLocalResolution { package: usize },
    /// No resolved package has the vendored crate's identity.
    UnusedVendoredUnit { vendored: usize },
}

/// Package `j` has the identity of an earlier package.
pub open spec fn collides(ps: Seq<ResolvedPackage>, j: int) -> bool {
    exists|i: int| 0 <= i < j && #[trigger] package_key(ps[i]) == package_key(ps[j])
}

/// Collision findings for the first `n` packages, in order.
pub open spec fn collision_findings(ps: Seq<ResolvedPackage>, n: int) -> Seq<Finding>
    decreases n,
{
    if n <= 0 {
        seq![]
    } else if collides(ps, n - 1) {
        collision_findings(ps, n - 1).push(Finding::EpochCollision { package: (n - 1) as usize })
    } else {
        collision_findings(ps, n - 1)
    }
}

/// Missing and non-local findings for the first `n` packages, in order.
pub open spec fn package_findings(
    ps: Seq<ResolvedPackage>,
    inv: Seq<VendoredCrate>,
    n: int,
) -> Seq<Finding>
    decreases n,
{
    if n <= 0 {
        seq![]
    } else if !in_inventory(inv, package_key(ps[n - 1])) {
        package_findings(ps, inv, n - 1).push(
            Finding::MissingVendoredUnit { package: (n - 1) as usize },
        )
    } else if !ps[n - 1].is_local {
        package_findings(ps, inv, n - 1).push(
            Finding::NonLocalResolution { package: (n - 1) as usize },
        )
    } else {
        package_findings(ps, inv, n - 1)
    }
}

/// Unused findings for the first `n` vendored crates, in order.
pub open spec fn unused_findings(
    inv: Seq<VendoredCrate>,
    ps: Seq<ResolvedPackage>,
    n: int,
) -> Seq<Finding>
    decreases n,
{
    if n <= 0 {
        seq![]
    } else if !in_graph(ps, inv[n - 1].key()) {
        unused_findings(inv, ps, n - 1).push(
            Finding::UnusedVendoredUnit { vendored: (n - 1) as usize },
        )
    } else {
        unused_findings(inv, ps, n - 1)
    }
}

/// Every finding of reconciliation: collisions, then missing and non-local
/// packages, then unused vendored crates.
pub open spec fn all_findings(inv: Seq<VendoredCrate>, ps: Seq<ResolvedPackage>) -> Seq<Finding> {
    collision_findings(ps, ps.len() as int) + package_findings(ps, inv, ps.len() as int)
        + unused_findings(inv, ps, inv.len() as int)
}

/// The identities of the vendored crates.
pub open spec fn inventory_keys(inv: Seq<VendoredCrate>) -> Set<(Seq<char>, Epoch)> {
    Set::new(|key: (Seq<char>, Epoch)| in_inventory(inv, key))
}

/// The identities of the resolved packages.
pub open spec fn graph_keys(ps: Seq<ResolvedPackage>) -> Set<(Seq<char>, Epoch)> {
    Set::new(|key: (Seq<char>, Epoch)| in_graph(ps, key))
}

proof fn lemma_collision_findings(ps: Seq<ResolvedPackage>, n: int)
    requires
        0 <= n <= ps.len(),
    ensures
        collision_findings(ps, n).len() == 0 <==> forall|j: int| 0 <= j < n ==> !collides(ps, j),
        forall|f: Finding| #[trigger]
            collision_findings(ps, n).contains(f) ==> f is EpochCollision,
    decreases n,
{
    if n > 0 {
        lemma_collision_findings(ps, n - 1);
        let prev = collision_findings(ps, n - 1);
        if collides(ps, n - 1) {
            let x = Finding::EpochCollision { package: (n - 1) as usize };
            assert(prev.push(x)[prev.len() as int] == x);
            assert forall|f: Finding| #[trigger] prev.push(x).contains(f) implies f is EpochCollision by {
                let w = choose|w: int| 0 <= w < prev.len() + 1 && prev.push(x)[w] == f;
                if w < prev.len() {
                    assert(prev.contains(prev[w]));
                }
            }
        }
    }
}

proof fn lemma_package_findings(ps: Seq<ResolvedPackage>, inv: Seq<VendoredCrate>, n: int)
    requires
        0 <= n <= ps.len(),
        ps.len() <= usize::MAX,
    ensures
        package_findings(ps, inv, n).len() == 0 <==> forall|j: int|
            0 <= j < n ==> in_inventory(inv, package_key(ps[j])) && ps[j].is_local,
        forall|f: Finding| #[trigger]
            package_findings(ps, inv, n).contains(f) ==> f is MissingVendoredUnit
                || f is NonLocalResolution,
        forall|j: usize|
            #![trigger package_findings(ps, inv, n).contains(Finding::MissingVendoredUnit { package: j })]
            package_findings(ps, inv, n).contains(Finding::MissingVendoredUnit { package: j }) <==> (j
                < n && !in_inventory(inv, package_key(ps[j as int]))),
    decreases n,
{
    if n > 0 {
        lemma_package_findings(ps, inv, n - 1);
        let prev = package_findings(ps, inv, n - 1);
        let cur = package_findings(ps, inv, n);
        assert forall|f: Finding| cur.contains(f) <==> (prev.contains(f) || (cur.len() > prev.len()
            && f == cur[prev.len() as int])) by {
            if cur.len() > prev.len() {
                assert(cur == prev.push(cur[prev.len() as int]));
                if cur.contains(f) {
                    let w = choose|w: int| 0 <= w < cur.len() && cur[w] == f;
                    if w < prev.len() {
                        assert(prev[w] == f);
                    }
                }
                if prev.contains(f) {
                    let w = choose|w: int| 0 <= w < prev.len() && prev[w] == f;
                    assert(cur[w] == f);
                }
            }
        }
    }
}

proof fn lemma_unused_findings(inv: Seq<VendoredCrate>, ps: Seq<ResolvedPackage>, n: int)
    requires
        0 <= n <= inv.len(),
        inv.len() <= usize::MAX,
    ensures
        unused_findings(inv, ps, n).len() == 0 <==> forall|k: int|
            0 <= k < n ==> in_graph(ps, inv[k].key()),
        forall|k: usize|
            #![trigger unused_findings(inv, ps, n).contains(Finding::UnusedVendoredUnit { vendored: k })]
            unused_findings(inv, ps, n).contains(Finding::UnusedVendoredUnit { vendored: k }) <==> (k
                < n && !in_graph(ps, inv[k as int].key())),
    decreases n,
{
    if n > 0 {
        lemma_unused_findings(inv, ps, n - 1);
        let prev = unused_findings(inv, ps, n - 1);
        let cur = unused_findings(inv, ps, n);
        assert forall|f: Finding| cur.contains(f) <==> (prev.contains(f) || (cur.len() > prev.len()
            && f == cur[prev.len() as int])) by {
            if cur.len() > prev.len() {
                assert(cur == prev.push(cur[prev.len() as int]));
                if cur.contains(f) {
                    let w = choose|w: int| 0 <= w < cur.len() && cur[w] == f;
                    if w < prev.len() {
                        assert(prev[w] == f);
                    }
                }
                if prev.contains(f) {
                    let w = choose|w: int| 0 <= w < prev.len() && prev[w] == f;
                    assert(cur[w] == f);
                }
            }
        }
    }
}

/// Reconciliation reports exactly the vendored crates that no package
/// resolves to as unused, and exactly the packages that no vendored crate
/// matches as missing; it finds nothing exactly when the vendored identities
/// and the resolved identities are the same set, no two packages share an
/// identity, and every package that matches a vendored crate is local.
pub proof fn lemma_reconciliation_complete(inventory: Seq<VendoredCrate>, packages: Seq<ResolvedPackage>)
    requires
        inventory.len() <= usize::MAX,
        packages.len() <= usize::MAX,
    ensures
        forall|k: usize|
            k < inventory.len() ==> (#[trigger] all_findings(inventory, packages).contains(
                Finding::UnusedVendoredUnit { vendored: k },
            ) <==> !in_graph(packages, inventory[k as int].key())),
        forall|j: usize|
            j < packages.len() ==> (#[trigger] all_findings(inventory, packages).contains(
                Finding::MissingVendoredUnit { package: j },
            ) <==> !in_inventory(inventory, package_key(packages[j as int]))),
        all_findings(inventory, packages).len() == 0 <==> {
            &&& inventory_keys(inventory) == graph_keys(packages)
            &&& forall|j: int| 0 <= j < packages.len() ==> !collides(packages, j)
            &&& forall|j: int|
                0 <= j < packages.len() && in_inventory(inventory, package_key(packages[j]))
                    ==> packages[j].is_local
        },
{
    let np = packages.len() as int;
    let ni = inventory.len() as int;
    lemma_collision_findings(packages, np);
    lemma_package_findings(packages, inventory, np);
    lemma_unused_findings(inventory, packages, ni);
    let c = collision_findings(packages, np);
    let p = package_findings(packages, inventory, np);
    let u = unused_findings(inventory, packages, ni);
    let all = all_findings(inventory, packages);
    assert(all == c + p + u);
    assert forall|f: Finding| all.contains(f) <==> (c.contains(f) || p.contains(f) || u.contains(f)) by {
        if all.contains(f) {
            let w = choose|w: int| 0 <= w < all.len() && all[w] == f;
            if w < c.len() {
                assert(c[w] == f);
            } else if w < c.len() + p.len() {
                assert(p[w - c.len()] == f);
            } else {
                assert(u[w - c.len() - p.len()] == f);
            }
        }
        if c.contains(f) {
            let w = choose|w: int| 0 <= w < c.len() && c[w] == f;
            assert(all[w] == f);
        }
        if p.contains(f) {
            let w = choose|w: int| 0 <= w < p.len() && p[w] == f;
            assert(all[c.len() + w] == f);
        }
        if u.contains(f) {
            let w = choose|w: int| 0 <= w < u.len() && u[w] == f;
            assert(all[c.len() + p.len() + w] == f);
        }
    }
    assert forall|k: usize| k < inventory.len() implies (#[trigger] all.contains(
        Finding::UnusedVendoredUnit { vendored: k },
    ) <==> !in_graph(packages, inventory[k as int].key())) by {
        let f = Finding::UnusedVendoredUnit { vendored: k };
        assert(!c.contains(f) && !p.contains(f));
    }
    assert forall|j: usize| j < packages.len() implies (#[trigger] all.contains(
        Finding::MissingVendoredUnit { package: j },
    ) <==> !in_inventory(inventory, package_key(packages[j as int]))) by {
        let f = Finding::MissingVendoredUnit { package: j };
        assert(!c.contains(f));
        if u.contains(f) {
            let w = choose|w: int| 0 <= w < u.len() && u[w] == f;
            lemma_unused_only(inventory, packages, ni, w);
        }
    }
    if all.len() == 0 {
        assert(c.len() == 0 && p.len() == 0 && u.len() == 0);
        assert(inventory_keys(inventory) =~= graph_keys(packages)) by {
            assert forall|key: (Seq<char>, Epoch)| in_inventory(inventory, key) implies in_graph(
                packages,
                key,
            ) by {
                let k = choose|k: int| 0 <= k < inventory.len() && #[trigger] inventory[k].key() == key;
            }
            assert forall|key: (Seq<char>, Epoch)| in_graph(packages, key) implies in_inventory(
                inventory,
                key,
            ) by {
                let j = choose|j: int| 0 <= j < packages.len() && #[trigger] package_key(packages[j]) == key;
            }
        }
    }
    if inventory_keys(inventory) == graph_keys(packages) && (forall|j: int|
        0 <= j < packages.len() ==> !collides(packages, j)) && (forall|j: int|
        0 <= j < packages.len() && in_inventory(inventory, package_key(packages[j]))
            ==> packages[j].is_local) {
        assert forall|j: int| 0 <= j < np implies in_inventory(inventory, package_key(packages[j]))
            && packages[j].is_local by {
            assert(in_graph(packages, package_key(packages[j])));
            assert(graph_keys(packages).contains(package_key(packages[j])));
        }
        assert forall|k: int| 0 <= k < ni implies in_graph(packages, inventory[k].key()) by {
            assert(in_inventory(inventory, inventory[k].key()));
            assert(inventory_keys(inventory).contains(inventory[k].key()));
        }
    }
}

proof fn lemma_unused_only(inv: Seq<VendoredCrate>, ps: Seq<ResolvedPackage>, n: int, w: int)
    requires
        0 <= n <= inv.len(),
        0 <= w < unused_findings(inv, ps, n).len(),
    ensures
        unused_findings(inv, ps, n)[w] is UnusedVendoredUnit,
    decreases n,
{
    if n > 0 {
        let prev = unused_findings(inv, ps, n - 1);
        if w < prev.len() {
            lemma_unused_only(inv, ps, n - 1, w);
        }
    }
}

/// The position a finding names.
pub open spec fn finding_index(f: Finding) -> int {
    match f {
        Finding::EpochCollision { package } => package as int,
        Finding::MissingVendoredUnit { package } => package as int,
        Finding::NonLocalResolution { package } => package as int,
        Finding::UnusedVendoredUnit { vendored } => vendored as int,
    }
}

/// The positions named by `s` rise strictly and stay below `n`.
pub open spec fn rising_below(s: Seq<Finding>, n: int) -> bool {
    &&& forall|a: int| 0 <= a < s.len() ==> 0 <= #[trigger] finding_index(s[a]) < n
    &&& forall|a: int, b: int| 0 <= a < b < s.len() ==> #[trigger] finding_index(s[a]) < #[trigger] finding_index(s[b])
}

proof fn lemma_collisions_rise(ps: Seq<ResolvedPackage>, n: int)
    requires
        0 <= n <= ps.len(),
        ps.len() <= usize::MAX,
    ensures
        rising_below(collision_findings(ps, n), n),
    decreases n,
{
    if n > 0 {
        lemma_collisions_rise(ps, n - 1);
    }
}

proof fn lemma_package_findings_rise(ps: Seq<ResolvedPackage>, inv: Seq<VendoredCrate>, n: int)
    requires
        0 <= n <= ps.len(),
        ps.len() <= usize::MAX,
    ensures
        rising_below(package_findings(ps, inv, n), n),
    decreases n,
{
    if n > 0 {
        lemma_package_findings_rise(ps, inv, n - 1);
    }
}

proof fn lemma_unused_rise(inv: Seq<VendoredCrate>, ps: Seq<ResolvedPackage>, n: int)
    requires
        0 <= n <= inv.len(),
        inv.len() <= usize::MAX,
    ensures
        rising_below(unused_findings(inv, ps, n), n),
    decreases n,
{
    if n > 0 {
        lemma_unused_rise(inv, ps, n - 1);
    }
}

/// Reconciliation reports each finding once: no finding occurs twice.
pub proof fn lemma_findings_reported_once(inventory: Seq<VendoredCrate>, packages: Seq<ResolvedPackage>)
    requires
        inventory.len() <= usize::MAX,
        packages.len() <= usize::MAX,
    ensures
        all_findings(inventory, packages).no_duplicates(),
{
    let np = packages.len() as int;
    let ni = inventory.len() as int;
    lemma_collision_findings(packages, np);
    lemma_package_findings(packages, inventory, np);
    lemma_collisions_rise(packages, np);
    lemma_package_findings_rise(packages, inventory, np);
    lemma_unused_rise(inventory, packages, ni);
    let c = collision_findings(packages, np);
    let p = package_findings(packages, inventory, np);
    let u = unused_findings(inventory, packages, ni);
    let all = all_findings(inventory, packages);
    assert(all == c + p + u);
    assert forall|a: int, b: int| 0 <= a < b < all.len() implies all[a] != all[b] by {
        let lc = c.len() as int;
        let lp = p.len() as int;
        if b < lc {
            assert(finding_index(c[a]) < finding_index(c[b]));
        } else if b < lc + lp {
            assert(p.contains(p[b - lc]));
            if a < lc {
                assert(c.contains(c[a]));
            } else {
                assert(finding_index(p[a - lc]) < finding_index(p[b - lc]));
            }
        } else {
            lemma_unused_only(inventory, packages, ni, b - lc - lp);
            if a < lc {
                assert(c.contains(c[a]));
            } else if a < lc + lp {
                assert(p.contains(p[a - lc]));
            } else {
                assert(finding_index(u[a - lc - lp]) < finding_index(u[b - lc - lp]));
            }
        }
    }
}

/// Whether package `j` has the identity of an earlier package.
pub fn collides_with_earlier(ps: &Vec<ResolvedPackage>, j: usize) -> (r: bool)
    requires
        j < ps.len(),
    ensures
        r == collides(ps@, j as int),
{
    let id = ps[j].third_party_crate_id();
    let mut i: usize = 0;
    while i < j
        invariant
            j < ps.len(),
            i <= j,
            id.key() == package_key(ps[j as int]),
            forall|k: int| 0 <= k < i ==> #[trigger] package_key(ps[k]) != package_key(ps[j as int]),
        decreases j - i,
    {
        if ps[i].third_party_crate_id().same_crate(&id) {
            return true;
        }
        i = i + 1;
    }
    false
}

/// Cross-checks the resolved packages against the vendored crates and
/// returns every finding; reconciliation succeeds when there is none.
pub fn reconcile(inventory: &Vec<VendoredCrate>, packages: &Vec<ResolvedPackage>) -> (r: Vec<
    Finding,
>)
    ensures
        r@ == all_findings(inventory@, packages@),
        r@.no_duplicates(),
{
    proof {
        let ni = inventory.len();
        let np = packages.len();
        lemma_findings_reported_once(inventory@, packages@);
    }
    let mut collisions: Vec<Finding> = Vec::new();
    let mut j: usize = 0;
    while j < packages.len()
        invariant
            j <= packages.len(),
            collisions@ == collision_findings(packages@, j as int),
        decreases packages.len() - j,
    {
        if collides_with_earlier(packages, j) {
            collisions.push(Finding::EpochCollision { package: j });
        }
        j = j + 1;
    }
    let mut per_package: Vec<Finding> = Vec::new();
    j = 0;
    while j < packages.len()
        invariant
            j <= packages.len(),
            per_package@ == package_findings(packages@, inventory@, j as int),
        decreases packages.len() - j,
    {
        let id = packages[j].third_party_crate_id();
        match find_vendored(inventory, &id) {
            None => { per_package.push(Finding::MissingVendoredUnit { package: j }); },
            Some(_) => {
                if !packages[j].is_local {
                    per_package.push(Finding::NonLocalResolution { package: j });
                }
            },
        }
        j = j + 1;
    }
    let mut unused: Vec<Finding> = Vec::new();
    let mut k: usize = 0;
    while k < inventory.len()
        invariant
            k <= inventory.len(),
            unused@ == unused_findings(inventory@, packages@, k as int),
        decreases inventory.len() - k,
    {
        if find_package(packages, &inventory[k]).is_none() {
            unused.push(Finding::UnusedVendoredUnit { vendored: k });
        }
        k = k + 1;
    }
    collisions.append(&mut per_package);
    collisions.append(&mut unused);
    collisions
}

} // verus!
