use vstd::prelude::*;

use crate::crates::StdVendoredCrate;
use crate::inventory::{lemma_empty_multiset, lemma_name_le_total, lemma_name_le_trans, name_le, name_le_exec};
use crate::manifest::{clone_strings, strings_view};
use crate::version::version_le;
use crate::error::GenError;
use crate::graph::{PackageRef, is_path_under, path_under, str_eq, DepKind, RawGraph, ResolvedPackage};

verus! {

/// Whether the standard-library build keeps a package: the root always, any
/// other package only when something depends on it as a normal dependency.
pub open spec fn std_keeps(p: ResolvedPackage, root_name: Seq<char>) -> bool {
    p.package_name@ == root_name || p.dependency_kinds.normal
}

/// `kept` lists, in order, the positions of exactly the packages that the
/// standard-library build keeps.
pub open spec fn std_kept(ps: Seq<ResolvedPackage>, kept: Seq<usize>, root_name: Seq<char>) -> bool {
    &&& forall|k: int| 0 <= k < kept.len() ==> #[trigger] kept[k] < ps.len() && std_keeps(ps[kept[k] as int], root_name)
    &&& forall|k1: int, k2: int| 0 <= k1 < k2 < kept.len() ==> #[trigger] kept[k1] < #[trigger] kept[k2]
    &&& forall|j: int| 0 <= j < ps.len() && std_keeps(ps[j], root_name) ==> #[trigger] kept.contains(j as usize)
}

/// Drops development-only and build-only packages for the standard-library
/// build: tests are not run there, and build-time settings come from
/// configuration. The root package stays though nothing depends on it.
pub fn filter_std(packages: &Vec<ResolvedPackage>, root_name: &str) -> (r: Vec<usize>)
    ensures
        std_kept(packages@, r@, root_name@),
{
    let mut r: Vec<usize> = Vec::new();
    let mut j: usize = 0;
    while j < packages.len()
        invariant
            j <= packages.len(),
            forall|k: int| 0 <= k < r.len() ==> #[trigger] r[k] < j && std_keeps(packages[r[k] as int], root_name@),
            forall|k1: int, k2: int| 0 <= k1 < k2 < r.len() ==> #[trigger] r[k1] < #[trigger] r[k2],
            forall|i: int| 0 <= i < j && std_keeps(packages[i], root_name@) ==> #[trigger] r@.contains(i as usize),
        decreases packages.len() - j,
    {
        let p = &packages[j];
        if p.dependency_kinds.normal || str_eq(p.package_name.as_str(), root_name) {
            let ghost before = r@;
            r.push(j);
            proof {
                assert(r@[before.len() as int] == j);
                assert forall|i: int| 0 <= i < j + 1 && std_keeps(packages[i], root_name@) implies #[trigger] r@.contains(i as usize) by {
                    if i < j {
                        assert(before.contains(i as usize));
                        let w = choose|w: int| 0 <= w < before.len() && before[w] == i as usize;
                        assert(r@[w] == i as usize);
                    }
                }
            }
        } else {
            assert forall|i: int| 0 <= i < j + 1 && std_keeps(packages[i], root_name@) implies #[trigger] r@.contains(i as usize) by {
                if i < j {
                    assert(r@.contains(i as usize));
                }
            }
        }
        j = j + 1;
    }
    r
}

/// Packages by name, then by version.
pub open spec fn pkg_le(a: ResolvedPackage, b: ResolvedPackage) -> bool {
    if a.package_name@ == b.package_name@ {
        version_le(a.version, b.version)
    } else {
        name_le(a.package_name@, b.package_name@)
    }
}

/// `s` lists positions of packages, ascending by name, then version.
pub open spec fn sorted_by_name_version(ps: Seq<ResolvedPackage>, s: Seq<usize>) -> bool {
    &&& forall|k: int| 0 <= k < s.len() ==> #[trigger] s[k] < ps.len()
    &&& forall|i: int, j: int| 0 <= i < j < s.len() ==> pkg_le(ps[#[trigger] s[i] as int], ps[#[trigger] s[j] as int])
}

proof fn lemma_pkg_le_total_trans()
    ensures
        forall|a: ResolvedPackage, b: ResolvedPackage| pkg_le(a, b) || pkg_le(b, a),
        forall|a: ResolvedPackage, b: ResolvedPackage, c: ResolvedPackage|
            #[trigger] pkg_le(a, b) && #[trigger] pkg_le(b, c) ==> pkg_le(a, c),
{
    assert forall|a: ResolvedPackage, b: ResolvedPackage| pkg_le(a, b) || pkg_le(b, a) by {
        lemma_name_le_total(a.package_name@, b.package_name@);
    }
    assert forall|a: ResolvedPackage, b: ResolvedPackage, c: ResolvedPackage|
        #[trigger] pkg_le(a, b) && #[trigger] pkg_le(b, c) implies pkg_le(a, c) by {
        lemma_name_le_total(a.package_name@, b.package_name@);
        lemma_name_le_total(b.package_name@, c.package_name@);
        lemma_name_le_total(a.package_name@, c.package_name@);
        if a.package_name@ != b.package_name@ && b.package_name@ != c.package_name@ {
            lemma_name_le_trans(a.package_name@, b.package_name@, c.package_name@);
        }
    }
}

/// Whether package `a` comes no later than package `b` by name, then version.
pub fn pkg_le_exec(a: &ResolvedPackage, b: &ResolvedPackage) -> (r: bool)
    ensures
        r == pkg_le(*a, *b),
{
    if a.package_name == b.package_name {
        let (x, y) = (a.version, b.version);
        x.major < y.major || (x.major == y.major && (x.minor < y.minor || (x.minor == y.minor
            && x.patch <= y.patch)))
    } else {
        name_le_exec(a.package_name.as_str(), b.package_name.as_str())
    }
}

/// Orders package positions by the packages' names, then versions.
pub fn sort_packages(ps: &Vec<ResolvedPackage>, positions: Vec<usize>) -> (r: Vec<usize>)
    requires
        forall|k: int| 0 <= k < positions.len() ==> #[trigger] positions[k] < ps.len(),
    ensures
        r@.to_multiset() == positions@.to_multiset(),
        sorted_by_name_version(ps@, r@),
{
    proof {
        lemma_pkg_le_total_trans();
    }
    let ghost orig = positions@;
    let mut rest = positions;
    let mut out: Vec<usize> = Vec::new();
    proof {
        lemma_empty_multiset(out@);
    }
    while rest.len() > 0
        invariant
            out@.to_multiset().add(rest@.to_multiset()) == orig.to_multiset(),
            forall|k: int| 0 <= k < rest.len() ==> #[trigger] rest[k] < ps.len(),
            sorted_by_name_version(ps@, out@),
            forall|a: ResolvedPackage, b: ResolvedPackage| pkg_le(a, b) || pkg_le(b, a),
            forall|a: ResolvedPackage, b: ResolvedPackage, c: ResolvedPackage|
                #[trigger] pkg_le(a, b) && #[trigger] pkg_le(b, c) ==> pkg_le(a, c),
        decreases rest.len(),
    {
        let ghost before_rest = rest@;
        let x = rest.pop().unwrap();
        assert(before_rest =~= rest@.push(x));
        assert(x == before_rest[before_rest.len() - 1]);
        let mut p: usize = 0;
        while p < out.len() && pkg_le_exec(&ps[out[p]], &ps[x])
            invariant
                p <= out.len(),
                x < ps.len(),
                sorted_by_name_version(ps@, out@),
                forall|i: int| 0 <= i < p ==> pkg_le(ps[#[trigger] out[i] as int], ps[x as int]),
            decreases out.len() - p,
        {
            p = p + 1;
        }
        let ghost before_out = out@;
        out.insert(p, x);
        proof {
            assert(out@ == before_out.insert(p as int, x));
            vstd::seq_lib::to_multiset_insert(before_out, p as int, x);
            assert forall|k: int| 0 <= k < out.len() implies #[trigger] out[k] < ps.len() by {
                if k < p {
                    assert(out[k] == before_out[k]);
                } else if k > p {
                    assert(out[k] == before_out[k - 1]);
                }
            }
            assert forall|i: int, j: int| 0 <= i < j < out.len() implies pkg_le(ps[#[trigger] out[i] as int], ps[#[trigger] out[j] as int]) by {
                if j < p {
                    assert(out[i] == before_out[i] && out[j] == before_out[j]);
                } else if j == p {
                    assert(out[i] == before_out[i]);
                } else if i == p {
                    assert(out[j] == before_out[j - 1]);
                    assert(!pkg_le(ps[before_out[p as int] as int], ps[x as int]));
                    if j - 1 > p {
                        assert(pkg_le(ps[before_out[p as int] as int], ps[before_out[j - 1] as int]));
                    }
                } else if i < p {
                    assert(out[i] == before_out[i] && out[j] == before_out[j - 1]);
                } else {
                    assert(out[i] == before_out[i - 1] && out[j] == before_out[j - 1]);
                }
            }
            rest@.to_multiset_ensures();
            assert(rest@.push(x).to_multiset() =~= rest@.to_multiset().insert(x));
            assert(before_rest.to_multiset() =~= rest@.to_multiset().insert(x));
            assert(out@.to_multiset() =~= before_out.to_multiset().insert(x));
            assert(out@.to_multiset().add(rest@.to_multiset()) =~= before_out.to_multiset().add(
                before_rest.to_multiset(),
            ));
        }
    }
    proof {
        lemma_empty_multiset(rest@);
        assert(out@.to_multiset().add(rest@.to_multiset()) =~= out@.to_multiset());
    }
    out
}

/// `s` is what the standard-library build keeps, ordered by name, then
/// version.
pub open spec fn std_selection(ps: Seq<ResolvedPackage>, s: Seq<usize>, root_name: Seq<char>) -> bool {
    &&& exists|kept: Seq<usize>| #[trigger] std_kept(ps, kept, root_name) && s.to_multiset() == kept.to_multiset()
    &&& sorted_by_name_version(ps, s)
}

/// The first problem among the first `n` kept packages: a third-party
/// package with a library outside the source tree, or one that matches no
/// vendored package by name and version.
pub open spec fn std_problems(
    ps: Seq<ResolvedPackage>,
    kept: Seq<usize>,
    catalog: Seq<StdVendoredCrate>,
    src_prefix: Seq<char>,
    n: int,
) -> Result<(), GenError>
    decreases n,
{
    if n <= 0 {
        Ok(())
    } else {
        match std_problems(ps, kept, catalog, src_prefix, n - 1) {
            Err(e) => Err(e),
            Ok(_) => {
                let j = kept[n - 1];
                let p = ps[j as int];
                if p.is_local {
                    Ok(())
                } else {
                    match p.lib_target {
                        None => Ok(()),
                        Some(root) => if !path_under(src_prefix, root@) {
                            Err(GenError::NonLocalResolution { package: j })
                        } else if !in_catalog(catalog, p) {
                            Err(GenError::UnvendoredStdDependency { package: j })
                        } else {
                            Ok(())
                        },
                    }
                }
            },
        }
    }
}

proof fn lemma_problems_stick(
    ps: Seq<ResolvedPackage>,
    kept: Seq<usize>,
    catalog: Seq<StdVendoredCrate>,
    src_prefix: Seq<char>,
    m: int,
    n: int,
)
    requires
        0 <= m <= n,
        std_problems(ps, kept, catalog, src_prefix, m) is Err,
    ensures
        std_problems(ps, kept, catalog, src_prefix, n) == std_problems(ps, kept, catalog, src_prefix, m),
    decreases n - m,
{
    if m < n {
        lemma_problems_stick(ps, kept, catalog, src_prefix, m, n - 1);
    }
}

/// Some vendored package has the package's name and exact version.
pub open spec fn in_catalog(catalog: Seq<StdVendoredCrate>, p: ResolvedPackage) -> bool {
    exists|k: int| 0 <= k < catalog.len() && #[trigger] catalog[k].name@ == p.package_name@ && catalog[k].version == p.version
}

/// Whether a vendored package has the package's name and version.
pub fn find_in_catalog(catalog: &Vec<StdVendoredCrate>, p: &ResolvedPackage) -> (r: bool)
    ensures
        r == in_catalog(catalog@, *p),
{
    let mut k: usize = 0;
    while k < catalog.len()
        invariant
            k <= catalog.len(),
            forall|x: int| 0 <= x < k ==> !(#[trigger] catalog[x].name@ == p.package_name@ && catalog[x].version == p.version),
        decreases catalog.len() - k,
    {
        if catalog[k].name == p.package_name && catalog[k].version == p.version {
            return true;
        }
        k = k + 1;
    }
    false
}

/// Checks the kept third-party packages that have a library: each must come
/// from under `src_prefix` and match a vendored package; the first failure
/// is returned.
pub fn check_std_vendored(
    packages: &Vec<ResolvedPackage>,
    kept: &Vec<usize>,
    catalog: &Vec<StdVendoredCrate>,
    src_prefix: &str,
) -> (r: Result<(), GenError>)
    requires
        forall|k: int| 0 <= k < kept.len() ==> #[trigger] kept[k] < packages.len(),
    ensures
        r == std_problems(packages@, kept@, catalog@, src_prefix@, kept.len() as int),
{
    let mut k: usize = 0;
    while k < kept.len()
        invariant
            k <= kept.len(),
            forall|x: int| 0 <= x < kept.len() ==> #[trigger] kept[x] < packages.len(),
            std_problems(packages@, kept@, catalog@, src_prefix@, k as int) == Ok::<(), GenError>(()),
        decreases kept.len() - k,
    {
        let j = kept[k];
        let p = &packages[j];
        if !p.is_local {
            match &p.lib_target {
                None => {},
                Some(root) => {
                    if !is_path_under(root.as_str(), src_prefix) {
                        proof {
                            lemma_problems_stick(packages@, kept@, catalog@, src_prefix@, k + 1, kept.len() as int);
                        }
                        return Err(GenError::NonLocalResolution { package: j });
                    }
                    if !find_in_catalog(catalog, p) {
                        proof {
                            lemma_problems_stick(packages@, kept@, catalog@, src_prefix@, k + 1, kept.len() as int);
                        }
                        return Err(GenError::UnvendoredStdDependency { package: j });
                    }
                },
            }
        }
        k = k + 1;
    }
    Ok(())
}

/// The standard-library pipeline after normalization from the root: keeps
/// the root and the normal dependencies, orders them by name, then version,
/// checks the third-party ones in that order against the vendored packages,
/// and returns the ordered positions.
pub fn std_packages(
    packages: &Vec<ResolvedPackage>,
    root_name: &str,
    catalog: &Vec<StdVendoredCrate>,
    src_prefix: &str,
) -> (r: Result<Vec<usize>, GenError>)
    ensures
        match r {
            Ok(s) => std_selection(packages@, s@, root_name@) && std_problems(
                packages@,
                s@,
                catalog@,
                src_prefix@,
                s.len() as int,
            ) == Ok::<(), GenError>(()),
            Err(e) => exists|s: Seq<usize>| std_selection(packages@, s, root_name@) && std_problems(
                packages@,
                s,
                catalog@,
                src_prefix@,
                s.len() as int,
            ) == Err::<(), GenError>(e),
        },
{
    let kept = filter_std(packages, root_name);
    let ghost kept_view = kept@;
    let sorted = sort_packages(packages, kept);
    assert(std_kept(packages@, kept_view, root_name@));
    assert(std_selection(packages@, sorted@, root_name@));
    match check_std_vendored(packages, &sorted, catalog, src_prefix) {
        Ok(()) => Ok(sorted),
        Err(e) => Err(e),
    }
}

/// Settings that configuration supplies for one standard-library crate.
#[derive(Debug)]
pub struct StdCrateConfig {
    pub name: String,
    /// Environment settings for compiling the crate.
    pub rustenv: Vec<String>,
    /// Conditional-compilation flags for the crate.
    pub cfg: Vec<String>,
}

/// One build rule of the standard-library build file.
#[derive(Debug)]
pub struct StdRule {
    /// The package, by position in the normalized graph.
    pub package: usize,
    pub crate_name: String,
    pub version: crate::version::Version,
    /// The packages of the file it depends on, by position in the
    /// normalized graph, one per dependency that the file holds.
    pub deps: Vec<usize>,
    pub rustenv: Vec<String>,
    pub cfg: Vec<String>,
}

/// Some package listed in `s` has the name and version of `d`.
pub open spec fn in_selection(ps: Seq<ResolvedPackage>, s: Seq<usize>, d: PackageRef) -> bool {
    exists|k: int| 0 <= k < s.len() && #[trigger] ps[s[k] as int].package_name@ == d.name@ && ps[s[k] as int].version == d.version
}

/// The first `n` dependencies that the file holds, by name and version.
pub open spec fn held_deps(ps: Seq<ResolvedPackage>, s: Seq<usize>, deps: Seq<PackageRef>, n: int) -> Seq<(Seq<char>, crate::version::Version)>
    decreases n,
{
    if n <= 0 {
        seq![]
    } else if in_selection(ps, s, deps[n - 1]) {
        held_deps(ps, s, deps, n - 1).push((deps[n - 1].name@, deps[n - 1].version))
    } else {
        held_deps(ps, s, deps, n - 1)
    }
}

pub open spec fn dep_positions_view(ps: Seq<ResolvedPackage>, d: Seq<usize>) -> Seq<(Seq<char>, crate::version::Version)> {
    d.map_values(|j: usize| (ps[j as int].package_name@, ps[j as int].version))
}

/// The position of the last configuration entry among the first `n` for
/// crate `name`.
pub open spec fn config_at(config: Seq<StdCrateConfig>, name: Seq<char>, n: int) -> Option<int>
    decreases n,
{
    if n <= 0 {
        None
    } else if config[n - 1].name@ == name {
        Some(n - 1)
    } else {
        config_at(config, name, n - 1)
    }
}

/// `r` is the rule for the package at position `j`.
pub open spec fn std_rule_of(
    r: StdRule,
    j: usize,
    ps: Seq<ResolvedPackage>,
    s: Seq<usize>,
    config: Seq<StdCrateConfig>,
) -> bool {
    let p = ps[j as int];
    &&& r.package == j
    &&& r.crate_name@ == p.package_name@
    &&& r.version == p.version
    &&& forall|k: int| 0 <= k < r.deps.len() ==> #[trigger] r.deps[k] < ps.len()
    &&& dep_positions_view(ps, r.deps@) == held_deps(ps, s, p.dependencies@, p.dependencies.len() as int)
    &&& match config_at(config, p.package_name@, config.len() as int) {
        Some(c) => strings_view(r.rustenv@) == strings_view(config[c].rustenv@) && strings_view(r.cfg@)
            == strings_view(config[c].cfg@),
        None => r.rustenv@.len() == 0 && r.cfg@.len() == 0,
    }
}

/// The position of a listed package with the name and version of `d`.
fn find_selected(ps: &Vec<ResolvedPackage>, s: &Vec<usize>, d: &PackageRef) -> (r: Option<usize>)
    requires
        forall|k: int| 0 <= k < s.len() ==> #[trigger] s[k] < ps.len(),
    ensures
        match r {
            Some(j) => j < ps.len() && ps[j as int].package_name@ == d.name@ && ps[j as int].version == d.version
                && in_selection(ps@, s@, *d),
            None => !in_selection(ps@, s@, *d),
        },
{
    let mut k: usize = 0;
    while k < s.len()
        invariant
            k <= s.len(),
            forall|x: int| 0 <= x < s.len() ==> #[trigger] s[x] < ps.len(),
            forall|x: int| 0 <= x < k ==> !(#[trigger] ps[s[x] as int].package_name@ == d.name@ && ps[s[x] as int].version == d.version),
        decreases s.len() - k,
    {
        let j = s[k];
        if ps[j].package_name == d.name && ps[j].version == d.version {
            assert(ps[s[k as int] as int].package_name@ == d.name@);
            return Some(j);
        }
        k = k + 1;
    }
    None
}

/// Builds the rule of each listed package, in order: its dependencies that
/// the file holds, and the settings that configuration gives its crate.
pub fn synthesize_std(ps: &Vec<ResolvedPackage>, s: &Vec<usize>, config: &Vec<StdCrateConfig>) -> (r: Vec<StdRule>)
    requires
        forall|k: int| 0 <= k < s.len() ==> #[trigger] s[k] < ps.len(),
    ensures
        r.len() == s.len(),
        forall|k: int| 0 <= k < r.len() ==> std_rule_of(#[trigger] r[k], s[k], ps@, s@, config@),
{
    let mut r: Vec<StdRule> = Vec::new();
    let mut k: usize = 0;
    while k < s.len()
        invariant
            k <= s.len(),
            r.len() == k,
            forall|x: int| 0 <= x < s.len() ==> #[trigger] s[x] < ps.len(),
            forall|x: int| 0 <= x < r.len() ==> std_rule_of(#[trigger] r[x], s[x], ps@, s@, config@),
        decreases s.len() - k,
    {
        let j = s[k];
        let p = &ps[j];
        let mut deps: Vec<usize> = Vec::new();
        let mut i: usize = 0;
        while i < p.dependencies.len()
            invariant
                i <= p.dependencies.len(),
                forall|x: int| 0 <= x < s.len() ==> #[trigger] s[x] < ps.len(),
                forall|x: int| 0 <= x < deps.len() ==> #[trigger] deps[x] < ps.len(),
                dep_positions_view(ps@, deps@) == held_deps(ps@, s@, p.dependencies@, i as int),
            decreases p.dependencies.len() - i,
        {
            match find_selected(ps, s, &p.dependencies[i]) {
                Some(q) => {
                    let ghost before = deps@;
                    deps.push(q);
                    assert(dep_positions_view(ps@, deps@) =~= dep_positions_view(ps@, before).push(
                        (ps@[q as int].package_name@, ps@[q as int].version),
                    ));
                },
                None => {},
            }
            i = i + 1;
        }
        let mut at: Option<usize> = None;
        let mut c: usize = 0;
        while c < config.len()
            invariant
                c <= config.len(),
                match at {
                    Some(x) => x < config.len() && config_at(config@, p.package_name@, c as int) == Some(x as int),
                    None => config_at(config@, p.package_name@, c as int) == None::<int>,
                },
            decreases config.len() - c,
        {
            if config[c].name == p.package_name {
                at = Some(c);
            }
            c = c + 1;
        }
        let (rustenv, cfg) = match at {
            Some(x) => (clone_strings(&config[x].rustenv), clone_strings(&config[x].cfg)),
            None => (Vec::new(), Vec::new()),
        };
        r.push(StdRule { package: j, crate_name: p.package_name.clone(), version: p.version, deps, rustenv, cfg });
        k = k + 1;
    }
    r
}

/// In the standard-library build, normalized from the roots with roots kept
/// and then kept and ordered, no package is reached only as a development or
/// only as a build dependency: each one but the root is a normal dependency.
/// A root package with the root's name is kept though no edge leads into it.
pub proof fn lemma_std_filtering(
    g: RawGraph,
    vendored_root: Seq<char>,
    filter: Option<DepKind>,
    ps: Seq<ResolvedPackage>,
    s: Seq<usize>,
    root_name: Seq<char>,
    i: int,
)
    requires
        g.wf(),
        g.normalized(ps, vendored_root, true, filter),
        ps.len() <= usize::MAX,
        std_selection(ps, s, root_name),
        0 <= i < g.packages.len(),
        g.is_root(i),
        g.packages[i].name@ == root_name,
    ensures
        forall|k: int|
            0 <= k < s.len() && ps[#[trigger] s[k] as int].package_name@ != root_name ==> {
                let kinds = ps[s[k] as int].dependency_kinds;
                kinds.normal && !(kinds.dev && !kinds.normal && !kinds.build) && !(kinds.build
                    && !kinds.normal && !kinds.dev)
            },
        exists|k: int| 0 <= k < s.len() && ps[#[trigger] s[k] as int].index == i,
{
    broadcast use vstd::seq_lib::group_to_multiset_ensures;

    let kept = choose|kept: Seq<usize>| #[trigger] std_kept(ps, kept, root_name) && s.to_multiset() == kept.to_multiset();
    assert forall|k: int| 0 <= k < s.len() implies std_keeps(ps[#[trigger] s[k] as int], root_name) by {
        assert(s.contains(s[k]));
        assert(s.to_multiset().count(s[k]) > 0);
        assert(kept.contains(s[k]));
        let w = choose|w: int| 0 <= w < kept.len() && kept[w] == s[k];
        assert(std_keeps(ps[kept[w] as int], root_name));
    }
    assert(g.selected(i, true, filter));
    let j = choose|j: int| 0 <= j < ps.len() && #[trigger] ps[j].index == i;
    assert(g.describes(ps[j], vendored_root));
    assert(std_keeps(ps[j], root_name));
    assert(kept.contains(j as usize));
    assert(kept.to_multiset().count(j as usize) > 0);
    assert(s.contains(j as usize));
    let k = choose|k: int| 0 <= k < s.len() && s[k] == j as usize;
    assert(ps[s[k] as int].index == i);
}

/// The standard-library pipeline on the resolver's output from the given
/// roots: normalizes what the roots reach, with the roots kept, then keeps,
/// orders and checks packages as `std_packages` does.
pub fn std_pipeline(
    g: &RawGraph,
    vendored_root: &str,
    root_name: &str,
    catalog: &Vec<StdVendoredCrate>,
    src_prefix: &str,
) -> (r: Result<(Vec<ResolvedPackage>, Vec<usize>), GenError>)
    requires
        g.wf(),
    ensures
        match r {
            Ok((ps, kept)) => g.normalized(ps@, vendored_root@, true, None) && std_selection(ps@, kept@, root_name@)
                && std_problems(ps@, kept@, catalog@, src_prefix@, kept.len() as int) == Ok::<(), GenError>(()),
            Err(e) => exists|ps: Seq<ResolvedPackage>, kept: Seq<usize>|
                g.normalized(ps, vendored_root@, true, None) && std_selection(ps, kept, root_name@)
                    && std_problems(ps, kept, catalog@, src_prefix@, kept.len() as int) == Err::<(), GenError>(e),
        },
{
    let ps = g.normalize(vendored_root, true, None);
    match std_packages(&ps, root_name, catalog, src_prefix) {
        Ok(kept) => Ok((ps, kept)),
        Err(e) => Err(e),
    }
}

} // verus!
