use vstd::prelude::*;
use vstd::string::*;

use crate::version::Version;

verus! {

/// The kind of a dependency edge.
#[derive(Clone, Copy, Debug, PartialEq, Eq, Structural)]
pub enum DepKind {
    Normal,
    Build,
    Dev,
}

/// The set of kinds by which a package is depended on.
#[derive(Clone, Copy, Debug, PartialEq, Eq, Structural)]
pub struct DepKinds {
    pub normal: bool,
    pub build: bool,
    pub dev: bool,
}

/// One package of the resolver's raw output.
#[derive(Debug)]
pub struct RawPackage {
    pub name: String,
    pub version: Version,
    /// The directory the resolver took the package from.
    pub manifest_dir: String,
    /// The root source file of its library target, if it has one.
    pub lib_root: Option<String>,
}

/// One edge of the resolver's raw output: package `from` depends on `to`.
#[derive(Clone, Copy, Debug, PartialEq, Eq, Structural)]
pub struct RawEdge {
    pub from: usize,
    pub to: usize,
    pub kind: DepKind,
}

/// The resolver's raw output: packages, edges between them by position, and
/// the root packages the resolution started from.
#[derive(Debug)]
pub struct RawGraph {
    pub packages: Vec<RawPackage>,
    pub edges: Vec<RawEdge>,
    pub roots: Vec<usize>,
}

/// A package named by name and exact version.
#[derive(Debug)]
pub struct PackageRef {
    pub name: String,
    pub version: Version,
}

/// One record of the normalized graph.
#[derive(Debug)]
pub struct ResolvedPackage {
    /// Its position among the raw graph's packages.
    pub index: usize,
    pub package_name: String,
    pub version: Version,
    pub dependency_kinds: DepKinds,
    /// Whether the package was taken from under the vendored root.
    pub is_local: bool,
    pub lib_target: Option<String>,
    /// The packages it depends on directly, one per outgoing edge.
    pub dependencies: Vec<PackageRef>,
    /// Names of the packages on a chain of edges leading to it, nearest
    /// first, for diagnostics.
    pub dependency_path: Vec<String>,
}

pub open spec fn opt_str_view(o: Option<String>) -> Option<Seq<char>> {
    match o {
        Some(s) => Some(s@),
        None => None,
    }
}

pub open spec fn ref_view(p: PackageRef) -> (Seq<char>, Version) {
    (p.name@, p.version)
}

impl RawGraph {
    /// Edges and roots point at packages of the graph.
    pub open spec fn wf(&self) -> bool {
        &&& forall|k: int|
            0 <= k < self.edges.len() ==> #[trigger] self.edges[k].from < self.packages.len()
                && self.edges[k].to < self.packages.len()
        &&& forall|k: int| 0 <= k < self.roots.len() ==> #[trigger] self.roots[k] < self.packages.len()
    }

    pub open spec fn is_root(&self, i: int) -> bool {
        exists|k: int| 0 <= k < self.roots.len() && self.roots[k] == i
    }

    /// A walk along edges that starts at a root.
    pub open spec fn is_walk(&self, w: Seq<int>) -> bool {
        &&& w.len() > 0
        &&& self.is_root(w[0])
        &&& forall|k: int| 0 <= k < w.len() - 1 ==> #[trigger] self.has_edge(w[k], w[k + 1])
    }

    /// Some root reaches package `i` along edges.
    pub open spec fn reachable(&self, i: int) -> bool {
        exists|w: Seq<int>| #[trigger] self.is_walk(w) && w.last() == i
    }

    /// `m` tells for each package whether a root reaches it.
    pub open spec fn marks_exact(&self, m: Seq<bool>) -> bool {
        &&& m.len() == self.packages.len()
        &&& forall|j: int| 0 <= j < m.len() ==> #[trigger] m[j] == self.reachable(j)
    }

    /// Some edge among the first `n`, leaving a package that a root
    /// reaches, leads into package `i` with kind `kind`.
    pub open spec fn has_incoming_upto(&self, i: int, kind: DepKind, n: int) -> bool {
        exists|k: int|
            0 <= k < n && #[trigger] self.edges[k].to == i && self.edges[k].kind == kind
                && self.reachable(self.edges[k].from as int)
    }

    pub open spec fn has_incoming(&self, i: int, kind: DepKind) -> bool {
        self.has_incoming_upto(i, kind, self.edges.len() as int)
    }

    /// The union of the kinds of the edges into package `i` from packages
    /// that a root reaches.
    pub open spec fn incoming_kinds(&self, i: int) -> DepKinds {
        DepKinds {
            normal: self.has_incoming(i, DepKind::Normal),
            build: self.has_incoming(i, DepKind::Build),
            dev: self.has_incoming(i, DepKind::Dev),
        }
    }

    /// Whether normalization keeps package `i`: a root only when roots are
    /// kept; any other package only when a root reaches it, and then unless a
    /// kind filter asks for a kind it lacks.
    pub open spec fn selected(&self, i: int, keep_roots: bool, filter: Option<DepKind>) -> bool {
        if self.is_root(i) {
            keep_roots
        } else {
            self.reachable(i) && match filter {
                None => true,
                Some(kind) => self.has_incoming(i, kind),
            }
        }
    }

    /// The targets of the first `n` edges that leave package `i`, in order.
    pub open spec fn out_refs(&self, i: int, n: int) -> Seq<(Seq<char>, Version)>
        decreases n,
    {
        if n <= 0 {
            seq![]
        } else {
            let prev = self.out_refs(i, n - 1);
            let e = self.edges[n - 1];
            if e.from == i {
                prev.push((self.packages[e.to as int].name@, self.packages[e.to as int].version))
            } else {
                prev
            }
        }
    }

    /// `r` holds one record per selected package, in the order of the raw
    /// packages, and nothing else.
    pub open spec fn normalized(
        &self,
        r: Seq<ResolvedPackage>,
        vendored_root: Seq<char>,
        keep_roots: bool,
        filter: Option<DepKind>,
    ) -> bool {
        &&& forall|k: int|
            0 <= k < r.len() ==> self.describes(#[trigger] r[k], vendored_root)
                && self.selected(r[k].index as int, keep_roots, filter)
        &&& forall|k1: int, k2: int|
            0 <= k1 < k2 < r.len() ==> #[trigger] r[k1].index < #[trigger] r[k2].index
        &&& forall|i: int|
            0 <= i < self.packages.len() && self.selected(i, keep_roots, filter) ==> exists|k: int|
                0 <= k < r.len() && #[trigger] r[k].index == i
    }

    /// `r` is the normalized record of package `i` under the vendored root.
    pub open spec fn describes(&self, r: ResolvedPackage, vendored_root: Seq<char>) -> bool {
        let i = r.index as int;
        let p = self.packages[i];
        &&& 0 <= i < self.packages.len()
        &&& r.package_name@ == p.name@
        &&& r.version == p.version
        &&& r.dependency_kinds == self.incoming_kinds(i)
        &&& r.is_local == path_under(vendored_root, p.manifest_dir@)
        &&& opt_str_view(r.lib_target) == opt_str_view(p.lib_root)
        &&& r.dependencies@.map_values(|d: PackageRef| ref_view(d)) == self.out_refs(
            i,
            self.edges.len() as int,
        )
        &&& exists|chain: Seq<usize>| #[trigger] self.is_chain(chain, i, r.dependency_path@)
    }
}

/// Whether `s` begins with `prefix`.
pub fn starts_with(s: &str, prefix: &str) -> (r: bool)
    ensures
        r == prefix@.is_prefix_of(s@),
{
    let n = prefix.unicode_len();
    let m = s.unicode_len();
    if n > m {
        return false;
    }
    let mut i: usize = 0;
    while i < n
        invariant
            n == prefix@.len(),
            m == s@.len(),
            n <= m,
            i <= n,
            forall|j: int| 0 <= j < i ==> prefix@[j] == s@[j],
        decreases n - i,
    {
        if prefix.get_char(i) != s.get_char(i) {
            assert(prefix@[i as int] != s@.subrange(0, n as int)[i as int]);
            return false;
        }
        i = i + 1;
    }
    assert(prefix@ =~= s@.subrange(0, n as int));
    true
}

/// `path` is `root` itself or lies under it: the text after `root` starts a
/// new path component.
pub open spec fn path_under(root: Seq<char>, path: Seq<char>) -> bool {
    &&& root.is_prefix_of(path)
    &&& path.len() == root.len() || path[root.len() as int] == '/' || (root.len() > 0 && root.last()
        == '/')
}

/// Whether `path` is `root` or lies under it, by whole path components.
pub fn is_path_under(path: &str, root: &str) -> (r: bool)
    ensures
        r == path_under(root@, path@),
{
    if !starts_with(path, root) {
        return false;
    }
    let n = root.unicode_len();
    let m = path.unicode_len();
    if m == n {
        return true;
    }
    if path.get_char(n) == '/' {
        return true;
    }
    n > 0 && root.get_char(n - 1) == '/'
}

/// Whether two strings hold the same characters.
pub fn str_eq(a: &str, b: &str) -> (r: bool)
    ensures
        r == (a@ == b@),
{
    if a.unicode_len() != b.unicode_len() {
        return false;
    }
    let r = starts_with(a, b);
    proof {
        if r {
            assert(a@ =~= a@.subrange(0, b@.len() as int));
        }
    }
    r
}

pub(crate) fn clone_opt_str(o: &Option<String>) -> (r: Option<String>)
    ensures
        opt_str_view(r) == opt_str_view(*o),
{
    match o {
        Some(s) => Some(s.clone()),
        None => None,
    }
}

impl RawGraph {
    /// Whether package `i` is one of the roots.
    pub fn check_root(&self, i: usize) -> (r: bool)
        ensures
            r == self.is_root(i as int),
    {
        let mut k: usize = 0;
        while k < self.roots.len()
            invariant
                k <= self.roots.len(),
                forall|j: int| 0 <= j < k ==> self.roots[j] != i,
            decreases self.roots.len() - k,
        {
            if self.roots[k] == i {
                return true;
            }
            k = k + 1;
        }
        false
    }

    /// The union of the kinds of the edges into package `i`.
    pub fn kinds_into(&self, i: usize, marks: &Vec<bool>) -> (r: DepKinds)
        requires
            self.wf(),
            self.marks_exact(marks@),
        ensures
            r == self.incoming_kinds(i as int),
    {
        let mut r = DepKinds { normal: false, build: false, dev: false };
        let mut k: usize = 0;
        while k < self.edges.len()
            invariant
                self.wf(),
                self.marks_exact(marks@),
                k <= self.edges.len(),
                r.normal == self.has_incoming_upto(i as int, DepKind::Normal, k as int),
                r.build == self.has_incoming_upto(i as int, DepKind::Build, k as int),
                r.dev == self.has_incoming_upto(i as int, DepKind::Dev, k as int),
            decreases self.edges.len() - k,
        {
            let e = self.edges[k];
            if e.to == i && marks[e.from] {
                match e.kind {
                    DepKind::Normal => { r.normal = true; },
                    DepKind::Build => { r.build = true; },
                    DepKind::Dev => { r.dev = true; },
                }
            }
            proof {
                let kk = k as int + 1;
                assert forall|kind: DepKind|
                    self.has_incoming_upto(i as int, kind, kk) == (self.has_incoming_upto(
                        i as int,
                        kind,
                        k as int,
                    ) || (self.edges[k as int].to == i && self.edges[k as int].kind == kind
                        && self.reachable(self.edges[k as int].from as int))) by {
                    if self.has_incoming_upto(i as int, kind, kk) {
                        let w = choose|w: int|
                            0 <= w < kk && #[trigger] self.edges[w].to == i && self.edges[w].kind
                                == kind && self.reachable(self.edges[w].from as int);
                        if w < k {
                            assert(self.has_incoming_upto(i as int, kind, k as int));
                        }
                    }
                    if self.edges[k as int].to == i && self.edges[k as int].kind == kind
                        && self.reachable(self.edges[k as int].from as int) {
                        assert(self.has_incoming_upto(i as int, kind, kk));
                    }
                }
            }
            k = k + 1;
        }
        r
    }

    /// The packages that package `i` depends on, one per outgoing edge.
    pub fn dependencies_of(&self, i: usize) -> (r: Vec<PackageRef>)
        requires
            self.wf(),
        ensures
            r@.map_values(|d: PackageRef| ref_view(d)) == self.out_refs(
                i as int,
                self.edges.len() as int,
            ),
    {
        let mut r: Vec<PackageRef> = Vec::new();
        let mut k: usize = 0;
        while k < self.edges.len()
            invariant
                self.wf(),
                k <= self.edges.len(),
                r@.map_values(|d: PackageRef| ref_view(d)) == self.out_refs(i as int, k as int),
            decreases self.edges.len() - k,
        {
            let e = self.edges[k];
            if e.from == i {
                let p = &self.packages[e.to];
                let d = PackageRef { name: p.name.clone(), version: p.version };
                let ghost before = r@;
                r.push(d);
                assert(r@.map_values(|d: PackageRef| ref_view(d)) =~= before.map_values(
                    |d: PackageRef| ref_view(d),
                ).push(ref_view(d)));
            }
            k = k + 1;
        }
        r
    }

    /// Names of packages on a chain of edges that leads to package `i`,
    /// nearest first, stopping at a root or at a package with no dependent.
    pub fn dependency_path(&self, i: usize) -> (r: Vec<String>)
        requires
            self.wf(),
            i < self.packages.len(),
        ensures
            r.len() <= self.packages.len(),
            exists|chain: Seq<usize>| #[trigger] self.is_chain(chain, i as int, r@),
    {
        let mut r: Vec<String> = Vec::new();
        let mut cur = i;
        let mut steps: usize = 0;
        let ghost mut chain: Seq<usize> = seq![];
        while steps < self.packages.len()
            invariant
                self.wf(),
                cur < self.packages.len(),
                r.len() == steps,
                steps <= self.packages.len(),
                self.is_chain(chain, i as int, r@),
                cur == if chain.len() == 0 { i } else { chain.last() },
            decreases self.packages.len() - steps,
        {
            if self.check_root(cur) {
                return r;
            }
            let mut k: usize = 0;
            let mut found = false;
            let mut next: usize = 0;
            while k < self.edges.len() && !found
                invariant
                    self.wf(),
                    k <= self.edges.len(),
                    next < self.packages.len(),
                    found ==> self.has_edge(next as int, cur as int),
                decreases self.edges.len() - k,
            {
                if self.edges[k].to == cur {
                    found = true;
                    next = self.edges[k].from;
                    assert(self.edges[k as int].from == next && self.edges[k as int].to == cur);
                }
                k = k + 1;
            }
            if !found {
                return r;
            }
            let ghost old_chain = chain;
            let ghost old_r = r@;
            r.push(self.packages[next].name.clone());
            proof {
                chain = chain.push(next);
                assert forall|k: int| 0 <= k < chain.len() implies #[trigger] chain[k] < self.packages.len()
                    && r@[k]@ == self.packages[chain[k] as int].name@ && self.has_edge(
                    chain[k] as int,
                    if k == 0 { i as int } else { chain[k - 1] as int },
                ) by {
                    if k < old_chain.len() {
                        assert(chain[k] == old_chain[k] && r@[k] == old_r[k]);
                    }
                }
            }
            cur = next;
            steps = steps + 1;
        }
        r
    }

    /// Some edge leads from package `from` to package `to`.
    pub open spec fn has_edge(&self, from: int, to: int) -> bool {
        exists|k: int| 0 <= k < self.edges.len() && #[trigger] self.edges[k].from == from && self.edges[k].to == to
    }

    /// `names` names the packages of `chain`, where the first of them
    /// depends on package `i` and each next one on the one before.
    pub open spec fn is_chain(&self, chain: Seq<usize>, i: int, names: Seq<String>) -> bool {
        &&& chain.len() == names.len()
        &&& forall|k: int| 0 <= k < chain.len() ==> #[trigger] chain[k] < self.packages.len()
            && names[k]@ == self.packages[chain[k] as int].name@ && self.has_edge(
            chain[k] as int,
            if k == 0 { i } else { chain[k - 1] as int },
        )
    }

    /// The normalized record of package `i`.
    pub fn resolve_package(&self, i: usize, vendored_root: &str, marks: &Vec<bool>) -> (r: ResolvedPackage)
        requires
            self.wf(),
            self.marks_exact(marks@),
            i < self.packages.len(),
        ensures
            r.index == i,
            self.describes(r, vendored_root@),
    {
        let p = &self.packages[i];
        let path = self.dependency_path(i);
        let ghost chain = choose|chain: Seq<usize>| #[trigger] self.is_chain(chain, i as int, path@);
        let r = ResolvedPackage {
            index: i,
            package_name: p.name.clone(),
            version: p.version,
            dependency_kinds: self.kinds_into(i, marks),
            is_local: is_path_under(p.manifest_dir.as_str(), vendored_root),
            lib_target: clone_opt_str(&p.lib_root),
            dependencies: self.dependencies_of(i),
            dependency_path: path,
        };
        assert(self.is_chain(chain, r.index as int, r.dependency_path@));
        r
    }

    /// Whether package `i` passes the root rule and the kind filter.
    pub fn is_selected(&self, i: usize, keep_roots: bool, filter: Option<DepKind>, marks: &Vec<bool>) -> (r: bool)
        requires
            self.wf(),
            self.marks_exact(marks@),
            i < self.packages.len(),
        ensures
            r == self.selected(i as int, keep_roots, filter),
    {
        if self.check_root(i) {
            keep_roots
        } else if !marks[i] {
            false
        } else {
            match filter {
                None => true,
                Some(kind) => {
                    let k = self.kinds_into(i, marks);
                    match kind {
                        DepKind::Normal => k.normal,
                        DepKind::Build => k.build,
                        DepKind::Dev => k.dev,
                    }
                },
            }
        }
    }

    /// Normalizes the raw graph: one record per selected package, in the
    /// order of the raw packages. Roots are kept only when `keep_roots` is
    /// set; other packages only when a root reaches them, and under a kind
    /// filter only when some edge of that kind from a reached package leads
    /// into them. Nothing else is left out.
    pub fn normalize(&self, vendored_root: &str, keep_roots: bool, filter: Option<DepKind>) -> (r:
        Vec<ResolvedPackage>)
        requires
            self.wf(),
        ensures
            self.normalized(r@, vendored_root@, keep_roots, filter),
    {
        let marks = self.reach_marks();
        let mut r: Vec<ResolvedPackage> = Vec::new();
        let mut i: usize = 0;
        while i < self.packages.len()
            invariant
                self.wf(),
                self.marks_exact(marks@),
                i <= self.packages.len(),
                forall|k: int|
                    0 <= k < r.len() ==> self.describes(#[trigger] r[k], vendored_root@)
                        && self.selected(r[k].index as int, keep_roots, filter) && r[k].index < i,
                forall|k1: int, k2: int|
                    0 <= k1 < k2 < r.len() ==> #[trigger] r[k1].index < #[trigger] r[k2].index,
                forall|j: int|
                    0 <= j < i && self.selected(j, keep_roots, filter) ==> exists|k: int|
                        0 <= k < r.len() && #[trigger] r[k].index == j,
            decreases self.packages.len() - i,
        {
            if self.is_selected(i, keep_roots, filter, &marks) {
                let rec = self.resolve_package(i, vendored_root, &marks);
                let ghost before = r@;
                r.push(rec);
                proof {
                    let last = r.len() - 1;
                    assert(r[last as int].index == i);
                    assert forall|j: int|
                        0 <= j < i + 1 && self.selected(j, keep_roots, filter) implies exists|k: int|
                        0 <= k < r.len() && #[trigger] r[k].index == j by {
                        if j == i {
                            assert(r[last as int].index == j);
                        } else {
                            let k = choose|k: int| 0 <= k < before.len() && #[trigger] before[k].index == j;
                            assert(r@[k] == before[k]);
                            assert(r[k].index == j);
                        }
                    }
                }
            }
            i = i + 1;
        }
        assert(self.normalized(r@, vendored_root@, keep_roots, filter));
        r
    }

    /// Every edge leaving a marked package leads to a marked package.
    pub open spec fn closed(&self, m: Seq<bool>) -> bool {
        forall|k: int|
            0 <= k < self.edges.len() && m[#[trigger] self.edges[k].from as int] ==> m[self.edges[k].to as int]
    }

    /// Marks only reached packages, and every root.
    pub open spec fn marks_sound(&self, m: Seq<bool>) -> bool {
        &&& m.len() == self.packages.len()
        &&& forall|j: int| 0 <= j < m.len() && #[trigger] m[j] ==> self.reachable(j)
        &&& forall|k: int| 0 <= k < self.roots.len() ==> m[#[trigger] self.roots[k] as int]
    }

    proof fn lemma_walk_marked(&self, m: Seq<bool>, w: Seq<int>)
        requires
            self.wf(),
            self.marks_sound(m),
            self.closed(m),
            self.is_walk(w),
        ensures
            0 <= w.last() < m.len(),
            m[w.last()],
        decreases w.len(),
    {
        if w.len() == 1 {
            let k = choose|k: int| 0 <= k < self.roots.len() && self.roots[k] == w[0];
            assert(m[self.roots[k] as int]);
        } else {
            let v = w.drop_last();
            assert forall|k: int| 0 <= k < v.len() - 1 implies #[trigger] self.has_edge(v[k], v[k + 1]) by {
                assert(self.has_edge(w[k], w[k + 1]));
            }
            self.lemma_walk_marked(m, v);
            let last = w.len() - 2;
            assert(self.has_edge(w[last], w[last + 1]));
            let e = choose|e: int|
                0 <= e < self.edges.len() && #[trigger] self.edges[e].from == w[last]
                    && self.edges[e].to == w[last + 1];
            assert(m[self.edges[e].from as int]);
        }
    }

    proof fn lemma_extend_walk(&self, k: int)
        requires
            self.wf(),
            0 <= k < self.edges.len(),
            self.reachable(self.edges[k].from as int),
        ensures
            self.reachable(self.edges[k].to as int),
    {
        let e = self.edges[k];
        let w = choose|w: Seq<int>| #[trigger] self.is_walk(w) && w.last() == e.from as int;
        let w2 = w.push(e.to as int);
        assert forall|j: int| 0 <= j < w2.len() - 1 implies #[trigger] self.has_edge(w2[j], w2[j + 1]) by {
            if j < w.len() - 1 {
                assert(w2[j] == w[j] && w2[j + 1] == w[j + 1]);
                assert(self.has_edge(w[j], w[j + 1]));
            } else {
                assert(self.edges[k].from == w2[j] && self.edges[k].to == w2[j + 1]);
            }
        }
        assert(self.is_walk(w2));
    }

    /// For each package, whether some root reaches it.
    pub fn reach_marks(&self) -> (r: Vec<bool>)
        requires
            self.wf(),
        ensures
            self.marks_exact(r@),
    {
        let n = self.packages.len();
        let mut marks: Vec<bool> = Vec::new();
        while marks.len() < n
            invariant
                marks.len() <= n,
                n == self.packages.len(),
                forall|j: int| 0 <= j < marks.len() ==> !#[trigger] marks[j],
            decreases n - marks.len(),
        {
            marks.push(false);
        }
        let mut k: usize = 0;
        while k < self.roots.len()
            invariant
                self.wf(),
                n == self.packages.len(),
                marks.len() == n,
                k <= self.roots.len(),
                forall|j: int| 0 <= j < marks.len() && #[trigger] marks[j] ==> self.reachable(j),
                forall|x: int| 0 <= x < k ==> marks[#[trigger] self.roots[x] as int],
            decreases self.roots.len() - k,
        {
            let root = self.roots[k];
            proof {
                let w = seq![root as int];
                assert(self.is_walk(w));
            }
            marks.set(root, true);
            k = k + 1;
        }
        let mut changed = true;
        while changed
            invariant
                self.wf(),
                self.marks_sound(marks@),
                !changed ==> self.closed(marks@),
            decreases count_false(marks@, marks@.len() as int) + if changed { 1int } else { 0int },
        {
            let ghost c0 = count_false(marks@, marks@.len() as int);
            proof {
                lemma_count_false_nonneg(marks@, marks@.len() as int);
            }
            changed = false;
            let mut e: usize = 0;
            while e < self.edges.len()
                invariant
                    self.wf(),
                    self.marks_sound(marks@),
                    e <= self.edges.len(),
                    c0 >= 0,
                    changed ==> count_false(marks@, marks@.len() as int) < c0,
                    !changed ==> count_false(marks@, marks@.len() as int) == c0,
                    !changed ==> forall|x: int|
                        0 <= x < e && marks@[#[trigger] self.edges[x].from as int] ==> marks@[self.edges[x].to as int],
                decreases self.edges.len() - e,
            {
                let from = self.edges[e].from;
                let to = self.edges[e].to;
                if marks[from] && !marks[to] {
                    proof {
                        self.lemma_extend_walk(e as int);
                        lemma_count_false_set(marks@, to as int, marks@.len() as int);
                        lemma_count_false_nonneg(marks@.update(to as int, true), marks@.len() as int);
                    }
                    marks.set(to, true);
                    changed = true;
                }
                e = e + 1;
            }
            proof {
                lemma_count_false_nonneg(marks@, marks@.len() as int);
            }
        }
        proof {
            assert forall|j: int| 0 <= j < marks@.len() implies #[trigger] marks@[j] == self.reachable(j) by {
                if self.reachable(j) {
                    let w = choose|w: Seq<int>| #[trigger] self.is_walk(w) && w.last() == j;
                    self.lemma_walk_marked(marks@, w);
                }
            }
        }
        marks
    }

    /// Whether edges and roots all point at packages of the graph.
    pub fn check_wf(&self) -> (r: bool)
        ensures
            r == self.wf(),
    {
        let n = self.packages.len();
        let mut k: usize = 0;
        while k < self.edges.len()
            invariant
                n == self.packages.len(),
                k <= self.edges.len(),
                forall|x: int| 0 <= x < k ==> #[trigger] self.edges[x].from < n && self.edges[x].to < n,
            decreases self.edges.len() - k,
        {
            if self.edges[k].from >= n || self.edges[k].to >= n {
                return false;
            }
            assert(self.edges[k as int].from < n && self.edges[k as int].to < n);
            k = k + 1;
        }
        k = 0;
        while k < self.roots.len()
            invariant
                n == self.packages.len(),
                k <= self.roots.len(),
                forall|x: int| 0 <= x < k ==> #[trigger] self.roots[x] < n,
            decreases self.roots.len() - k,
        {
            if self.roots[k] >= n {
                return false;
            }
            k = k + 1;
        }
        true
    }
}

/// How many of the first `n` marks are unset.
pub open spec fn count_false(m: Seq<bool>, n: int) -> int
    decreases n,
{
    if n <= 0 {
        0
    } else {
        count_false(m, n - 1) + if m[n - 1] { 0int } else { 1int }
    }
}

proof fn lemma_count_false_nonneg(m: Seq<bool>, n: int)
    ensures
        count_false(m, n) >= 0,
    decreases n,
{
    if n > 0 {
        lemma_count_false_nonneg(m, n - 1);
    }
}

proof fn lemma_count_false_set(m: Seq<bool>, j: int, n: int)
    requires
        0 <= j < m.len(),
        !m[j],
        0 <= n <= m.len(),
    ensures
        count_false(m.update(j, true), n) == count_false(m, n) - if j < n { 1int } else { 0int },
    decreases n,
{
    if n > 0 {
        lemma_count_false_set(m, j, n - 1);
    }
}

} // verus!
