use vstd::prelude::*;

use crate::crates::VendoredCrate;
use crate::error::GenError;
use crate::graph::{clone_opt_str, opt_str_view};
use crate::version::{epoch_from_req_str, req_str_epoch, Epoch};

verus! {

/// Who may depend on a vendored crate.
#[derive(Clone, Copy, Debug, PartialEq, Eq, Structural)]
pub enum Visibility {
    Public,
    TestOnlyAndThirdParty,
    ThirdParty,
}

/// A declaration with its metadata spelled out.
#[derive(Debug)]
pub struct FullDependency {
    pub version: Option<String>,
    /// Whether first-party code may use the crate.
    pub allow_first_party_usage: bool,
    /// Files the crate's build script produces.
    pub build_script_outputs: Vec<String>,
    /// An override for the extra build variable of the crate's library.
    pub gn_variables_lib: Option<String>,
}

/// One dependency declaration: a bare version requirement, or a full record.
#[derive(Debug)]
pub enum Dependency {
    Short(String),
    Full(FullDependency),
}

/// The manifest's three groups of declarations, each a list of
/// (name, declaration); where a name occurs twice, the later entry stands.
#[derive(Debug)]
pub struct DependencySpec {
    pub dependencies: Vec<(String, Dependency)>,
    pub dev_dependencies: Vec<(String, Dependency)>,
    pub build_dependencies: Vec<(String, Dependency)>,
}

/// What a group declares, by name: the later of two entries for one name
/// stands.
pub open spec fn group_map(g: Seq<(String, Dependency)>) -> Map<Seq<char>, Dependency>
    decreases g.len(),
{
    if g.len() == 0 {
        Map::empty()
    } else {
        group_map(g.drop_last()).insert(g.last().0@, g.last().1)
    }
}

/// The runtime and dev groups after the dev group is merged into the
/// runtime group: the dev group's declarations win, and the dev group is
/// left empty.
pub open spec fn merge_view(
    groups: (Map<Seq<char>, Dependency>, Map<Seq<char>, Dependency>),
) -> (Map<Seq<char>, Dependency>, Map<Seq<char>, Dependency>) {
    (groups.0.union_prefer_right(groups.1), Map::empty())
}

proof fn lemma_group_map_concat(a: Seq<(String, Dependency)>, b: Seq<(String, Dependency)>)
    ensures
        group_map(a + b) == group_map(a).union_prefer_right(group_map(b)),
    decreases b.len(),
{
    if b.len() == 0 {
        assert(a + b =~= a);
        assert(group_map(a).union_prefer_right(group_map(b)) =~= group_map(a));
    } else {
        lemma_group_map_concat(a, b.drop_last());
        assert((a + b).drop_last() =~= a + b.drop_last());
        assert(group_map(a + b) =~= group_map(a).union_prefer_right(group_map(b)));
    }
}

/// Merging the dev group into the runtime group is idempotent: merging
/// again changes nothing, and so does merging the same dev group again.
pub proof fn lemma_dev_merge_idempotent(
    runtime: Map<Seq<char>, Dependency>,
    dev: Map<Seq<char>, Dependency>,
)
    ensures
        merge_view(merge_view((runtime, dev))) == merge_view((runtime, dev)),
        runtime.union_prefer_right(dev).union_prefer_right(dev) == runtime.union_prefer_right(dev),
{
    assert(runtime.union_prefer_right(dev).union_prefer_right(Map::empty()) =~= runtime.union_prefer_right(dev));
    assert(runtime.union_prefer_right(dev).union_prefer_right(dev) =~= runtime.union_prefer_right(dev));
}

impl DependencySpec {
    /// The runtime and dev groups as maps.
    pub open spec fn groups(&self) -> (Map<Seq<char>, Dependency>, Map<Seq<char>, Dependency>) {
        (group_map(self.dependencies@), group_map(self.dev_dependencies@))
    }

    /// Merges the dev group into the runtime group, since test-only users
    /// build against the same library; the build group is left as it is.
    pub fn merge_dev_dependencies(&mut self)
        ensures
            final(self).groups() == merge_view(old(self).groups()),
            final(self).dev_dependencies@.len() == 0,
            final(self).build_dependencies == old(self).build_dependencies,
    {
        let ghost rt = self.dependencies@;
        let ghost dev = self.dev_dependencies@;
        self.dependencies.append(&mut self.dev_dependencies);
        proof {
            lemma_group_map_concat(rt, dev);
            assert(group_map(self.dev_dependencies@) =~= Map::empty());
        }
    }
}

/// What one declaration contributes downstream: the crate it names, its
/// visibility, its build-script outputs and its extra-variable override.
#[derive(Debug)]
pub struct DeclMeta {
    pub crate_id: VendoredCrate,
    pub visibility: Visibility,
    pub build_script_outputs: Vec<String>,
    pub gn_variables_lib: Option<String>,
}

pub open spec fn strings_view(v: Seq<String>) -> Seq<Seq<char>> {
    v.map_values(|s: String| s@)
}

/// The requirement string of a declaration, if it has one.
pub open spec fn dep_req(d: Dependency) -> Option<Seq<char>> {
    match d {
        Dependency::Short(s) => Some(s@),
        Dependency::Full(f) => opt_str_view(f.version),
    }
}

/// Whether a declaration lets first-party code use the crate; a bare
/// requirement does.
pub open spec fn dep_public(d: Dependency) -> bool {
    match d {
        Dependency::Short(_) => true,
        Dependency::Full(f) => f.allow_first_party_usage,
    }
}

pub open spec fn dep_outputs(d: Dependency) -> Seq<Seq<char>> {
    match d {
        Dependency::Short(_) => seq![],
        Dependency::Full(f) => strings_view(f.build_script_outputs@),
    }
}

pub open spec fn dep_gn_variables(d: Dependency) -> Option<Seq<char>> {
    match d {
        Dependency::Short(_) => None,
        Dependency::Full(f) => opt_str_view(f.gn_variables_lib),
    }
}

/// The visibility a declaration gives in a group: the group's own where
/// first-party code may use the crate, else third-party only.
pub open spec fn decl_visibility(d: Dependency, group: Visibility) -> Visibility {
    if dep_public(d) {
        group
    } else {
        Visibility::ThirdParty
    }
}

/// The epoch a declaration names, or why it names none.
pub open spec fn decl_epoch(d: Dependency) -> Result<Epoch, GenError> {
    match dep_req(d) {
        None => Err(GenError::MalformedManifest),
        Some(s) => match req_str_epoch(s) {
            None => Err(GenError::MalformedVersionRequirement),
            Some(e) => Ok(e),
        },
    }
}

/// `m` is what declaration `d` of crate `name` in a group contributes.
pub open spec fn meta_of(m: DeclMeta, name: Seq<char>, d: Dependency, group: Visibility) -> bool {
    &&& decl_epoch(d) == Ok::<Epoch, GenError>(m.crate_id.epoch)
    &&& m.crate_id.name@ == name
    &&& m.visibility == decl_visibility(d, group)
    &&& strings_view(m.build_script_outputs@) == dep_outputs(d)
    &&& opt_str_view(m.gn_variables_lib) == dep_gn_variables(d)
}

pub(crate) fn clone_strings(v: &Vec<String>) -> (r: Vec<String>)
    ensures
        strings_view(r@) == strings_view(v@),
{
    let mut r: Vec<String> = Vec::new();
    let mut i: usize = 0;
    while i < v.len()
        invariant
            i <= v.len(),
            strings_view(r@) == strings_view(v@.subrange(0, i as int)),
        decreases v.len() - i,
    {
        let ghost before = r@;
        r.push(v[i].clone());
        assert(strings_view(r@) =~= strings_view(before).push(v@[i as int]@));
        assert(v@.subrange(0, i + 1) =~= v@.subrange(0, i as int).push(v@[i as int]));
        assert(strings_view(v@.subrange(0, i + 1)) =~= strings_view(v@.subrange(0, i as int)).push(v@[i as int]@));
        i = i + 1;
    }
    assert(v@.subrange(0, v.len() as int) =~= v@);
    r
}

/// The metadata of one declaration of crate `name` in a group of the given
/// visibility.
pub fn declaration_meta(name: &String, d: &Dependency, group: Visibility) -> (r: Result<
    DeclMeta,
    GenError,
>)
    ensures
        match r {
            Ok(m) => meta_of(m, name@, *d, group),
            Err(e) => decl_epoch(*d) == Err::<Epoch, GenError>(e),
        },
{
    let req: &String = match d {
        Dependency::Short(s) => s,
        Dependency::Full(f) => match &f.version {
            Some(v) => v,
            None => { return Err(GenError::MalformedManifest); },
        },
    };
    let epoch = match epoch_from_req_str(req.as_str()) {
        Ok(e) => e,
        Err(e) => { return Err(e); },
    };
    let crate_id = VendoredCrate { name: name.clone(), epoch };
    proof {
        assert(strings_view(Seq::<String>::empty()) =~= seq![]);
    }
    match d {
        Dependency::Short(_) => Ok(
            DeclMeta {
                crate_id,
                visibility: group,
                build_script_outputs: Vec::new(),
                gn_variables_lib: None,
            },
        ),
        Dependency::Full(f) => {
            let outputs = clone_strings(&f.build_script_outputs);
            Ok(
                DeclMeta {
                    crate_id,
                    visibility: if f.allow_first_party_usage {
                        group
                    } else {
                        Visibility::ThirdParty
                    },
                    build_script_outputs: outputs,
                    gn_variables_lib: clone_opt_str(&f.gn_variables_lib),
                },
            )
        },
    }
}

impl DependencySpec {
    /// The `i`-th declaration in walking order, the dev group first and then
    /// the runtime group, with the visibility of its group.
    pub open spec fn decl_at(&self, i: int) -> (Seq<char>, Dependency, Visibility) {
        let nd = self.dev_dependencies.len() as int;
        if i < nd {
            (self.dev_dependencies[i].0@, self.dev_dependencies[i].1, Visibility::TestOnlyAndThirdParty)
        } else {
            (self.dependencies[i - nd].0@, self.dependencies[i - nd].1, Visibility::Public)
        }
    }

    pub open spec fn n_decls(&self) -> int {
        self.dev_dependencies.len() + self.dependencies.len()
    }

    /// The metadata of every declaration of the dev and runtime groups, in
    /// walking order (dev group first), so that for a crate declared in both
    /// the runtime declaration comes last. The build group is not read.
    pub fn collect_declarations(&self) -> (r: Result<Vec<DeclMeta>, GenError>)
        requires
            self.n_decls() <= usize::MAX,
        ensures
            r is Ok <==> forall|i: int| 0 <= i < self.n_decls() ==> (#[trigger] decl_epoch(self.decl_at(i).1)) is Ok,
            match r {
                Ok(v) => v.len() == self.n_decls() && forall|i: int|
                    0 <= i < v.len() ==> meta_of(
                        #[trigger] v[i],
                        self.decl_at(i).0,
                        self.decl_at(i).1,
                        self.decl_at(i).2,
                    ),
                Err(e) => exists|i: int|
                    0 <= i < self.n_decls() && #[trigger] decl_epoch(self.decl_at(i).1) == Err::<
                        Epoch,
                        GenError,
                    >(e),
            },
    {
        let mut out: Vec<DeclMeta> = Vec::new();
        let nd = self.dev_dependencies.len();
        let mut i: usize = 0;
        while i < self.n_decls_exec()
            invariant
                nd == self.dev_dependencies.len(),
                self.n_decls() <= usize::MAX,
                i <= self.n_decls(),
                out.len() == i,
                forall|k: int|
                    0 <= k < i ==> meta_of(
                        #[trigger] out[k],
                        self.decl_at(k).0,
                        self.decl_at(k).1,
                        self.decl_at(k).2,
                    ),
            decreases self.n_decls() - i,
        {
            let m = if i < nd {
                let entry = &self.dev_dependencies[i];
                declaration_meta(&entry.0, &entry.1, Visibility::TestOnlyAndThirdParty)
            } else {
                let entry = &self.dependencies[i - nd];
                declaration_meta(&entry.0, &entry.1, Visibility::Public)
            };
            match m {
                Ok(m) => { out.push(m); },
                Err(e) => {
                    assert(decl_epoch(self.decl_at(i as int).1) == Err::<Epoch, GenError>(e));
                    return Err(e);
                },
            }
            i = i + 1;
        }
        proof {
            assert forall|k: int| 0 <= k < self.n_decls() implies (#[trigger] decl_epoch(self.decl_at(k).1)) is Ok by {
                assert(meta_of(out[k], self.decl_at(k).0, self.decl_at(k).1, self.decl_at(k).2));
            }
        }
        Ok(out)
    }

    fn n_decls_exec(&self) -> (r: usize)
        requires
            self.n_decls() <= usize::MAX,
        ensures
            r == self.n_decls(),
    {
        self.dev_dependencies.len() + self.dependencies.len()
    }
}

} // verus!
