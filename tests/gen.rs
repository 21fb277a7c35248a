use gnrt::crates::{StdVendoredCrate, VendoredCrate};
use gnrt::inventory::{build_path, decimal_string, epoch_dir, inventory_entry, parse_epoch_dir, sort_inventory};
use gnrt::graph::{is_path_under, starts_with, str_eq, DepKind, RawEdge, RawGraph, RawPackage};
use gnrt::manifest::{Dependency, DependencySpec, FullDependency, Visibility};
use gnrt::pipeline::{reconcile_and_synthesize, third_party_pipeline, Failure};
use gnrt::reconcile::{reconcile, Finding};
use gnrt::std_deps::{filter_std, std_pipeline, synthesize_std, StdCrateConfig};
use gnrt::synth::{check_one_to_one, synthesize, unlisted_crates};
use gnrt::version::{epoch_from_comparators, epoch_from_req_str, epoch_from_version};
use gnrt::{Comparator, Epoch, GenError, ReqOp, Version};

const VENDOR: &str = "/src/third_party/rust/";

fn v(major: u64, minor: u64, patch: u64) -> Version {
    Version { major, minor, patch }
}

fn pkg(name: &str, version: Version, local: bool) -> RawPackage {
    let dir = if local {
        format!("{VENDOR}{name}/{}", version.major)
    } else {
        format!("/home/.cargo/registry/{name}")
    };
    RawPackage {
        name: name.to_string(),
        version,
        manifest_dir: dir.clone(),
        lib_root: Some(format!("{dir}/src/lib.rs")),
    }
}

fn edge(from: usize, to: usize, kind: DepKind) -> RawEdge {
    RawEdge { from, to, kind }
}

fn vc(name: &str, epoch: Epoch) -> VendoredCrate {
    VendoredCrate { name: name.to_string(), epoch }
}

fn short(req: &str) -> Dependency {
    Dependency::Short(req.to_string())
}

fn spec(runtime: Vec<(&str, Dependency)>, dev: Vec<(&str, Dependency)>) -> DependencySpec {
    DependencySpec {
        dependencies: runtime.into_iter().map(|(n, d)| (n.to_string(), d)).collect(),
        dev_dependencies: dev.into_iter().map(|(n, d)| (n.to_string(), d)).collect(),
        build_dependencies: Vec::new(),
    }
}

#[test]
fn epoch_caret_requirements_share_major() {
    assert_eq!(epoch_from_req_str("^1.2"), Ok(Epoch::Major(1)));
    assert_eq!(epoch_from_req_str("^1.5"), Ok(Epoch::Major(1)));
    assert_eq!(epoch_from_req_str("1.2"), Ok(Epoch::Major(1)));
}

#[test]
fn epoch_zero_major_uses_minor() {
    assert_eq!(epoch_from_req_str("0.3"), Ok(Epoch::Minor(3)));
    assert_eq!(epoch_from_req_str("^0.4"), Ok(Epoch::Minor(4)));
    assert_ne!(epoch_from_req_str("0.3"), epoch_from_req_str("0.4"));
}

#[test]
fn epoch_zero_zero_uses_patch() {
    assert_eq!(epoch_from_req_str("=0.0.7"), Ok(Epoch::Patch(7)));
    assert_eq!(epoch_from_req_str("0.0.2"), Ok(Epoch::Patch(2)));
}

#[test]
fn epoch_tilde_and_wildcard() {
    assert_eq!(epoch_from_req_str("~2.1"), Ok(Epoch::Major(2)));
    assert_eq!(epoch_from_req_str("3.*"), Ok(Epoch::Major(3)));
    assert_eq!(epoch_from_req_str("0.5.*"), Ok(Epoch::Minor(5)));
}

#[test]
fn epoch_rejects_malformed_requirements() {
    let bad = Err(GenError::MalformedVersionRequirement);
    assert_eq!(epoch_from_req_str("*"), bad);
    assert_eq!(epoch_from_req_str(">=1.0"), bad);
    assert_eq!(epoch_from_req_str("not a version"), bad);
    assert_eq!(epoch_from_req_str("0"), bad);
    assert_eq!(epoch_from_req_str("0.0"), bad);
    assert_eq!(epoch_from_req_str("^1.2, <1.8"), bad);
}

#[test]
fn epoch_from_comparators_exact_values() {
    let c = |op, major, minor, patch| Comparator { op, major, minor, patch };
    assert_eq!(epoch_from_comparators(&vec![c(ReqOp::Caret, 4, Some(1), None)]), Ok(Epoch::Major(4)));
    assert_eq!(epoch_from_comparators(&vec![c(ReqOp::Exact, 0, Some(0), Some(9))]), Ok(Epoch::Patch(9)));
    assert_eq!(
        epoch_from_comparators(&vec![c(ReqOp::Other, 1, None, None)]),
        Err(GenError::MalformedVersionRequirement)
    );
    assert_eq!(epoch_from_comparators(&vec![]), Err(GenError::MalformedVersionRequirement));
}

#[test]
fn epoch_of_versions() {
    assert_eq!(epoch_from_version(&v(1, 9, 0)), Epoch::Major(1));
    assert_eq!(epoch_from_version(&v(0, 3, 1)), Epoch::Minor(3));
    assert_eq!(epoch_from_version(&v(0, 0, 4)), Epoch::Patch(4));
}

#[test]
fn string_helpers() {
    assert!(starts_with("/a/b/c", "/a/b"));
    assert!(!starts_with("/a", "/a/b"));
    assert!(str_eq("test", "test"));
    assert!(!str_eq("test", "tests"));
}

#[test]
fn dev_merge_is_idempotent() {
    let mut s = spec(vec![("foo", short("1.2"))], vec![("bar", short("0.3")), ("foo", short("1.5"))]);
    s.merge_dev_dependencies();
    assert!(s.dev_dependencies.is_empty());
    let once: Vec<String> = s.dependencies.iter().map(|(n, _)| n.clone()).collect();
    s.merge_dev_dependencies();
    let twice: Vec<String> = s.dependencies.iter().map(|(n, _)| n.clone()).collect();
    assert_eq!(once, twice);
    assert_eq!(once, vec!["foo", "bar", "foo"]);
}

#[test]
fn declarations_carry_metadata() {
    let full = Dependency::Full(FullDependency {
        version: Some("0.2".to_string()),
        allow_first_party_usage: false,
        build_script_outputs: vec!["gen.rs".to_string()],
        gn_variables_lib: Some("x = 1".to_string()),
    });
    let s = spec(vec![("foo", short("1.2")), ("baz", full)], vec![("bar", short("0.3"))]);
    let metas = s.collect_declarations().unwrap();
    assert_eq!(metas.len(), 3);
    assert_eq!(metas[0].crate_id.name, "bar");
    assert_eq!(metas[0].visibility, Visibility::TestOnlyAndThirdParty);
    assert_eq!(metas[1].crate_id.epoch, Epoch::Major(1));
    assert_eq!(metas[1].visibility, Visibility::Public);
    assert_eq!(metas[2].crate_id.epoch, Epoch::Minor(2));
    assert_eq!(metas[2].visibility, Visibility::ThirdParty);
    assert_eq!(metas[2].build_script_outputs, vec!["gen.rs".to_string()]);
    assert_eq!(metas[2].gn_variables_lib.as_deref(), Some("x = 1"));
}

#[test]
fn declaration_without_version_is_malformed() {
    let full = Dependency::Full(FullDependency {
        version: None,
        allow_first_party_usage: true,
        build_script_outputs: vec![],
        gn_variables_lib: None,
    });
    let s = spec(vec![("foo", full)], vec![]);
    assert_eq!(s.collect_declarations().err(), Some(GenError::MalformedManifest));
    let s = spec(vec![("foo", short(">=2"))], vec![]);
    assert_eq!(s.collect_declarations().err(), Some(GenError::MalformedVersionRequirement));
}

fn root_graph(packages: Vec<RawPackage>, edges: Vec<RawEdge>) -> RawGraph {
    let mut all = vec![RawPackage {
        name: "chromium".to_string(),
        version: v(0, 1, 0),
        manifest_dir: VENDOR.to_string(),
        lib_root: None,
    }];
    all.extend(packages);
    RawGraph { packages: all, edges, roots: vec![0] }
}

#[test]
fn scenario_runtime_and_dev_visibility() {
    let s = spec(vec![("foo", short("1.2"))], vec![("bar", short("0.3"))]);
    let metas = s.collect_declarations().unwrap();
    let inventory = vec![vc("bar", Epoch::Minor(3)), vc("foo", Epoch::Major(1))];
    let g = root_graph(
        vec![pkg("foo", v(1, 2, 0), true), pkg("bar", v(0, 3, 1), true)],
        vec![edge(0, 1, DepKind::Normal), edge(0, 2, DepKind::Dev), edge(2, 1, DepKind::Normal)],
    );
    assert!(g.check_wf());
    let (packages, result) = third_party_pipeline(&g, VENDOR, &inventory, &metas);
    assert_eq!(packages.len(), 2);
    assert!(reconcile(&inventory, &packages).is_empty());
    let ds = result.unwrap();
    assert_eq!(ds.len(), 2);
    assert_eq!(ds[0].target_name, "foo");
    assert_eq!(ds[0].crate_index, 1);
    assert_eq!(ds[0].visibility, Visibility::Public);
    assert_eq!(ds[1].target_name, "bar");
    assert_eq!(ds[1].crate_index, 0);
    assert_eq!(ds[1].visibility, Visibility::TestOnlyAndThirdParty);
    assert_eq!(ds[1].dependency_edges, vec![1]);
    assert!(ds[0].dependency_edges.is_empty());
}

#[test]
fn scenario_unused_vendored_epoch() {
    let inventory = vec![vc("foo", Epoch::Major(1)), vc("foo", Epoch::Major(2))];
    let g = root_graph(vec![pkg("foo", v(1, 4, 0), true)], vec![edge(0, 1, DepKind::Normal)]);
    let packages = g.normalize(VENDOR, false, None);
    assert_eq!(reconcile(&inventory, &packages), vec![Finding::UnusedVendoredUnit { vendored: 1 }]);
}

#[test]
fn scenario_non_local_resolution() {
    let inventory = vec![vc("foo", Epoch::Major(1))];
    let g = root_graph(vec![pkg("foo", v(1, 9, 0), false)], vec![edge(0, 1, DepKind::Normal)]);
    let packages = g.normalize(VENDOR, false, None);
    assert!(!packages[0].is_local);
    assert_eq!(reconcile(&inventory, &packages), vec![Finding::NonLocalResolution { package: 0 }]);
}

#[test]
fn missing_and_colliding_packages_are_all_reported() {
    let inventory = vec![vc("foo", Epoch::Major(1)), vc("old", Epoch::Minor(1))];
    let g = root_graph(
        vec![pkg("foo", v(1, 2, 0), true), pkg("baz", v(0, 2, 0), true), pkg("foo", v(1, 9, 0), true)],
        vec![edge(0, 1, DepKind::Normal), edge(0, 2, DepKind::Normal), edge(2, 3, DepKind::Build)],
    );
    let packages = g.normalize(VENDOR, false, None);
    assert_eq!(
        reconcile(&inventory, &packages),
        vec![
            Finding::EpochCollision { package: 2 },
            Finding::MissingVendoredUnit { package: 1 },
            Finding::UnusedVendoredUnit { vendored: 1 },
        ]
    );
    match reconcile_and_synthesize(&inventory, &packages, &vec![]) {
        Err(Failure::Findings(f)) => assert_eq!(f.len(), 3),
        other => panic!("unexpected {other:?}"),
    }
}

#[test]
fn normalize_unions_kinds_and_filters() {
    let g = root_graph(
        vec![pkg("a", v(1, 0, 0), true), pkg("b", v(2, 0, 0), true)],
        vec![edge(0, 1, DepKind::Dev), edge(0, 1, DepKind::Build), edge(1, 2, DepKind::Normal)],
    );
    let all = g.normalize(VENDOR, true, None);
    assert_eq!(all.len(), 3);
    assert_eq!(all[0].index, 0);
    assert!(all[1].dependency_kinds.dev && all[1].dependency_kinds.build);
    assert!(!all[1].dependency_kinds.normal);
    assert_eq!(all[1].dependencies.len(), 1);
    assert_eq!(all[1].dependencies[0].name, "b");
    assert_eq!(all[2].dependency_path, vec!["a".to_string(), "chromium".to_string()]);
    let normal = g.normalize(VENDOR, false, Some(DepKind::Normal));
    assert_eq!(normal.len(), 1);
    assert_eq!(normal[0].package_name, "b");
}

#[test]
fn synthesis_uses_declared_metadata() {
    let full = Dependency::Full(FullDependency {
        version: Some("1".to_string()),
        allow_first_party_usage: true,
        build_script_outputs: vec!["out.rs".to_string()],
        gn_variables_lib: Some("v".to_string()),
    });
    let metas = spec(vec![("foo", full)], vec![]).collect_declarations().unwrap();
    let inventory = vec![vc("foo", Epoch::Major(1)), vc("dep", Epoch::Minor(1))];
    let g = root_graph(
        vec![pkg("foo", v(1, 0, 3), true), pkg("dep", v(0, 1, 0), true)],
        vec![edge(0, 1, DepKind::Normal), edge(1, 2, DepKind::Normal)],
    );
    let packages = g.normalize(VENDOR, false, None);
    let ds = synthesize(&packages, &inventory, &metas);
    assert_eq!(ds.len(), 2);
    assert_eq!(ds[0].build_script_outputs, vec!["out.rs".to_string()]);
    assert_eq!(ds[0].gn_variables_lib.as_deref(), Some("v"));
    assert_eq!(ds[0].dependency_edges, vec![1]);
    assert_eq!(ds[1].visibility, Visibility::ThirdParty);
    assert!(check_one_to_one(&ds, 2).is_ok());
    assert_eq!(check_one_to_one(&ds, 3), Err(GenError::SynthesisMismatch));
    assert!(unlisted_crates(&ds, 2).is_empty());
    assert_eq!(unlisted_crates(&ds, 4), vec![2, 3]);
}

fn std_graph(third_party_dir: &str) -> RawGraph {
    let src = "/src/rust-src/library/";
    let mk = |name: &str, dir: String, local: bool| RawPackage {
        name: name.to_string(),
        version: v(0, 1, 0),
        manifest_dir: if local { format!("{src}{name}") } else { dir.clone() },
        lib_root: Some(format!("{dir}/src/lib.rs")),
    };
    RawGraph {
        packages: vec![
            mk("test", format!("{src}test"), true),
            mk("core", format!("{src}core"), true),
            mk("libc", third_party_dir.to_string(), false),
            mk("devonly", format!("{src}devonly"), true),
            mk("buildonly", format!("{src}buildonly"), true),
        ],
        edges: vec![
            edge(0, 1, DepKind::Normal),
            edge(1, 2, DepKind::Normal),
            edge(0, 3, DepKind::Dev),
            edge(1, 4, DepKind::Build),
        ],
        roots: vec![0],
    }
}

#[test]
fn std_filtering_keeps_root_and_normal_dependencies() {
    let g = std_graph("/src/rust-src/vendor/libc");
    let packages = g.normalize("/src/rust-src/library/", true, None);
    assert_eq!(filter_std(&packages, "test"), vec![0, 1, 2]);
    let catalog = vec![StdVendoredCrate { name: "libc".to_string(), version: v(0, 1, 0), is_latest: true }];
    let (ps, kept) = std_pipeline(&g, "/src/rust-src/library/", "test", &catalog, "/src/rust-src/").unwrap();
    let names: Vec<&str> = kept.iter().map(|&k| ps[k].package_name.as_str()).collect();
    assert_eq!(names, vec!["core", "libc", "test"]);
}

#[test]
fn std_unvendored_dependency_fails() {
    let g = std_graph("/src/rust-src/vendor/libc");
    let catalog = vec![StdVendoredCrate { name: "libc".to_string(), version: v(0, 2, 0), is_latest: true }];
    assert_eq!(
        std_pipeline(&g, "/src/rust-src/library/", "test", &catalog, "/src/rust-src/").err(),
        Some(GenError::UnvendoredStdDependency { package: 2 })
    );
}

#[test]
fn std_dependency_outside_source_tree_fails() {
    let g = std_graph("/home/.cargo/registry/libc");
    let catalog = vec![StdVendoredCrate { name: "libc".to_string(), version: v(0, 1, 0), is_latest: false }];
    assert_eq!(
        std_pipeline(&g, "/src/rust-src/library/", "test", &catalog, "/src/rust-src/").err(),
        Some(GenError::NonLocalResolution { package: 2 })
    );
}

#[test]
fn version_directories_name_epochs() {
    assert_eq!(parse_epoch_dir("v1"), Some(Epoch::Major(1)));
    assert_eq!(parse_epoch_dir("v12"), Some(Epoch::Major(12)));
    assert_eq!(parse_epoch_dir("v0_3"), Some(Epoch::Minor(3)));
    assert_eq!(parse_epoch_dir("v0_0_5"), Some(Epoch::Patch(5)));
    assert_eq!(parse_epoch_dir("v0"), None);
    assert_eq!(parse_epoch_dir("v0_0"), None);
    assert_eq!(parse_epoch_dir("v01"), None);
    assert_eq!(parse_epoch_dir("crate"), None);
    assert_eq!(parse_epoch_dir("v99999999999999999999"), None);
    let c = inventory_entry("serde", "v1").unwrap();
    assert_eq!(c.name, "serde");
    assert_eq!(c.epoch, Epoch::Major(1));
    assert!(inventory_entry("serde", "src").is_none());
}

#[test]
fn version_directory_names_round_trip() {
    assert_eq!(epoch_dir(Epoch::Major(1)), "v1");
    assert_eq!(epoch_dir(Epoch::Minor(23)), "v0_23");
    assert_eq!(epoch_dir(Epoch::Patch(0)), "v0_0_0");
    assert_eq!(decimal_string(u64::MAX), "18446744073709551615");
    assert_eq!(build_path(&vc("serde", Epoch::Major(1))), "serde/v1");
    for e in [Epoch::Major(7), Epoch::Minor(1), Epoch::Patch(42)] {
        assert_eq!(parse_epoch_dir(&epoch_dir(e)), Some(e));
    }
}

#[test]
fn inventory_sorts_by_name_then_epoch() {
    let sorted = sort_inventory(vec![
        vc("serde", Epoch::Major(1)),
        vc("log", Epoch::Minor(4)),
        vc("serde", Epoch::Minor(9)),
        vc("serde_json", Epoch::Major(1)),
        vc("log", Epoch::Patch(3)),
        vc("ab", Epoch::Major(2)),
    ]);
    let got: Vec<(String, Epoch)> = sorted.into_iter().map(|c| (c.name, c.epoch)).collect();
    let want = vec![
        ("ab".to_string(), Epoch::Major(2)),
        ("log".to_string(), Epoch::Patch(3)),
        ("log".to_string(), Epoch::Minor(4)),
        ("serde".to_string(), Epoch::Minor(9)),
        ("serde".to_string(), Epoch::Major(1)),
        ("serde_json".to_string(), Epoch::Major(1)),
    ];
    assert_eq!(got, want);
    assert!(sort_inventory(vec![]).is_empty());
}

#[test]
fn path_prefix_goes_by_components() {
    assert!(is_path_under("/x/third_party/rust/foo", "/x/third_party/rust"));
    assert!(is_path_under("/x/third_party/rust", "/x/third_party/rust"));
    assert!(is_path_under("/x/third_party/rust/foo", "/x/third_party/rust/"));
    assert!(!is_path_under("/x/third_party/rust-toolchain/lib", "/x/third_party/rust"));
    assert!(!is_path_under("/x/third", "/x/third_party"));
}

#[test]
fn normalize_keeps_only_what_the_roots_reach() {
    let g = RawGraph {
        packages: vec![
            pkg("test", v(0, 1, 0), true),
            pkg("core", v(0, 1, 0), true),
            pkg("a", v(1, 0, 0), true),
            pkg("b", v(1, 0, 0), true),
        ],
        edges: vec![edge(0, 1, DepKind::Normal), edge(2, 3, DepKind::Normal), edge(2, 1, DepKind::Dev)],
        roots: vec![0],
    };
    let ps = g.normalize(VENDOR, true, None);
    let names: Vec<&str> = ps.iter().map(|p| p.package_name.as_str()).collect();
    assert_eq!(names, vec!["test", "core"]);
    assert!(ps[1].dependency_kinds.normal);
    assert!(!ps[1].dependency_kinds.dev);
    assert_eq!(g.reach_marks(), vec![true, true, false, false]);
}

#[test]
fn std_packages_are_ordered_by_name_then_version() {
    let src = "/src/rust-src/library/";
    let mk = |name: &str, version: Version| RawPackage {
        name: name.to_string(),
        version,
        manifest_dir: format!("{src}{name}"),
        lib_root: Some(format!("{src}{name}/src/lib.rs")),
    };
    let g = RawGraph {
        packages: vec![mk("test", v(0, 0, 0)), mk("zeta", v(1, 0, 0)), mk("alpha", v(2, 0, 0)), mk("alpha", v(1, 5, 0))],
        edges: vec![edge(0, 1, DepKind::Normal), edge(0, 2, DepKind::Normal), edge(1, 3, DepKind::Normal)],
        roots: vec![0],
    };
    let (ps, kept) = std_pipeline(&g, src, "test", &vec![], "/src/rust-src/").unwrap();
    let got: Vec<(String, Version)> = kept.iter().map(|&k| (ps[k].package_name.clone(), ps[k].version)).collect();
    assert_eq!(
        got,
        vec![
            ("alpha".to_string(), v(1, 5, 0)),
            ("alpha".to_string(), v(2, 0, 0)),
            ("test".to_string(), v(0, 0, 0)),
            ("zeta".to_string(), v(1, 0, 0)),
        ]
    );
}

#[test]
fn std_rules_carry_held_deps_and_config() {
    let g = std_graph("/src/rust-src/vendor/libc");
    let catalog = vec![StdVendoredCrate { name: "libc".to_string(), version: v(0, 1, 0), is_latest: true }];
    let (ps, kept) = std_pipeline(&g, "/src/rust-src/library/", "test", &catalog, "/src/rust-src/").unwrap();
    let config = vec![StdCrateConfig {
        name: "core".to_string(),
        rustenv: vec!["STD_ENV_ARCH=x86_64".to_string()],
        cfg: vec!["feature=\"x\"".to_string()],
    }];
    let rules = synthesize_std(&ps, &kept, &config);
    assert_eq!(rules.len(), 3);
    assert_eq!(rules[0].crate_name, "core");
    assert_eq!(rules[0].deps, vec![2]);
    assert_eq!(rules[0].rustenv, vec!["STD_ENV_ARCH=x86_64".to_string()]);
    assert_eq!(rules[1].crate_name, "libc");
    assert!(rules[1].deps.is_empty() && rules[1].cfg.is_empty());
    assert_eq!(rules[2].crate_name, "test");
    assert_eq!(rules[2].deps, vec![1]);
}
