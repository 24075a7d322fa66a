use asset_manifest::assemble::{collect, collect_available, AssemblyError, FailurePolicy};
use asset_manifest::asset::{AssetType, TailwindAsset};
use asset_manifest::codec::decode::DecodeError;
use asset_manifest::graph::DependencyGraph;
use asset_manifest::manifest::AssetManifest;
use asset_manifest::package::PackageAssets;
use asset_manifest::walker::{
    cache_lookups, contains_identifier, plan_cache_reads, read_entry,
};

/// A depends on B and C, and both depend on D.
fn diamond() -> DependencyGraph {
    let mut graph = DependencyGraph::new();
    let a = graph.add_package("a".to_string(), "1.0.0".to_string());
    let b = graph.add_package("b".to_string(), "1.0.0".to_string());
    let c = graph.add_package("c".to_string(), "1.0.0".to_string());
    let d = graph.add_package("d".to_string(), "1.0.0".to_string());
    assert!(graph.add_dependency(a, b));
    assert!(graph.add_dependency(a, c));
    assert!(graph.add_dependency(b, d));
    assert!(graph.add_dependency(c, d));
    graph
}

fn group(package: &str, classes: &str) -> PackageAssets {
    PackageAssets::new(
        package.to_string(),
        vec![AssetType::Tailwind(TailwindAsset::new(classes.to_string()))],
    )
}

#[test]
fn the_graph_keeps_what_was_added() {
    let graph = diamond();
    assert_eq!(graph.len(), 4);
    assert_eq!(graph.name(3), "d");
    assert_eq!(graph.version(3), "1.0.0");
    assert_eq!(graph.dependencies(0), &vec![1, 2]);
    assert!(graph.dependencies(3).is_empty());
    assert_eq!(graph.find("c", "1.0.0"), Some(2));
    assert_eq!(graph.find("c", "2.0.0"), None);
    assert_eq!(graph.find("e", "1.0.0"), None);
}

#[test]
fn a_dependency_on_a_missing_package_is_not_added() {
    let mut graph = diamond();
    assert!(!graph.add_dependency(0, 4));
    assert!(!graph.add_dependency(4, 0));
    assert_eq!(graph.dependencies(0), &vec![1, 2]);
}

#[test]
fn the_first_of_two_equal_packages_is_found() {
    let mut graph = DependencyGraph::new();
    graph.add_package("a".to_string(), "1".to_string());
    graph.add_package("b".to_string(), "1".to_string());
    graph.add_package("b".to_string(), "1".to_string());
    assert_eq!(graph.find("b", "1"), Some(1));
}

#[test]
fn the_walk_visits_each_package_once() {
    let graph = diamond();
    // The dependency that was added last is visited first.
    assert_eq!(graph.walk(0), vec![0, 2, 3, 1]);
    assert_eq!(graph.walk(1), vec![1, 3]);
    assert_eq!(graph.walk(3), vec![3]);
}

#[test]
fn the_walk_from_no_package_visits_nothing() {
    assert!(diamond().walk(4).is_empty());
    assert!(DependencyGraph::new().walk(0).is_empty());
}

#[test]
fn the_walk_ends_on_a_cycle() {
    let mut graph = DependencyGraph::new();
    let a = graph.add_package("a".to_string(), "1".to_string());
    let b = graph.add_package("b".to_string(), "1".to_string());
    graph.add_dependency(a, b);
    graph.add_dependency(b, a);
    graph.add_dependency(a, a);
    assert_eq!(graph.walk(a), vec![0, 1]);
    assert_eq!(graph.walk(b), vec![1, 0]);
}

#[test]
fn a_shared_dependency_is_looked_up_once() {
    let graph = diamond();
    let known = vec!["d-1.0.0".to_string(), "unrelated-0.3.0".to_string()];
    let ids = cache_lookups(&graph, 0, None, &known);
    assert_eq!(ids, vec!["d-1.0.0".to_string()]);

    let found: Vec<_> = ids.iter().map(|id| Ok(Some(group(id, "flex")))).collect();
    let manifest = collect(found, FailurePolicy::FailSoft).unwrap();
    assert_eq!(manifest.packages().len(), 1);
    assert_eq!(manifest.packages()[0].package(), "d-1.0.0");
    assert_eq!(manifest.assets().len(), 1);
}

#[test]
fn the_binary_is_part_of_the_root_identifier_only() {
    let mut graph = DependencyGraph::new();
    let a = graph.add_package("a".to_string(), "1".to_string());
    let b = graph.add_package("b".to_string(), "2".to_string());
    graph.add_dependency(a, b);
    let known = vec![
        "a-1".to_string(),
        "a-cli-1".to_string(),
        "b-2".to_string(),
        "b-cli-2".to_string(),
    ];
    assert_eq!(
        cache_lookups(&graph, a, Some("cli"), &known),
        vec!["a-cli-1".to_string(), "b-2".to_string()]
    );
    assert_eq!(
        cache_lookups(&graph, a, None, &known),
        vec!["a-1".to_string(), "b-2".to_string()]
    );
    assert!(cache_lookups(&graph, a, None, &Vec::new()).is_empty());
}

#[test]
fn the_root_is_found_by_name_and_version() {
    let graph = diamond();
    let known = vec!["b-1.0.0".to_string(), "d-1.0.0".to_string(), "a-1.0.0".to_string()];
    assert_eq!(
        plan_cache_reads(&graph, "b", "1.0.0", None, &known),
        Some(vec!["b-1.0.0".to_string(), "d-1.0.0".to_string()])
    );
    assert_eq!(plan_cache_reads(&graph, "b", "9.9.9", None, &known), None);
    assert_eq!(plan_cache_reads(&graph, "zzz", "1.0.0", None, &known), None);
}

#[test]
fn identifiers_are_looked_up_in_the_listing() {
    let known = vec!["a-1".to_string(), "b-2".to_string()];
    assert!(contains_identifier(&known, &"b-2".to_string()));
    assert!(!contains_identifier(&known, &"b".to_string()));
    assert!(!contains_identifier(&Vec::new(), &"".to_string()));
}

#[test]
fn a_failed_source_is_passed_over_or_ends_it() {
    let outcomes = || {
        vec![
            Ok(Some(group("a-1", "flex"))),
            Err(AssemblyError::CacheRead),
            Ok(None),
            Err(AssemblyError::DescriptorDecode(DecodeError { offset: 3 })),
            Ok(Some(group("b-1", "p-4"))),
        ]
    };
    let soft = collect(outcomes(), FailurePolicy::FailSoft).unwrap();
    assert_eq!(
        soft,
        AssetManifest::new(vec![group("a-1", "flex"), group("b-1", "p-4")])
    );
    assert_eq!(
        collect(outcomes(), FailurePolicy::FailFast),
        Err(AssemblyError::CacheRead)
    );
}

#[test]
fn without_failures_both_policies_agree() {
    let outcomes = || vec![Ok(None), Ok(Some(group("a-1", "flex")))];
    let expected = AssetManifest::new(vec![group("a-1", "flex")]);
    assert_eq!(collect(outcomes(), FailurePolicy::FailSoft), Ok(expected));
    assert_eq!(
        collect(outcomes(), FailurePolicy::FailFast),
        Ok(AssetManifest::new(vec![group("a-1", "flex")]))
    );
    assert_eq!(
        collect(Vec::new(), FailurePolicy::FailFast),
        Ok(AssetManifest::default())
    );
}

#[test]
fn a_cache_entry_is_read_or_fails() {
    let package = group("d-1.0.0", "flex");
    assert_eq!(read_entry(None), Ok(None));
    assert_eq!(read_entry(Some(&package.encode())), Ok(Some(group("d-1.0.0", "flex"))));
    assert_eq!(
        read_entry(Some("package = \"d-1.0.0\"")),
        Err(AssemblyError::DescriptorDecode(DecodeError { offset: 0 }))
    );
    assert_eq!(
        read_entry(Some("")),
        Err(AssemblyError::DescriptorDecode(DecodeError { offset: 0 }))
    );
}

#[test]
fn what_did_not_fail_is_collected() {
    let manifest = collect_available(vec![
        Err(AssemblyError::CacheRead),
        read_entry(Some(&group("d-1.0.0", "flex").encode())),
        read_entry(Some("broken")),
        read_entry(None),
    ]);
    assert_eq!(manifest, AssetManifest::new(vec![group("d-1.0.0", "flex")]));
    assert_eq!(collect_available(Vec::new()), AssetManifest::default());
}

#[test]
fn a_file_that_cannot_be_read_ends_a_scan() {
    let outcomes = vec![Ok(None), Err(AssemblyError::Io), Err(AssemblyError::ContainerParse)];
    assert_eq!(
        collect(outcomes, FailurePolicy::FailFast),
        Err(AssemblyError::Io)
    );
}
