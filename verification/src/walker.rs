//! The dependency-graph strategy: which cache entries are to be read.
//!
//! The names of the entries that the cache holds are listed once, before the
//! walk. A package whose identifier is not among them is passed over without
//! a look at the cache; for the others the identifier is handed back, in the
//! order of the walk, so that the entry can be read.

use crate::assemble::{AssemblyError, Outcome};
use crate::cache::{identifier, opt_view, package_identifier};
use crate::codec::grammar::{dec_package, package_records_len};
use crate::codec::decode::DecodeError;
use crate::package::{PackageAssets, PackageView};
use crate::graph::DependencyGraph;
use vstd::prelude::*;

verus! {

/// The views of a list of strings.
pub open spec fn string_views(strings: Seq<String>) -> Seq<Seq<char>> {
    strings.map_values(|s: String| s@)
}

/// Whether `id` is one of `known`.
pub open spec fn is_known(known: Seq<String>, id: Seq<char>) -> bool {
    exists|i: int| 0 <= i < known.len() && (#[trigger] known[i])@ == id
}

/// The identifier under which the cache keeps package `node`. The name of
/// the binary is part of it for the root package only.
pub open spec fn node_identifier(
    graph: DependencyGraph,
    root: usize,
    bin: Option<Seq<char>>,
    node: usize,
) -> Seq<char> {
    identifier(
        graph.spec_name(node as int),
        if node == root {
            bin
        } else {
            None
        },
        graph.spec_version(node as int),
    )
}

/// The identifiers of those packages of `order` that the cache knows, in
/// the order of `order`.
pub open spec fn lookups(
    graph: DependencyGraph,
    root: usize,
    bin: Option<Seq<char>>,
    known: Seq<String>,
    order: Seq<usize>,
) -> Seq<Seq<char>>
    decreases order.len(),
{
    if order.len() == 0 {
        Seq::empty()
    } else {
        let front = lookups(graph, root, bin, known, order.drop_last());
        let id = node_identifier(graph, root, bin, order.last());
        if is_known(known, id) {
            front.push(id)
        } else {
            front
        }
    }
}

/// Whether `id` is one of `known`.
pub fn contains_identifier(known: &Vec<String>, id: &String) -> (out: bool)
    ensures
        out == is_known(known@, id@),
{
    let mut i: usize = 0;
    while i < known.len()
        invariant
            i <= known.len(),
            forall|k: int| 0 <= k < i ==> (#[trigger] known@[k])@ != id@,
        decreases known.len() - i,
    {
        let same = known[i] == *id;
        if same {
            return true;
        }
        i += 1;
    }
    false
}

/// The identifiers of the cache entries that are to be read for the build
/// of package `root`: those of `root` and of its direct and indirect
/// dependencies that are among `known`, each package once, in the order of
/// the walk. `bin` is the binary that was selected, where one was.
pub fn cache_lookups(
    graph: &DependencyGraph,
    root: usize,
    bin: Option<&str>,
    known: &Vec<String>,
) -> (out: Vec<String>)
    ensures
        string_views(out@) == lookups(*graph, root, opt_view(bin), known@, graph.walk_order(root)),
{
    let order = graph.walk(root);
    let mut out: Vec<String> = Vec::new();
    let mut i: usize = 0;
    assert(order@.take(0) =~= Seq::<usize>::empty());
    assert(string_views(out@) =~= Seq::<Seq<char>>::empty());
    while i < order.len()
        invariant
            i <= order.len(),
            order@ == graph.walk_order(root),
            forall|node: usize|
                order@.contains(node) <==> root < graph.spec_len() && graph.reachable(root, node),
            string_views(out@) == lookups(
                *graph,
                root,
                opt_view(bin),
                known@,
                order@.take(i as int),
            ),
        decreases order.len() - i,
    {
        let node = order[i];
        proof {
            assert(order@.contains(node));
            let path = choose|path: Seq<usize>|
                #[trigger] graph.is_path(path) && path[0] == root && path.last() == node;
            assert(path[path.len() - 1] < graph.spec_len());
            assert(order@.take(i + 1).drop_last() =~= order@.take(i as int));
            assert(order@.take(i + 1).last() == node);
        }
        let id = if node == root {
            package_identifier(graph.name(node), bin, graph.version(node))
        } else {
            package_identifier(graph.name(node), None, graph.version(node))
        };
        if contains_identifier(known, &id) {
            let ghost before = out@;
            out.push(id);
            assert(string_views(out@) =~= string_views(before).push(id@));
        }
        i += 1;
    }
    assert(order@.take(i as int) =~= order@);
    out
}

/// As [`cache_lookups`], for the root package of the given name and
/// version. `None` where the graph holds no such package: nothing is to be
/// read then, and the manifest of the build is empty.
pub fn plan_cache_reads(
    graph: &DependencyGraph,
    root_name: &str,
    root_version: &str,
    bin: Option<&str>,
    known: &Vec<String>,
) -> (out: Option<Vec<String>>)
    ensures
        match (graph.spec_find(root_name@, root_version@), out) {
            (Some(root), Some(ids)) => string_views(ids@) == lookups(
                *graph,
                root,
                opt_view(bin),
                known@,
                graph.walk_order(root),
            ),
            (None, None) => true,
            _ => false,
        },
{
    match graph.find(root_name, root_version) {
        Some(root) => Some(cache_lookups(graph, root, bin, known)),
        None => None,
    }
}

/// What a cache entry gives to the manifest: nothing where the package has
/// no entry; the package's descriptors where `contents` is the text of a
/// package; a failure where it is not.
pub open spec fn entry_outcome(contents: Option<Seq<char>>) -> Result<
    Option<PackageView>,
    AssemblyError,
> {
    match contents {
        None => Ok(None),
        Some(text) => match dec_package(text) {
            Some((package, assets)) => Ok(Some(PackageView { package, assets })),
            None => Err(
                AssemblyError::DescriptorDecode(
                    DecodeError { offset: package_records_len(text) as usize },
                ),
            ),
        },
    }
}

/// What a cache entry gives to the manifest. `contents` is the text of the
/// entry's file, or `None` where there is no such file.
pub fn read_entry(contents: Option<&str>) -> (out: Outcome)
    ensures
        match (out, entry_outcome(opt_view(contents))) {
            (Ok(Some(group)), Ok(Some(expected))) => group@ == expected,
            (Ok(None), Ok(None)) => true,
            (Err(e), Err(expected)) => e == expected,
            _ => false,
        },
{
    match contents {
        None => Ok(None),
        Some(text) => match PackageAssets::decode(text) {
            Ok(package) => Ok(Some(package)),
            Err(e) => Err(AssemblyError::DescriptorDecode(e)),
        },
    }
}

} // verus!
