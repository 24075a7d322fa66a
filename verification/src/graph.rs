//! The resolved dependency graph of a build, and the walk over it.
//!
//! The walk starts at the root package and follows "depends on" edges. It
//! keeps a set of visited packages, so a package that is reached over
//! several paths is visited once.

use vstd::prelude::*;

verus! {

/// One package of the graph.
pub struct PackageNode {
    name: String,
    version: String,
    dependencies: Vec<usize>,
}

/// A resolved dependency graph: packages, and for each package the packages
/// it depends on.
///
/// Packages are numbered in the order in which they were added.
pub struct DependencyGraph {
    nodes: Vec<PackageNode>,
}

/// How many entries of `visited` are `false`.
pub open spec fn count_false(visited: Seq<bool>) -> nat
    decreases visited.len(),
{
    if visited.len() == 0 {
        0
    } else {
        count_false(visited.drop_last()) + if visited.last() {
            0nat
        } else {
            1nat
        }
    }
}

/// Marking an unmarked entry leaves one unmarked entry fewer.
pub proof fn lemma_count_update(visited: Seq<bool>, i: int)
    requires
        0 <= i < visited.len(),
        !visited[i],
    ensures
        count_false(visited.update(i, true)) + 1 == count_false(visited),
    decreases visited.len(),
{
    let marked = visited.update(i, true);
    if i == visited.len() - 1 {
        assert(marked.drop_last() =~= visited.drop_last());
    } else {
        lemma_count_update(visited.drop_last(), i);
        assert(marked.drop_last() =~= visited.drop_last().update(i, true));
    }
}

/// Those of `dependencies` that are not marked in `visited`, in order.
pub open spec fn pending(dependencies: Seq<usize>, visited: Seq<bool>) -> Seq<usize>
    decreases dependencies.len(),
{
    if dependencies.len() == 0 {
        Seq::empty()
    } else {
        let front = pending(dependencies.drop_last(), visited);
        let last = dependencies.last();
        if last < visited.len() && !visited[last as int] {
            front.push(last)
        } else {
            front
        }
    }
}

impl DependencyGraph {
    /// The number of packages.
    pub closed spec fn spec_len(&self) -> nat {
        self.nodes@.len()
    }

    /// The name of package `i`.
    pub closed spec fn spec_name(&self, i: int) -> Seq<char> {
        self.nodes@[i].name@
    }

    /// The version of package `i`.
    pub closed spec fn spec_version(&self, i: int) -> Seq<char> {
        self.nodes@[i].version@
    }

    /// The packages that package `i` depends on, in the order in which the
    /// dependencies were added.
    pub closed spec fn spec_dependencies(&self, i: int) -> Seq<usize> {
        self.nodes@[i].dependencies@
    }

    /// Whether package `from` depends on package `to`.
    pub open spec fn has_edge(&self, from: usize, to: usize) -> bool {
        from < self.spec_len() && self.spec_dependencies(from as int).contains(to)
    }

    /// Whether `path` leads from package to package along dependencies.
    pub open spec fn is_path(&self, path: Seq<usize>) -> bool {
        &&& path.len() > 0
        &&& forall|i: int| 0 <= i < path.len() ==> #[trigger] path[i] < self.spec_len()
        &&& forall|i: int|
            0 <= i < path.len() - 1 ==> self.has_edge(#[trigger] path[i], path[i + 1])
    }

    /// Whether `node` is `root` or a direct or indirect dependency of it.
    pub open spec fn reachable(&self, root: usize, node: usize) -> bool {
        exists|path: Seq<usize>|
            #[trigger] self.is_path(path) && path[0] == root && path.last() == node
    }

    /// The order in which packages are visited from a work stack and a set
    /// of visited packages: the top of the stack is taken off; where it was
    /// visited before, it is passed over; else it is visited, and those of
    /// its dependencies that were not visited are put on the stack.
    pub open spec fn visit_order(&self, stack: Seq<usize>, visited: Seq<bool>) -> Seq<usize>
        decreases count_false(visited), stack.len(),
    {
        if stack.len() == 0 {
            Seq::empty()
        } else {
            let node = stack.last();
            let rest = stack.drop_last();
            if node < visited.len() && node < self.spec_len() && !visited[node as int] {
                let marked = visited.update(node as int, true);
                proof {
                    lemma_count_update(visited, node as int);
                }
                seq![node] + self.visit_order(
                    rest + pending(self.spec_dependencies(node as int), marked),
                    marked,
                )
            } else {
                self.visit_order(rest, visited)
            }
        }
    }

    /// The order in which the walk from `root` visits packages.
    pub open spec fn walk_order(&self, root: usize) -> Seq<usize> {
        self.visit_order(seq![root], Seq::new(self.spec_len(), |i: int| false))
    }

    /// A graph without packages.
    pub fn new() -> (out: Self)
        ensures
            out.spec_len() == 0,
    {
        DependencyGraph { nodes: Vec::new() }
    }

    /// Adds a package without dependencies and returns its number.
    pub fn add_package(&mut self, name: String, version: String) -> (index: usize)
        ensures
            index == old(self).spec_len(),
            final(self).spec_len() == old(self).spec_len() + 1,
            final(self).spec_name(index as int) == name@,
            final(self).spec_version(index as int) == version@,
            final(self).spec_dependencies(index as int) == Seq::<usize>::empty(),
            forall|i: int|
                0 <= i < old(self).spec_len() ==> final(self).spec_name(i) == old(self).spec_name(i)
                    && final(self).spec_version(i) == old(self).spec_version(i)
                    && final(self).spec_dependencies(i) == old(self).spec_dependencies(i),
    {
        let index = self.nodes.len();
        self.nodes.push(PackageNode { name, version, dependencies: Vec::new() });
        index
    }

    /// Says that package `from` depends on package `to`. Nothing changes and
    /// `false` is returned where one of the two is no package of the graph.
    pub fn add_dependency(&mut self, from: usize, to: usize) -> (added: bool)
        ensures
            added == (from < old(self).spec_len() && to < old(self).spec_len()),
            final(self).spec_len() == old(self).spec_len(),
            forall|i: int|
                0 <= i < old(self).spec_len() ==> final(self).spec_name(i) == old(self).spec_name(i)
                    && final(self).spec_version(i) == old(self).spec_version(i),
            forall|i: int|
                0 <= i < old(self).spec_len() && !(added && i == from)
                    ==> final(self).spec_dependencies(i) == old(self).spec_dependencies(i),
            added ==> final(self).spec_dependencies(from as int) == old(self).spec_dependencies(
                from as int,
            ).push(to),
    {
        if from >= self.nodes.len() || to >= self.nodes.len() {
            return false;
        }
        let ghost before = self.nodes@;
        let mut node = self.nodes.remove(from);
        node.dependencies.push(to);
        self.nodes.insert(from, node);
        proof {
            assert(self.nodes@.len() == before.len());
            assert forall|i: int| 0 <= i < before.len() && i != from implies self.nodes@[i]
                == before[i] by {}
        }
        true
    }

    /// The number of packages.
    pub fn len(&self) -> (out: usize)
        ensures
            out == self.spec_len(),
    {
        self.nodes.len()
    }

    /// The name of package `index`.
    pub fn name(&self, index: usize) -> (out: &str)
        requires
            index < self.spec_len(),
        ensures
            out@ == self.spec_name(index as int),
    {
        self.nodes[index].name.as_str()
    }

    /// The version of package `index`.
    pub fn version(&self, index: usize) -> (out: &str)
        requires
            index < self.spec_len(),
        ensures
            out@ == self.spec_version(index as int),
    {
        self.nodes[index].version.as_str()
    }

    /// The packages that package `index` depends on.
    pub fn dependencies(&self, index: usize) -> (out: &Vec<usize>)
        requires
            index < self.spec_len(),
        ensures
            out@ == self.spec_dependencies(index as int),
    {
        &self.nodes[index].dependencies
    }

    /// Whether package `i` has the given name and version.
    pub open spec fn is_package(&self, i: int, name: Seq<char>, version: Seq<char>) -> bool {
        0 <= i < self.spec_len() && self.spec_name(i) == name && self.spec_version(i) == version
    }

    /// The first package with the given name and version.
    pub open spec fn spec_find(&self, name: Seq<char>, version: Seq<char>) -> Option<usize> {
        if exists|i: int| self.is_package(i, name, version) {
            let first = choose|i: int|
                self.is_package(i, name, version) && forall|k: int|
                    0 <= k < i ==> !self.is_package(k, name, version);
            Some(first as usize)
        } else {
            None
        }
    }

    /// The first package with the given name and version.
    pub fn find(&self, name: &str, version: &str) -> (found: Option<usize>)
        ensures
            found == self.spec_find(name@, version@),
            match found {
                Some(index) => self.is_package(index as int, name@, version@) && forall|i: int|
                    0 <= i < index ==> !self.is_package(i, name@, version@),
                None => forall|i: int| !self.is_package(i, name@, version@),
            },
    {
        let wanted_name = name.to_owned();
        let wanted_version = version.to_owned();
        let mut i: usize = 0;
        while i < self.nodes.len()
            invariant
                i <= self.nodes.len(),
                wanted_name@ == name@,
                wanted_version@ == version@,
                forall|k: int| 0 <= k < i ==> !self.is_package(k, name@, version@),
            decreases self.nodes.len() - i,
        {
            let same_name = self.nodes[i].name == wanted_name;
            let same_version = self.nodes[i].version == wanted_version;
            if same_name && same_version {
                proof {
                    assert(self.is_package(i as int, name@, version@));
                    let first = choose|f: int|
                        self.is_package(f, name@, version@) && forall|k: int|
                            0 <= k < f ==> !self.is_package(k, name@, version@);
                    assert(first == i) by {
                        if first < i {
                            assert(!self.is_package(first, name@, version@));
                        } else if first > i {
                            assert(!self.is_package(i as int, name@, version@));
                        }
                    }
                }
                return Some(i);
            }
            i += 1;
        }
        None
    }

    /// What holds of the work stack, the visited set and the order while the
    /// walk from `root` goes on.
    spec fn walking(
        &self,
        root: usize,
        stack: Seq<usize>,
        visited: Seq<bool>,
        order: Seq<usize>,
    ) -> bool {
        &&& root < self.nodes@.len()
        &&& visited.len() == self.nodes@.len()
        &&& forall|k: int|
            0 <= k < stack.len() ==> #[trigger] stack[k] < self.nodes@.len() && self.reachable(
                root,
                stack[k],
            )
        &&& forall|k: int|
            0 <= k < order.len() ==> #[trigger] order[k] < self.nodes@.len()
                && visited[order[k] as int] && self.reachable(root, order[k])
        &&& forall|v: int|
            0 <= v < visited.len() && #[trigger] visited[v] ==> order.contains(v as usize)
        &&& order.no_duplicates()
        &&& order.len() == 0 ==> stack == seq![root]
        &&& order.len() > 0 ==> order[0] == root
        &&& visited[root as int] || stack.contains(root)
    }

    /// Whether every dependency of a visited package is visited or on the
    /// stack; of the package `current`, only the first `done` dependencies
    /// are asked for.
    spec fn closed_but(
        &self,
        stack: Seq<usize>,
        visited: Seq<bool>,
        current: int,
        done: int,
    ) -> bool {
        forall|v: int, j: int|
            0 <= v < self.nodes@.len() && visited[v] && 0 <= j < self.nodes@[v].dependencies@.len()
                && (v != current || j < done) ==> {
                let d = #[trigger] self.nodes@[v].dependencies@[j];
                d < visited.len() ==> visited[d as int] || stack.contains(d)
            }
    }

    /// The root is reachable from itself.
    proof fn lemma_reach_root(&self, root: usize)
        requires
            root < self.spec_len(),
        ensures
            self.reachable(root, root),
    {
        let path = seq![root];
        assert(self.is_path(path));
        assert(path[0] == root && path.last() == root);
    }

    /// What a reachable package depends on is reachable.
    proof fn lemma_reach_step(&self, root: usize, node: usize, next: usize)
        requires
            self.reachable(root, node),
            self.has_edge(node, next),
            next < self.spec_len(),
        ensures
            self.reachable(root, next),
    {
        let path = choose|path: Seq<usize>|
            #[trigger] self.is_path(path) && path[0] == root && path.last() == node;
        let longer = path.push(next);
        assert forall|i: int| 0 <= i < longer.len() - 1 implies self.has_edge(
            #[trigger] longer[i],
            longer[i + 1],
        ) by {
            if i < path.len() - 1 {
                assert(self.has_edge(path[i], path[i + 1]));
            }
        }
        assert(self.is_path(longer));
        assert(longer[0] == root && longer.last() == next);
    }

    /// A set of packages that holds the first package of a path, and with
    /// each package all that it depends on, holds every package of the path.
    proof fn lemma_closed_holds_path(&self, visited: Seq<bool>, path: Seq<usize>, k: int)
        requires
            self.is_path(path),
            visited.len() == self.nodes@.len(),
            visited[path[0] as int],
            self.closed_but(Seq::empty(), visited, -1, 0),
            0 <= k < path.len(),
        ensures
            visited[path[k] as int],
        decreases k,
    {
        if k > 0 {
            self.lemma_closed_holds_path(visited, path, k - 1);
            let v = path[k - 1];
            assert(self.has_edge(path[k - 1], path[k - 1 + 1]));
            let deps = self.nodes@[v as int].dependencies@;
            let j = choose|j: int| 0 <= j < deps.len() && deps[j] == path[k];
            assert(deps[j] == path[k]);
        }
    }

    /// The packages that the walk from `root` visits, in the order in which
    /// it visits them.
    ///
    /// The walk visits `root` first, and then every direct or indirect
    /// dependency of it: each of them once, however many paths lead to it,
    /// and no other package. Where `root` is no package of the graph,
    /// nothing is visited.
    #[verifier::rlimit(40)]
    pub fn walk(&self, root: usize) -> (order: Vec<usize>)
        ensures
            order@ == self.walk_order(root),
            order@.no_duplicates(),
            forall|node: usize|
                order@.contains(node) <==> root < self.spec_len() && self.reachable(root, node),
            root < self.spec_len() ==> order@.len() > 0 && order@[0] == root,
    {
        let n = self.nodes.len();
        let mut order: Vec<usize> = Vec::new();
        let mut visited: Vec<bool> = Vec::new();
        while visited.len() < n
            invariant
                visited.len() <= n,
                forall|i: int| 0 <= i < visited.len() ==> !#[trigger] visited@[i],
            decreases n - visited.len(),
        {
            visited.push(false);
        }
        assert(visited@ =~= Seq::new(self.spec_len(), |i: int| false));
        let mut stack: Vec<usize> = Vec::new();
        stack.push(root);
        assert(stack@ =~= seq![root]);
        if root >= n {
            assert(stack@.drop_last() =~= Seq::<usize>::empty());
            assert(self.visit_order(Seq::empty(), visited@) =~= Seq::<usize>::empty());
            return order;
        }
        proof {
            self.lemma_reach_root(root);
            assert(order@ + self.visit_order(stack@, visited@) =~= self.walk_order(root));
            assert(stack@[0] == root);
        }
        while stack.len() > 0
            invariant
                n == self.nodes@.len(),
                self.walking(root, stack@, visited@, order@),
                self.closed_but(stack@, visited@, -1, 0),
                self.walk_order(root) == order@ + self.visit_order(stack@, visited@),
            decreases count_false(visited@), stack@.len(),
        {
            let ghost stack0 = stack@;
            let ghost visited0 = visited@;
            let ghost order0 = order@;
            let node = stack.pop().unwrap();
            let ghost rest = stack@;
            assert(rest =~= stack0.drop_last());
            assert(node == stack0[stack0.len() - 1]);
            assert(forall|k: int| 0 <= k < rest.len() ==> rest[k] == stack0[k]);
            if visited[node] {
                proof {
                    assert forall|v: int, j: int|
                        0 <= v < self.nodes@.len() && visited0[v] && 0 <= j
                            < self.nodes@[v].dependencies@.len() implies {
                        let d = #[trigger] self.nodes@[v].dependencies@[j];
                        d < visited0.len() ==> visited0[d as int] || rest.contains(d)
                    } by {
                        let d = self.nodes@[v].dependencies@[j];
                        if d < visited0.len() && !visited0[d as int] {
                            let k = choose|k: int| 0 <= k < stack0.len() && stack0[k] == d;
                            assert(k < rest.len());
                            assert(rest[k] == d);
                        }
                    }
                    if !visited0[root as int] {
                        let k = choose|k: int| 0 <= k < stack0.len() && stack0[k] == root;
                        assert(rest[k] == root);
                    }
                    assert(order0.contains(node));
                }
            } else {
                visited.set(node, true);
                order.push(node);
                let ghost marked = visited@;
                let ghost deps = self.nodes@[node as int].dependencies@;
                proof {
                    lemma_count_update(visited0, node as int);
                    assert(marked =~= visited0.update(node as int, true));
                    assert(pending(deps.take(0), marked) =~= Seq::<usize>::empty());
                    assert(rest + pending(deps.take(0), marked) =~= rest);
                    // The order stays without duplicates.
                    assert forall|a: int, b: int|
                        0 <= a < order@.len() && 0 <= b < order@.len() && a != b implies order@[a]
                        != order@[b] by {
                        if a == order0.len() {
                            assert(visited0[order0[b] as int]);
                        } else if b == order0.len() {
                            assert(visited0[order0[a] as int]);
                        }
                    }
                    assert forall|v: int| 0 <= v < marked.len() && #[trigger] marked[v] implies order@.contains(
                        v as usize,
                    ) by {
                        if v == node {
                            assert(order@[order0.len() as int] == node);
                        } else {
                            assert(visited0[v]);
                            let k = choose|k: int| 0 <= k < order0.len() && order0[k] == v as usize;
                            assert(order@[k] == v as usize);
                        }
                    }
                    assert(order@[0] == root) by {
                        if order0.len() == 0 {
                            assert(stack0 == seq![root]);
                        } else {
                            assert(order@[0] == order0[0]);
                        }
                    }
                }
                let dependencies = &self.nodes[node].dependencies;
                let mut j: usize = 0;
                while j < dependencies.len()
                    invariant
                        n == self.nodes@.len(),
                                node < n,
                        root < n,
                        j <= dependencies@.len(),
                        dependencies@ == deps,
                        deps == self.nodes@[node as int].dependencies@,
                        visited@ == marked,
                        marked.len() == n,
                        marked[node as int],
                        self.reachable(root, node),
                        stack@ == rest + pending(deps.take(j as int), marked),
                        forall|k: int|
                            0 <= k < stack@.len() ==> #[trigger] stack@[k] < n && self.reachable(
                                root,
                                stack@[k],
                            ),
                        forall|k: int|
                            0 <= k < j && #[trigger] deps[k] < n ==> marked[deps[k] as int]
                                || stack@.contains(deps[k]),
                    decreases dependencies.len() - j,
                {
                    let dependency = dependencies[j];
                    let ghost stack1 = stack@;
                    proof {
                        assert(deps.take(j + 1).drop_last() =~= deps.take(j as int));
                        assert(deps.take(j + 1).last() == dependency);
                        assert(deps.contains(dependency));
                        if dependency < n {
                            self.lemma_reach_step(root, node, dependency);
                        }
                    }
                    if dependency < n && !visited[dependency] {
                        stack.push(dependency);
                        assert(stack@ =~= rest + pending(deps.take(j + 1), marked));
                        assert(stack@[stack1.len() as int] == dependency);
                    }
                    proof {
                        assert forall|k: int| 0 <= k < j + 1 && #[trigger] deps[k] < n implies marked[deps[k] as int]
                            || stack@.contains(deps[k]) by {
                            if k < j && !marked[deps[k] as int] {
                                let at = choose|at: int|
                                    0 <= at < stack1.len() && stack1[at] == deps[k];
                                assert(stack@[at] == deps[k]);
                            }
                        }
                    }
                    j += 1;
                }
                proof {
                    assert(deps.take(j as int) =~= deps);
                    assert(self.visit_order(stack0, visited0) == seq![node] + self.visit_order(
                        stack@,
                        marked,
                    ));
                    assert(order@ + self.visit_order(stack@, marked) =~= order0 + self.visit_order(
                        stack0,
                        visited0,
                    ));
                    assert forall|v: int, i: int|
                        0 <= v < self.nodes@.len() && marked[v] && 0 <= i
                            < self.nodes@[v].dependencies@.len() implies {
                        let d = #[trigger] self.nodes@[v].dependencies@[i];
                        d < marked.len() ==> marked[d as int] || stack@.contains(d)
                    } by {
                        let d = self.nodes@[v].dependencies@[i];
                        if v == node {
                            assert(deps[i] < n ==> marked[deps[i] as int] || stack@.contains(deps[i]));
                        } else if d < marked.len() && !marked[d as int] {
                            assert(visited0[v]);
                            let k = choose|k: int| 0 <= k < stack0.len() && stack0[k] == d;
                            assert(d != node);
                            assert(k < rest.len());
                            assert(stack@[k] == d);
                        }
                    }
                    assert(order@.len() > 0);
                    if !marked[root as int] {
                        let k = choose|k: int| 0 <= k < stack0.len() && stack0[k] == root;
                        assert(stack@[k] == root);
                    }
                }
            }
        }
        proof {
            assert(stack@ =~= Seq::<usize>::empty());
            assert(order@ + self.visit_order(stack@, visited@) =~= order@);
            assert forall|node: usize| order@.contains(node) <==> root < self.spec_len()
                && self.reachable(root, node) by {
                if self.reachable(root, node) {
                    let path = choose|path: Seq<usize>|
                        #[trigger] self.is_path(path) && path[0] == root && path.last() == node;
                    self.lemma_closed_holds_path(visited@, path, path.len() - 1);
                    assert(visited@[node as int]);
                }
                if order@.contains(node) {
                    let k = choose|k: int| 0 <= k < order@.len() && order@[k] == node;
                    assert(self.reachable(root, order@[k]));
                }
            }
        }
        order
    }
}

} // verus!
