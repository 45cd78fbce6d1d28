//! The packages of a project, and which of them are its dependencies.
pub mod package_licenses;

use crate::expression::{parse_expression, spdx_expression, LicenseExpression};
use crate::package_id::{id_name, PackageId, PackageIdView, Version};
use crate::text::views;
use vstd::prelude::*;

verus! {

broadcast use vstd::seq_lib::group_seq_properties;

/// How a package depends on another (`cargo metadata`'s dependency kinds).
#[derive(Clone, Copy, Debug, PartialEq, Eq, Structural)]
pub enum DependencyKind {
    Normal,
    Development,
    Build,
    Unknown,
}

/// One dependency of a package in the resolved graph: the package it is (by position in
/// the metadata's package list) and the kinds under which it is depended on.
pub struct NodeDep {
    pub pkg: usize,
    pub dep_kinds: Vec<DependencyKind>,
}

/// A package of the metadata with its resolved dependencies.
pub struct MetadataPackage {
    pub name: String,
    pub version: Version,
    pub repository: Option<String>,
    /// The folder that holds the package's `Cargo.toml`.
    pub manifest_directory: String,
    pub license: Option<String>,
    pub deps: Vec<NodeDep>,
}

/// What `cargo metadata` says of a project: its packages, with the resolved dependencies
/// of each, and which of them are workspace members (by position).
pub struct Metadata {
    pub packages: Vec<MetadataPackage>,
    pub workspace_members: Vec<usize>,
}

impl Metadata {
    /// Every position that the metadata names is that of one of its packages.
    pub open spec fn well_formed(&self) -> bool {
        &&& forall|i: int| 0 <= i < self.workspace_members@.len() ==> #[trigger] self.workspace_members@[i] < self.packages@.len()
        &&& forall|p: int, j: int|
            0 <= p < self.packages@.len() && 0 <= j < self.packages@[p].deps@.len() ==> #[trigger] self.packages@[p].deps@[j].pkg
                < self.packages@.len()
    }
}

/// Whether a dependency of these kinds is followed: build dependencies only with
/// `build`, dev dependencies only with `dev`, every other kind always.
pub open spec fn kinds_included(kinds: Seq<DependencyKind>, build: bool, dev: bool) -> bool {
    exists|i: int|
        0 <= i < kinds.len() && match #[trigger] kinds[i] {
            DependencyKind::Build => build,
            DependencyKind::Development => dev,
            _ => true,
        }
}

/// Whether package `p` has a name among `excluded`.
pub open spec fn is_excluded(meta: Metadata, excluded: Seq<Seq<char>>, p: int) -> bool {
    excluded.contains(meta.packages@[p].name@)
}

/// Whether `p` is a workspace member.
pub open spec fn is_member(meta: Metadata, p: int) -> bool {
    exists|i: int| 0 <= i < meta.workspace_members@.len() && meta.workspace_members@[i] == p
}

/// Whether the graph has an edge from `u` to `v` that is followed: some dependency of
/// `u` on `v` of an included kind.
pub open spec fn followed_edge(meta: Metadata, build: bool, dev: bool, u: int, v: int) -> bool {
    exists|j: int|
        0 <= j < meta.packages@[u].deps@.len() && (#[trigger] meta.packages@[u].deps@[j]).pkg == v
            && kinds_included(meta.packages@[u].deps@[j].dep_kinds@, build, dev)
}

/// Whether `path` leads from a workspace member through followed edges, every package on
/// it not excluded.
pub open spec fn is_dependency_path(meta: Metadata, excluded: Seq<Seq<char>>, build: bool, dev: bool, path: Seq<int>) -> bool {
    &&& path.len() > 0
    &&& is_member(meta, path[0])
    &&& forall|i: int| 0 <= i < path.len() ==> 0 <= #[trigger] path[i] < meta.packages@.len() && !is_excluded(meta, excluded, path[i])
    &&& forall|i: int| 0 <= i < path.len() - 1 ==> followed_edge(meta, build, dev, #[trigger] path[i], path[i + 1])
}

/// Whether package `p` is reached from a workspace member.
pub open spec fn reached(meta: Metadata, excluded: Seq<Seq<char>>, build: bool, dev: bool, p: int) -> bool {
    exists|path: Seq<int>| is_dependency_path(meta, excluded, build, dev, path) && path.last() == p
}

/// Whether package `p` is a dependency to list: reached, and not a workspace member.
pub open spec fn is_dependency(meta: Metadata, excluded: Seq<Seq<char>>, build: bool, dev: bool, p: int) -> bool {
    reached(meta, excluded, build, dev, p) && !is_member(meta, p)
}

fn kinds_followed(kinds: &Vec<DependencyKind>, build: bool, dev: bool) -> (res: bool)
    ensures
        res == kinds_included(kinds@, build, dev),
{
    let mut i: usize = 0;
    while i < kinds.len()
        invariant
            i <= kinds@.len(),
            forall|j: int| 0 <= j < i ==> !match #[trigger] kinds@[j] {
                DependencyKind::Build => build,
                DependencyKind::Development => dev,
                _ => true,
            },
        decreases kinds@.len() - i,
    {
        let followed = match kinds[i] {
            DependencyKind::Build => build,
            DependencyKind::Development => dev,
            _ => true,
        };
        if followed {
            return true;
        }
        i = i + 1;
    }
    false
}

/// A dependency is followed as soon as one of its kinds is included, whatever its other
/// kinds: a normal (or unknown) kind always, a build kind with `build`, a dev kind with
/// `dev`. So a package that is both a normal and a dev dependency is followed without
/// `dev`.
pub proof fn lemma_one_included_kind_suffices(kinds: Seq<DependencyKind>, build: bool, dev: bool, i: int)
    requires
        0 <= i < kinds.len(),
        kinds[i] is Normal || kinds[i] is Unknown || (kinds[i] is Build && build) || (kinds[i] is Development && dev),
    ensures
        kinds_included(kinds, build, dev),
{
    assert(match kinds[i] {
        DependencyKind::Build => build,
        DependencyKind::Development => dev,
        _ => true,
    });
}

/// A dependency is followed only where one of its kinds is included.
pub proof fn lemma_followed_kinds_have_an_included_one(kinds: Seq<DependencyKind>, build: bool, dev: bool)
    requires
        kinds_included(kinds, build, dev),
    ensures
        exists|i: int|
            0 <= i < kinds.len() && (#[trigger] kinds[i] is Normal || kinds[i] is Unknown || (kinds[i] is Build && build) || (
            kinds[i] is Development && dev)),
{
    let i = choose|i: int|
        0 <= i < kinds.len() && match #[trigger] kinds[i] {
            DependencyKind::Build => build,
            DependencyKind::Development => dev,
            _ => true,
        };
    assert(kinds[i] is Normal || kinds[i] is Unknown || (kinds[i] is Build && build) || (kinds[i] is Development && dev));
}

/// A package that a reached package depends on through a dependency with an included
/// kind is reached too, unless it is excluded.
pub proof fn lemma_included_dependency_is_reached(
    meta: Metadata,
    excluded: Seq<Seq<char>>,
    build: bool,
    dev: bool,
    u: int,
    j: int,
    i: int,
)
    requires
        meta.well_formed(),
        reached(meta, excluded, build, dev, u),
        0 <= j < meta.packages@[u].deps@.len(),
        !is_excluded(meta, excluded, meta.packages@[u].deps@[j].pkg as int),
        0 <= i < meta.packages@[u].deps@[j].dep_kinds@.len(),
        ({
            let k = meta.packages@[u].deps@[j].dep_kinds@[i];
            k is Normal || k is Unknown || (k is Build && build) || (k is Development && dev)
        }),
    ensures
        reached(meta, excluded, build, dev, meta.packages@[u].deps@[j].pkg as int),
{
    let v = meta.packages@[u].deps@[j].pkg as int;
    let path = choose|path: Seq<int>| is_dependency_path(meta, excluded, build, dev, path) && path.last() == u;
    lemma_one_included_kind_suffices(meta.packages@[u].deps@[j].dep_kinds@, build, dev, i);
    let next = path.push(v);
    assert(followed_edge(meta, build, dev, u, v));
    assert forall|p: int| 0 <= p < next.len() - 1 implies followed_edge(meta, build, dev, #[trigger] next[p], next[p + 1]) by {
        if p < path.len() - 1 {
            assert(next[p] == path[p] && next[p + 1] == path[p + 1]);
        } else {
            assert(next[p] == u && next[p + 1] == v);
        }
    }
    assert forall|p: int| 0 <= p < next.len() implies 0 <= #[trigger] next[p] < meta.packages@.len() && !is_excluded(meta, excluded, next[p]) by {
        if p < path.len() {
            assert(next[p] == path[p]);
        }
    }
    assert(next[0] == path[0]);
    assert(is_dependency_path(meta, excluded, build, dev, next));
    assert(next.last() == v);
}

/// Whether `name` is among `excluded`.
fn name_excluded(excluded: &Vec<String>, name: &String) -> (res: bool)
    ensures
        res == views(excluded@).contains(name@),
{
    crate::text::contains_string(excluded, name.as_str())
}

/// Which packages are excluded by name.
fn excluded_flags(meta: &Metadata, excluded: &Vec<String>) -> (res: Vec<bool>)
    ensures
        res@.len() == meta.packages@.len(),
        forall|p: int| 0 <= p < res@.len() ==> res@[p] == is_excluded(*meta, views(excluded@), p),
{
    let mut flags: Vec<bool> = Vec::new();
    let mut p: usize = 0;
    while p < meta.packages.len()
        invariant
            p <= meta.packages@.len(),
            flags@.len() == p,
            forall|q: int| 0 <= q < p ==> flags@[q] == is_excluded(*meta, views(excluded@), q),
        decreases meta.packages@.len() - p,
    {
        flags.push(name_excluded(excluded, &meta.packages[p].name));
        p = p + 1;
    }
    flags
}

/// Whether `p` is on the stack.
pub open spec fn on_stack(stack: Seq<usize>, p: int) -> bool {
    exists|s: int| 0 <= s < stack.len() && stack[s] == p
}

/// How many packages are marked.
pub open spec fn seen_count(s: Seq<bool>) -> nat
    decreases s.len(),
{
    if s.len() == 0 { 0 } else { seen_count(s.drop_last()) + if s.last() { 1nat } else { 0nat } }
}

proof fn lemma_seen_count_bound(s: Seq<bool>)
    ensures
        seen_count(s) <= s.len(),
    decreases s.len(),
{
    if s.len() > 0 {
        lemma_seen_count_bound(s.drop_last());
    }
}

proof fn lemma_seen_count_set(s: Seq<bool>, v: int)
    requires
        0 <= v < s.len(),
        !s[v],
    ensures
        seen_count(s.update(v, true)) == seen_count(s) + 1,
    decreases s.len(),
{
    if v == s.len() - 1 {
        assert(s.update(v, true).drop_last() =~= s.drop_last());
    } else {
        assert(s.update(v, true).drop_last() =~= s.drop_last().update(v, true));
        lemma_seen_count_set(s.drop_last(), v);
    }
}

/// Every package on a path is in a set that holds the workspace members that are not
/// excluded and is closed under followed edges to packages that are not excluded.
proof fn lemma_closed_set_holds_paths(
    meta: Metadata,
    excluded: Seq<Seq<char>>,
    build: bool,
    dev: bool,
    seen: Seq<bool>,
    path: Seq<int>,
)
    requires
        seen.len() == meta.packages@.len(),
        is_dependency_path(meta, excluded, build, dev, path),
        forall|m: int| 0 <= m < meta.packages@.len() && is_member(meta, m) && !is_excluded(meta, excluded, m) ==> #[trigger] seen[m],
        forall|u: int, v: int|
            #![trigger followed_edge(meta, build, dev, u, v)]
            0 <= u < meta.packages@.len() && 0 <= v < meta.packages@.len() && seen[u]
                && followed_edge(meta, build, dev, u, v) && !is_excluded(meta, excluded, v) ==> seen[v],
    ensures
        seen[path.last()],
    decreases path.len(),
{
    if path.len() > 1 {
        let shorter = path.drop_last();
        assert(is_dependency_path(meta, excluded, build, dev, shorter)) by {
            assert forall|i: int| 0 <= i < shorter.len() - 1 implies followed_edge(meta, build, dev, #[trigger] shorter[i], shorter[i + 1]) by {
                assert(shorter[i] == path[i] && shorter[i + 1] == path[i + 1]);
            }
        }
        lemma_closed_set_holds_paths(meta, excluded, build, dev, seen, shorter);
        let n = path.len() - 1;
        assert(followed_edge(meta, build, dev, path[n - 1], path[n]));
        assert(seen[path[n - 1]]);
    }
}

/// Which packages are reached from the workspace members through followed edges,
/// never through an excluded package.
fn reached_flags(meta: &Metadata, excluded: &Vec<String>, build: bool, dev: bool) -> (res: Vec<bool>)
    requires
        meta.well_formed(),
    ensures
        res@.len() == meta.packages@.len(),
        forall|p: int| 0 <= p < res@.len() ==> res@[p] == reached(*meta, views(excluded@), build, dev, p),
{
    let ghost ex = views(excluded@);
    let n = meta.packages.len();
    let excluded_pkg = excluded_flags(meta, excluded);
    let mut seen: Vec<bool> = Vec::new();
    let mut k: usize = 0;
    while k < n
        invariant
            n == meta.packages@.len(),
            k <= n,
            seen@.len() == k,
            forall|q: int| 0 <= q < k ==> !seen@[q],
        decreases n - k,
    {
        seen.push(false);
        k = k + 1;
    }
    // The packages seen but whose dependencies are not yet followed.
    let mut stack: Vec<usize> = Vec::new();
    let mut i: usize = 0;
    while i < meta.workspace_members.len()
        invariant
            meta.well_formed(),
            n == meta.packages@.len(),
            ex == views(excluded@),
            excluded_pkg@.len() == n,
            forall|p: int| 0 <= p < n ==> excluded_pkg@[p] == is_excluded(*meta, ex, p),
            i <= meta.workspace_members@.len(),
            seen@.len() == n,
            forall|p: int| 0 <= p < n && #[trigger] seen@[p] ==> reached(*meta, ex, build, dev, p),
            forall|s: int| 0 <= s < stack@.len() ==> #[trigger] stack@[s] < n && seen@[stack@[s] as int],
            forall|p: int| 0 <= p < n && #[trigger] seen@[p] ==> on_stack(stack@, p),
            forall|j: int| 0 <= j < i && !is_excluded(*meta, ex, #[trigger] meta.workspace_members@[j] as int) ==> seen@[meta.workspace_members@[j] as int],
        decreases meta.workspace_members@.len() - i,
    {
        let m = meta.workspace_members[i];
        if !excluded_pkg[m] && !seen[m] {
            proof {
                let path = seq![m as int];
                assert(is_member(*meta, m as int)) by {
                    assert(meta.workspace_members@[i as int] == m);
                }
                assert(is_dependency_path(*meta, ex, build, dev, path));
                assert(path.last() == m as int);
            }
            let ghost stack_mid = stack@;
            seen.set(m, true);
            stack.push(m);
            proof {
                assert forall|p: int| 0 <= p < n && #[trigger] seen@[p] implies on_stack(stack@, p) by {
                    if p != m {
                        let s = choose|s: int| 0 <= s < stack_mid.len() && stack_mid[s] == p;
                        assert(stack@[s] == p);
                    } else {
                        assert(stack@[stack_mid.len() as int] == p);
                    }
                }
            }
        }
        i = i + 1;
    }
    assert forall|p: int| 0 <= p < n && is_member(*meta, p) && !is_excluded(*meta, ex, p) implies #[trigger] seen@[p] by {
        let j = choose|j: int| 0 <= j < meta.workspace_members@.len() && meta.workspace_members@[j] == p;
        assert(meta.workspace_members@[j] == p);
    }
    // Every package seen and no longer on the stack has had its followed edges explored.
    while stack.len() > 0
        invariant
            meta.well_formed(),
            n == meta.packages@.len(),
            ex == views(excluded@),
            excluded_pkg@.len() == n,
            forall|p: int| 0 <= p < n ==> excluded_pkg@[p] == is_excluded(*meta, ex, p),
            seen@.len() == n,
            forall|p: int| 0 <= p < n && #[trigger] seen@[p] ==> reached(*meta, ex, build, dev, p),
            forall|s: int| 0 <= s < stack@.len() ==> #[trigger] stack@[s] < n && seen@[stack@[s] as int],
            forall|p: int| 0 <= p < n && is_member(*meta, p) && !is_excluded(*meta, ex, p) ==> #[trigger] seen@[p],
            forall|u: int, v: int|
                #![trigger followed_edge(*meta, build, dev, u, v)]
                0 <= u < n && 0 <= v < n && seen@[u] && followed_edge(*meta, build, dev, u, v)
                    && !is_excluded(*meta, ex, v) && !seen@[v] ==> on_stack(stack@, u),
        decreases n - seen_count(seen@), stack@.len(),
    {
        proof {
            lemma_seen_count_bound(seen@);
        }
        let ghost seen_start = seen@;
        let ghost stack_start = stack@;
        let u = stack.pop().unwrap();
        let ghost stack_before = stack@;
        assert(stack_start == stack_before.push(u));
        let deps = &meta.packages[u].deps;
        let mut j: usize = 0;
        while j < deps.len()
            invariant
                meta.well_formed(),
                n == meta.packages@.len(),
                u < n,
                deps == &meta.packages@[u as int].deps,
                ex == views(excluded@),
                excluded_pkg@.len() == n,
                forall|p: int| 0 <= p < n ==> excluded_pkg@[p] == is_excluded(*meta, ex, p),
                j <= deps@.len(),
                seen@.len() == n,
                seen@[u as int],
                forall|p: int| 0 <= p < n && #[trigger] seen@[p] ==> reached(*meta, ex, build, dev, p),
                forall|s: int| 0 <= s < stack@.len() ==> #[trigger] stack@[s] < n && seen@[stack@[s] as int],
                forall|p: int| 0 <= p < n && seen_start[p] ==> #[trigger] seen@[p],
                seen_start.len() == n,
                seen_count(seen@) >= seen_count(seen_start),
                seen_count(seen@) <= n,
                seen_count(seen@) == seen_count(seen_start) ==> stack@ == stack_before,
                forall|p: int| 0 <= p < n && #[trigger] seen@[p] && !seen_start[p] ==> on_stack(stack@, p),
                stack@.len() >= stack_before.len(),
                forall|s: int| 0 <= s < stack_before.len() ==> stack@[s] == #[trigger] stack_before[s],
                forall|jj: int|
                    0 <= jj < j && kinds_included(deps@[jj].dep_kinds@, build, dev) && !is_excluded(*meta, ex, #[trigger] deps@[jj].pkg as int)
                        ==> seen@[deps@[jj].pkg as int],
            decreases deps@.len() - j,
        {
            let v = deps[j].pkg;
            if !excluded_pkg[v] && !seen[v] && kinds_followed(&deps[j].dep_kinds, build, dev) {
                proof {
                    assert(reached(*meta, ex, build, dev, u as int));
                    let path = choose|path: Seq<int>| is_dependency_path(*meta, ex, build, dev, path) && path.last() == u as int;
                    let longer = path.push(v as int);
                    assert(followed_edge(*meta, build, dev, u as int, v as int)) by {
                        assert(meta.packages@[u as int].deps@[j as int].pkg == v);
                    }
                    assert(is_dependency_path(*meta, ex, build, dev, longer)) by {
                        assert forall|i: int| 0 <= i < longer.len() - 1 implies followed_edge(*meta, build, dev, #[trigger] longer[i], longer[i + 1]) by {
                            if i < path.len() - 1 {
                                assert(longer[i] == path[i] && longer[i + 1] == path[i + 1]);
                            }
                        }
                        assert forall|i: int| 0 <= i < longer.len() implies 0 <= #[trigger] longer[i] < meta.packages@.len() && !is_excluded(*meta, ex, longer[i]) by {
                            if i < path.len() {
                                assert(longer[i] == path[i]);
                            }
                        }
                    }
                    assert(longer.last() == v as int);
                    lemma_seen_count_set(seen@, v as int);
                    lemma_seen_count_bound(seen@.update(v as int, true));
                }
                let ghost stack_mid = stack@;
                seen.set(v, true);
                stack.push(v);
                proof {
                    assert(stack@[stack_mid.len() as int] == v);
                    assert(on_stack(stack@, v as int));
                    assert forall|p: int| 0 <= p < n && #[trigger] seen@[p] && !seen_start[p] implies on_stack(stack@, p) by {
                        if p != v {
                            let s = choose|s: int| 0 <= s < stack_mid.len() && stack_mid[s] == p;
                            assert(stack@[s] == p);
                        }
                    }
                }
            }
            j = j + 1;
        }
        proof {
            assert forall|w: int, x: int|
                #![trigger followed_edge(*meta, build, dev, w, x)]
                0 <= w < n && 0 <= x < n && seen@[w] && followed_edge(*meta, build, dev, w, x)
                    && !is_excluded(*meta, ex, x) && !seen@[x] implies on_stack(stack@, w) by {
                if w == u {
                    let jj = choose|jj: int|
                        0 <= jj < meta.packages@[w].deps@.len() && (#[trigger] meta.packages@[w].deps@[jj]).pkg == x
                            && kinds_included(meta.packages@[w].deps@[jj].dep_kinds@, build, dev);
                    assert(deps@[jj].pkg == x);
                } else if seen_start[w] {
                    assert(!seen_start[x]);
                    assert(on_stack(stack_start, w));
                    let s = choose|s: int| 0 <= s < stack_start.len() && stack_start[s] == w;
                    assert(s < stack_before.len());
                    assert(stack@[s] == stack_before[s]);
                }
            }
        }
    }
    proof {
        assert forall|p: int| 0 <= p < n implies seen@[p] == reached(*meta, ex, build, dev, p) by {
            if reached(*meta, ex, build, dev, p) {
                let path = choose|path: Seq<int>| is_dependency_path(*meta, ex, build, dev, path) && path.last() == p;
                lemma_closed_set_holds_paths(*meta, ex, build, dev, seen@, path);
            }
        }
    }
    seen
}


/// A dependency of the project.
pub struct Package {
    pub id: PackageId,
    pub project_folder: String,
    pub repository: Option<String>,
    pub spdx_license: Option<LicenseExpression>,
}

/// The views of an optional string.
pub open spec fn opt_view(s: Option<String>) -> Option<Seq<char>> {
    match s {
        Some(x) => Some(x@),
        None => None,
    }
}

/// Whether `p` is the package that metadata package `m` describes: its identifier from
/// the name and version, the folder of its manifest, its repository, and its `license`
/// field read as an SPDX expression (none where absent or not a valid expression).
pub open spec fn describes(p: Package, m: MetadataPackage) -> bool {
    &&& p.id@ == (id_name(m.name@), m.version@)
    &&& p.project_folder@ == m.manifest_directory@
    &&& opt_view(p.repository) == opt_view(m.repository)
    &&& match (m.license, p.spdx_license) {
        (None, None) => true,
        (Some(l), Some(e)) => spdx_expression(l@) == Some(e@.1) && e@.0 == l@,
        (Some(l), None) => spdx_expression(l@) is None,
        (None, Some(_)) => false,
    }
}

fn copy_opt_string(s: &Option<String>) -> (res: Option<String>)
    ensures
        opt_view(res) == opt_view(*s),
{
    match s {
        Some(x) => Some(x.clone()),
        None => None,
    }
}

impl Package {
    /// The package that a metadata package describes.
    pub fn from(package: &MetadataPackage) -> (res: Package)
        ensures
            describes(res, *package),
    {
        Package {
            id: PackageId::new(package.name.as_str(), package.version.duplicate()),
            repository: copy_opt_string(&package.repository),
            project_folder: package.manifest_directory.clone(),
            spdx_license: match &package.license {
                Some(l) => parse_expression(l.as_str()),
                None => None,
            },
        }
    }
}

/// The identifier of metadata package `p`, as a `Package` made from it has.
pub open spec fn metadata_id(meta: Metadata, p: int) -> PackageIdView {
    (id_name(meta.packages@[p].name@), meta.packages@[p].version@)
}

/// The positions of the packages listed as dependencies, among the first `k`: each
/// dependency in metadata order, except one with the same identifier as the dependency
/// listed just before it.
pub open spec fn listed_prefix(meta: Metadata, excluded: Seq<Seq<char>>, build: bool, dev: bool, k: nat) -> Seq<int>
    decreases k,
{
    if k == 0 {
        Seq::empty()
    } else {
        let s = listed_prefix(meta, excluded, build, dev, (k - 1) as nat);
        let p = k - 1;
        if is_dependency(meta, excluded, build, dev, p) && !(s.len() > 0 && metadata_id(meta, s.last()) == metadata_id(meta, p)) {
            s.push(p)
        } else {
            s
        }
    }
}

/// The positions of the packages listed as dependencies.
pub open spec fn listed(meta: Metadata, excluded: Seq<Seq<char>>, build: bool, dev: bool) -> Seq<int> {
    listed_prefix(meta, excluded, build, dev, meta.packages@.len())
}

fn member_flags(meta: &Metadata) -> (res: Vec<bool>)
    ensures
        res@.len() == meta.packages@.len(),
        forall|p: int| 0 <= p < res@.len() ==> res@[p] == is_member(*meta, p),
{
    let n = meta.packages.len();
    let mut flags: Vec<bool> = Vec::new();
    let mut p: usize = 0;
    while p < n
        invariant
            n == meta.packages@.len(),
            p <= n,
            flags@.len() == p,
            forall|q: int| 0 <= q < p ==> flags@[q] == is_member(*meta, q),
        decreases n - p,
    {
        let mut found = false;
        let mut i: usize = 0;
        while i < meta.workspace_members.len()
            invariant
                i <= meta.workspace_members@.len(),
                found == exists|j: int| 0 <= j < i && meta.workspace_members@[j] == p,
            decreases meta.workspace_members@.len() - i,
        {
            if meta.workspace_members[i] == p {
                found = true;
            }
            i = i + 1;
        }
        flags.push(found);
        p = p + 1;
    }
    flags
}

/// The dependencies of the project: the packages reached from the workspace members
/// through dependencies of the kinds the settings include (build and dev dependencies
/// only where asked), never through a package excluded by name, and not themselves
/// workspace members; in metadata order, a package with the same identifier as the one
/// listed just before it left out.
pub fn dependencies(common: &crate::config::CommonConfig, metadata: &Metadata) -> (res: Vec<Package>)
    requires
        metadata.well_formed(),
    ensures
        res@.len() == listed(*metadata, views(common.excluded@), common.build_dependencies, common.dev_dependencies).len(),
        forall|i: int| 0 <= i < res@.len() ==> describes(
            #[trigger] res@[i],
            metadata.packages@[listed(*metadata, views(common.excluded@), common.build_dependencies, common.dev_dependencies)[i]],
        ),
{
    let ghost ex = views(common.excluded@);
    let build = common.build_dependencies;
    let dev = common.dev_dependencies;
    let reach = reached_flags(metadata, &common.excluded, build, dev);
    let members = member_flags(metadata);
    let n = metadata.packages.len();
    let mut out: Vec<Package> = Vec::new();
    let mut p: usize = 0;
    while p < n
        invariant
            n == metadata.packages@.len(),
            p <= n,
            reach@.len() == n,
            members@.len() == n,
            forall|q: int| 0 <= q < n ==> reach@[q] == reached(*metadata, ex, build, dev, q),
            forall|q: int| 0 <= q < n ==> members@[q] == is_member(*metadata, q),
            out@.len() == listed_prefix(*metadata, ex, build, dev, p as nat).len(),
            forall|i: int| 0 <= i < out@.len() ==> describes(#[trigger] out@[i], metadata.packages@[listed_prefix(*metadata, ex, build, dev, p as nat)[i]]),
            forall|i: int| 0 <= i < listed_prefix(*metadata, ex, build, dev, p as nat).len() ==> 0 <= #[trigger] listed_prefix(*metadata, ex, build, dev, p as nat)[i] < p,
        decreases n - p,
    {
        let ghost before = listed_prefix(*metadata, ex, build, dev, p as nat);
        if reach[p] && !members[p] {
            let package = Package::from(&metadata.packages[p]);
            let duplicate = out.len() > 0 && out[out.len() - 1].id.same_as(&package.id);
            if !duplicate {
                out.push(package);
            }
            proof {
                if before.len() > 0 {
                    assert(describes(out@[before.len() - 1], metadata.packages@[before.last()]));
                }
            }
        }
        proof {
            let now = listed_prefix(*metadata, ex, build, dev, (p + 1) as nat);
            assert forall|i: int| 0 <= i < out@.len() implies describes(#[trigger] out@[i], metadata.packages@[now[i]]) by {
                if i < before.len() {
                    assert(now[i] == before[i]);
                }
            }
        }
        p = p + 1;
    }
    out
}

/// The root package: the first workspace member.
pub fn root_package(metadata: &Metadata) -> (res: Package)
    requires
        metadata.well_formed(),
        metadata.workspace_members@.len() > 0,
    ensures
        describes(res, metadata.packages@[metadata.workspace_members@[0] as int]),
{
    Package::from(&metadata.packages[metadata.workspace_members[0]])
}

/// Whether one of the listed packages has identifier `id`.
pub open spec fn lists_id(meta: Metadata, l: Seq<int>, id: PackageIdView) -> bool {
    exists|i: int| 0 <= i < l.len() && metadata_id(meta, #[trigger] l[i]) == id
}

/// Whether a dependency among the first `k` packages has identifier `id`.
pub open spec fn dependency_with_id(meta: Metadata, excluded: Seq<Seq<char>>, build: bool, dev: bool, k: int, id: PackageIdView) -> bool {
    exists|p: int| 0 <= p < k && is_dependency(meta, excluded, build, dev, p) && #[trigger] metadata_id(meta, p) == id
}

proof fn lemma_listed_prefix_ids(meta: Metadata, excluded: Seq<Seq<char>>, build: bool, dev: bool, k: nat, id: PackageIdView)
    ensures
        lists_id(meta, listed_prefix(meta, excluded, build, dev, k), id) <==> dependency_with_id(meta, excluded, build, dev, k as int, id),
    decreases k,
{
    if k > 0 {
        let s = listed_prefix(meta, excluded, build, dev, (k - 1) as nat);
        let p = k - 1;
        lemma_listed_prefix_ids(meta, excluded, build, dev, (k - 1) as nat, id);
        let now = listed_prefix(meta, excluded, build, dev, k);
        if lists_id(meta, s, id) {
            let i = choose|i: int| 0 <= i < s.len() && metadata_id(meta, #[trigger] s[i]) == id;
            if now != s {
                assert(now[i] == s[i]);
            }
            assert(lists_id(meta, now, id));
        }
        if dependency_with_id(meta, excluded, build, dev, (k - 1) as int, id) {
            let q = choose|q: int| 0 <= q < k - 1 && is_dependency(meta, excluded, build, dev, q) && #[trigger] metadata_id(meta, q) == id;
            assert(dependency_with_id(meta, excluded, build, dev, k as int, id));
        }
        if lists_id(meta, now, id) {
            let i = choose|i: int| 0 <= i < now.len() && metadata_id(meta, #[trigger] now[i]) == id;
            if i < s.len() {
                assert(now[i] == s[i]);
                assert(lists_id(meta, s, id));
            } else {
                assert(now[i] == p);
                assert(dependency_with_id(meta, excluded, build, dev, k as int, id));
            }
        }
        if dependency_with_id(meta, excluded, build, dev, k as int, id) {
            let q = choose|q: int| 0 <= q < k && is_dependency(meta, excluded, build, dev, q) && #[trigger] metadata_id(meta, q) == id;
            if q < p {
                assert(dependency_with_id(meta, excluded, build, dev, (k - 1) as int, id));
            } else if now != s {
                assert(now[s.len() as int] == p);
                assert(lists_id(meta, now, id));
            } else {
                assert(metadata_id(meta, s.last()) == metadata_id(meta, p));
                assert(s[s.len() - 1] == s.last());
                assert(lists_id(meta, s, id));
            }
        }
    }
}

proof fn lemma_path_monotonic(
    meta: Metadata,
    x1: Seq<Seq<char>>,
    x2: Seq<Seq<char>>,
    b1: bool,
    b2: bool,
    d1: bool,
    d2: bool,
    path: Seq<int>,
)
    requires
        forall|n: Seq<char>| x1.contains(n) ==> x2.contains(n),
        b1 ==> b2,
        d1 ==> d2,
        is_dependency_path(meta, x2, b1, d1, path),
    ensures
        is_dependency_path(meta, x1, b2, d2, path),
{
    assert forall|i: int| 0 <= i < path.len() - 1 implies followed_edge(meta, b2, d2, #[trigger] path[i], path[i + 1]) by {
        assert(followed_edge(meta, b1, d1, path[i], path[i + 1]));
        let j = choose|j: int|
            0 <= j < meta.packages@[path[i]].deps@.len() && (#[trigger] meta.packages@[path[i]].deps@[j]).pkg == path[i + 1]
                && kinds_included(meta.packages@[path[i]].deps@[j].dep_kinds@, b1, d1);
        let kinds = meta.packages@[path[i]].deps@[j].dep_kinds@;
        let w = choose|w: int| 0 <= w < kinds.len() && match #[trigger] kinds[w] {
            DependencyKind::Build => b1,
            DependencyKind::Development => d1,
            _ => true,
        };
        assert(kinds_included(kinds, b2, d2)) by {
            assert(match kinds[w] {
                DependencyKind::Build => b2,
                DependencyKind::Development => d2,
                _ => true,
            });
        }
    }
    assert forall|i: int| 0 <= i < path.len() implies 0 <= #[trigger] path[i] < meta.packages@.len() && !is_excluded(meta, x1, path[i]) by {
        assert(!is_excluded(meta, x2, path[i]));
    }
}

/// Excluding more packages never lists another dependency, and following build or dev
/// dependencies as well never drops one: every identifier that `dependencies` lists
/// with the excluded names `x2` and the switches `b1`, `d1` it also lists with fewer
/// excluded names `x1` and switches `b2`, `d2` that are on wherever `b1`, `d1` are.
pub proof fn lemma_dependencies_monotonic(
    meta: Metadata,
    x1: Seq<Seq<char>>,
    x2: Seq<Seq<char>>,
    b1: bool,
    b2: bool,
    d1: bool,
    d2: bool,
    id: PackageIdView,
)
    requires
        forall|n: Seq<char>| x1.contains(n) ==> x2.contains(n),
        b1 ==> b2,
        d1 ==> d2,
        lists_id(meta, listed(meta, x2, b1, d1), id),
    ensures
        lists_id(meta, listed(meta, x1, b2, d2), id),
{
    let n = meta.packages@.len();
    lemma_listed_prefix_ids(meta, x2, b1, d1, n, id);
    lemma_listed_prefix_ids(meta, x1, b2, d2, n, id);
    let p = choose|p: int| 0 <= p < n && is_dependency(meta, x2, b1, d1, p) && #[trigger] metadata_id(meta, p) == id;
    let path = choose|path: Seq<int>| is_dependency_path(meta, x2, b1, d1, path) && path.last() == p;
    lemma_path_monotonic(meta, x1, x2, b1, b2, d1, d2, path);
    assert(is_dependency(meta, x1, b2, d2, p));
    assert(dependency_with_id(meta, x1, b2, d2, n as int, id));
}

} // verus!
