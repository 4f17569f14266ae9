//! Models of the resolver-facing types the adapter works with.
//!
//! The resolver, the registry transport and the git transport are outside
//! collaborators; what the adapter needs from them is modelled as data: an
//! inner source answers queries and downloads from a list of packages it
//! carries, and reports readiness in the same poll style the resolver uses.

use vstd::prelude::*;

use crate::errors::Error;
use crate::fstree::{spec_path_join, FsTree, path_join};
use crate::ids::{SourceId, SourceIdV};
use crate::registry::PatchRegistry;
use crate::strutil::{
    find_char, is_prefix_of, lemma_find_char_props, spec_find_char, starts_with, str_eq,
};

verus! {

/// How a query matches versions.
#[derive(Clone, Copy, PartialEq, Eq, Structural)]
pub enum QueryKind {
    Exact,
    Alternatives,
}

/// The readiness of a cooperative operation.
pub enum Poll<T> {
    Ready(T),
    Pending,
}

/// The identity of one package: its name, exact version, and source.
pub struct PackageId {
    pub name: String,
    pub version: String,
    pub source_id: SourceId,
}

impl PackageId {
    /// An equal copy.
    pub fn clone_id(&self) -> (r: PackageId)
        ensures
            r.name@ == self.name@,
            r.version@ == self.version@,
            r.source_id@ == self.source_id@,
    {
        PackageId {
            name: String::from_str(self.name.as_str()),
            version: String::from_str(self.version.as_str()),
            source_id: self.source_id.clone_id(),
        }
    }

    /// The same package under another source.
    pub fn with_source_id(&self, source_id: SourceId) -> (r: PackageId)
        ensures
            r.name@ == self.name@,
            r.version@ == self.version@,
            r.source_id@ == source_id@,
    {
        PackageId {
            name: String::from_str(self.name.as_str()),
            version: String::from_str(self.version.as_str()),
            source_id,
        }
    }
}

/// A version requirement: anything, or one exact version.
pub enum VersionReq {
    Any,
    Exact { version: String },
}

/// Whether a version satisfies a requirement.
pub open spec fn spec_req_matches(r: VersionReq, v: Seq<char>) -> bool {
    match r {
        VersionReq::Any => true,
        VersionReq::Exact { version } => version@ == v,
    }
}

/// Tests whether a version satisfies a requirement.
pub fn req_matches(r: &VersionReq, v: &str) -> (b: bool)
    ensures
        b == spec_req_matches(*r, v@),
{
    match r {
        VersionReq::Any => true,
        VersionReq::Exact { version } => str_eq(version.as_str(), v),
    }
}

/// One dependency: the package asked for, the versions accepted, and the
/// source expected to provide it.
pub struct Dependency {
    pub name: String,
    pub req: VersionReq,
    pub source_id: SourceId,
}

impl Dependency {
    /// An equal copy.
    pub fn clone_dep(&self) -> (r: Dependency)
        ensures
            r.name@ == self.name@,
            spec_req_matches_same(r.req, self.req),
            r.source_id@ == self.source_id@,
    {
        Dependency {
            name: String::from_str(self.name.as_str()),
            req: match &self.req {
                VersionReq::Any => VersionReq::Any,
                VersionReq::Exact { version } => VersionReq::Exact {
                    version: String::from_str(version.as_str()),
                },
            },
            source_id: self.source_id.clone_id(),
        }
    }

    /// The dependency redirected from one source to another: when its source
    /// is `from`, it becomes `to`; otherwise it is kept.
    pub fn map_source(&self, from: &SourceId, to: &SourceId) -> (r: Dependency)
        ensures
            r.name@ == self.name@,
            spec_req_matches_same(r.req, self.req),
            self.source_id@ == from@ ==> r.source_id@ == to@,
            self.source_id@ != from@ ==> r.source_id@ == self.source_id@,
    {
        let d = self.clone_dep();
        if crate::ids::id_eq(&self.source_id, from) {
            Dependency { name: d.name, req: d.req, source_id: to.clone_id() }
        } else {
            d
        }
    }
}

/// Two requirements that accept exactly the same versions.
pub open spec fn spec_req_matches_same(a: VersionReq, b: VersionReq) -> bool {
    forall|v: Seq<char>| spec_req_matches(a, v) == spec_req_matches(b, v)
}

/// A queryable candidate: one package of a source.
pub struct Summary {
    pub pkg_id: PackageId,
}

/// A downloaded package: its identity and the directory of its files.
pub struct Package {
    pub pkg_id: PackageId,
    pub root: String,
}

impl Package {
    /// An equal copy.
    pub fn clone_pkg(&self) -> (r: Package)
        ensures
            r.pkg_id.name@ == self.pkg_id.name@,
            r.pkg_id.version@ == self.pkg_id.version@,
            r.pkg_id.source_id@ == self.pkg_id.source_id@,
            r.root@ == self.root@,
    {
        Package { pkg_id: self.pkg_id.clone_id(), root: String::from_str(self.root.as_str()) }
    }
}

/// One package an inner source can serve: its candidate summary and where
/// its checkout lives on disk.
pub struct InnerPackage {
    pub name: String,
    pub version: String,
    pub root: String,
}

/// A registry or git source, modelled by the packages it can serve.  It
/// keeps the resolver's poll contract: while `pending` rounds remain, a
/// query answers `Pending` and `block_until_ready` works one round off.
pub struct InnerSource {
    pub source_id: SourceId,
    pub packages: Vec<InnerPackage>,
    pub pending: u64,
    pub quiet: bool,
    pub fingerprint_tag: String,
    pub descr: String,
}

/// What a ready query answers: one summary for each matching package, in
/// order, carrying the package's name and version under the source's own
/// identity.
pub open spec fn spec_query_ok(
    src: InnerSource,
    name: Seq<char>,
    req: VersionReq,
    sums: Seq<Summary>,
) -> bool {
    let idx = spec_matching(src.packages@, name, req);
    &&& sums.len() == idx.len()
    &&& forall|k: int|
        0 <= k < idx.len() ==> {
            &&& #[trigger] sums[k].pkg_id.name@ == src.packages@[idx[k]].name@
            &&& sums[k].pkg_id.version@ == src.packages@[idx[k]].version@
            &&& sums[k].pkg_id.source_id@ == src.source_id@
        }
}

/// The first package with the given name and version, or the length when
/// none matches.
pub open spec fn spec_find_pkg(
    pkgs: Seq<InnerPackage>,
    name: Seq<char>,
    version: Seq<char>,
    from: int,
) -> int
    decreases pkgs.len() - from,
{
    if from < 0 || from >= pkgs.len() {
        pkgs.len() as int
    } else if pkgs[from].name@ == name && pkgs[from].version@ == version {
        from
    } else {
        spec_find_pkg(pkgs, name, version, from + 1)
    }
}

/// The indices of the packages matching a dependency, in order.
pub open spec fn spec_matching(pkgs: Seq<InnerPackage>, name: Seq<char>, req: VersionReq) -> Seq<
    int,
>
    decreases pkgs.len(),
{
    if pkgs.len() == 0 {
        Seq::empty()
    } else {
        let rest = spec_matching(pkgs.drop_last(), name, req);
        if pkgs.last().name@ == name && spec_req_matches(req, pkgs.last().version@) {
            rest.push(pkgs.len() - 1)
        } else {
            rest
        }
    }
}

/// When the first match stands at or past the end, no package matches.
pub proof fn lemma_find_pkg_none(
    pkgs: Seq<InnerPackage>,
    name: Seq<char>,
    version: Seq<char>,
    from: int,
)
    requires
        0 <= from <= pkgs.len(),
        spec_find_pkg(pkgs, name, version, from) >= pkgs.len(),
    ensures
        forall|j: int|
            from <= j < pkgs.len() ==> !(#[trigger] pkgs[j].name@ == name && pkgs[j].version@
                == version),
    decreases pkgs.len() - from,
{
    if from < pkgs.len() {
        lemma_find_pkg_none(pkgs, name, version, from + 1);
    }
}

/// Two requirements that accept the same versions produce the same matches.
pub proof fn lemma_matching_same_req(
    pkgs: Seq<InnerPackage>,
    name: Seq<char>,
    a: VersionReq,
    b: VersionReq,
)
    requires
        spec_req_matches_same(a, b),
    ensures
        spec_matching(pkgs, name, a) == spec_matching(pkgs, name, b),
    decreases pkgs.len(),
{
    if pkgs.len() > 0 {
        lemma_matching_same_req(pkgs.drop_last(), name, a, b);
    }
}

/// One match index points at a package with the queried name and an
/// accepted version.
pub open spec fn spec_match_entry_ok(
    pkgs: Seq<InnerPackage>,
    name: Seq<char>,
    req: VersionReq,
    k: int,
) -> bool {
    let i = spec_matching(pkgs, name, req)[k];
    &&& 0 <= i < pkgs.len()
    &&& pkgs[i].name@ == name
    &&& spec_req_matches(req, pkgs[i].version@)
}

/// Every match index points at a package with the queried name and an
/// accepted version.
pub proof fn lemma_matching_in_range(pkgs: Seq<InnerPackage>, name: Seq<char>, req: VersionReq)
    ensures
        forall|k: int|
            0 <= k < spec_matching(pkgs, name, req).len() ==> #[trigger] spec_match_entry_ok(
                pkgs,
                name,
                req,
                k,
            ),
    decreases pkgs.len(),
{
    if pkgs.len() > 0 {
        lemma_matching_in_range(pkgs.drop_last(), name, req);
        assert forall|k: int| 0 <= k < spec_matching(pkgs, name, req).len() implies
            #[trigger] spec_match_entry_ok(pkgs, name, req, k) by {
            let rest = spec_matching(pkgs.drop_last(), name, req);
            if k < rest.len() {
                assert(spec_match_entry_ok(pkgs.drop_last(), name, req, k));
                assert(0 <= rest[k] < pkgs.drop_last().len());
                assert(pkgs.drop_last()[rest[k]] == pkgs[rest[k]]);
                assert(spec_matching(pkgs, name, req)[k] == rest[k]);
            } else {
                assert(spec_matching(pkgs, name, req)[k] == pkgs.len() - 1);
            }
        }
    }
}

impl InnerSource {
    /// An equal copy.
    pub fn clone_source(&self) -> (r: InnerSource)
        ensures
            r.source_id@ == self.source_id@,
            r.packages@.len() == self.packages@.len(),
            forall|i: int|
                0 <= i < self.packages@.len() ==> #[trigger] r.packages@[i].name@
                    == self.packages@[i].name@ && r.packages@[i].version@
                    == self.packages@[i].version@ && r.packages@[i].root@
                    == self.packages@[i].root@,
            r.pending == self.pending,
            r.quiet == self.quiet,
            r.fingerprint_tag@ == self.fingerprint_tag@,
            r.descr@ == self.descr@,
    {
        let mut packages: Vec<InnerPackage> = Vec::new();
        let mut i: usize = 0;
        while i < self.packages.len()
            invariant
                i <= self.packages@.len(),
                packages@.len() == i,
                forall|j: int|
                    0 <= j < i ==> #[trigger] packages@[j].name@ == self.packages@[j].name@
                        && packages@[j].version@ == self.packages@[j].version@
                        && packages@[j].root@ == self.packages@[j].root@,
            decreases self.packages@.len() - i,
        {
            let p = &self.packages[i];
            packages.push(
                InnerPackage {
                    name: String::from_str(p.name.as_str()),
                    version: String::from_str(p.version.as_str()),
                    root: String::from_str(p.root.as_str()),
                },
            );
            i = i + 1;
        }
        InnerSource {
            source_id: self.source_id.clone_id(),
            packages,
            pending: self.pending,
            quiet: self.quiet,
            fingerprint_tag: String::from_str(self.fingerprint_tag.as_str()),
            descr: String::from_str(self.descr.as_str()),
        }
    }

    /// Answers a query: `Pending` while readiness rounds remain, otherwise
    /// the summaries of the packages matching the dependency, under this
    /// source's identity.
    pub fn query_vec(&mut self, dep: &Dependency, kind: QueryKind) -> (r: Poll<
        Result<Vec<Summary>, Error>,
    >)
        ensures
            *final(self) == *old(self),
            old(self).pending > 0 ==> r is Pending,
            old(self).pending == 0 ==> r is Ready && r->Ready_0 is Ok && spec_query_ok(
                *old(self),
                dep.name@,
                dep.req,
                (r->Ready_0->Ok_0)@,
            ),
    {
        if self.pending > 0 {
            return Poll::Pending;
        }
        let ghost pkgs = self.packages@;
        let mut sums: Vec<Summary> = Vec::new();
        let mut i: usize = 0;
        while i < self.packages.len()
            invariant
                pkgs == self.packages@,
                self.source_id@ == old(self).source_id@,
                i <= pkgs.len(),
                sums@.len() == spec_matching(pkgs.subrange(0, i as int), dep.name@, dep.req).len(),
                forall|k: int|
                    0 <= k < sums@.len() ==> {
                        let idx = spec_matching(pkgs.subrange(0, i as int), dep.name@, dep.req);
                        &&& #[trigger] sums@[k].pkg_id.name@ == pkgs[idx[k]].name@
                        &&& sums@[k].pkg_id.version@ == pkgs[idx[k]].version@
                        &&& sums@[k].pkg_id.source_id@ == old(self).source_id@
                    },
            decreases pkgs.len() - i,
        {
            let ghost pre_idx = spec_matching(pkgs.subrange(0, i as int), dep.name@, dep.req);
            let p = &self.packages[i];
            if str_eq(p.name.as_str(), dep.name.as_str()) && req_matches(&dep.req, p.version.as_str()) {
                sums.push(
                    Summary {
                        pkg_id: PackageId {
                            name: String::from_str(p.name.as_str()),
                            version: String::from_str(p.version.as_str()),
                            source_id: self.source_id.clone_id(),
                        },
                    },
                );
            }
            proof {
                let sub1 = pkgs.subrange(0, i + 1);
                assert(sub1.drop_last() =~= pkgs.subrange(0, i as int));
                assert(sub1.last() == pkgs[i as int]);
                let idx1 = spec_matching(sub1, dep.name@, dep.req);
                if pkgs[i as int].name@ == dep.name@ && spec_req_matches(
                    dep.req,
                    pkgs[i as int].version@,
                ) {
                    assert(idx1 =~= pre_idx.push(i as int));
                } else {
                    assert(idx1 =~= pre_idx);
                }
            }
            i = i + 1;
        }
        proof {
            assert(pkgs.subrange(0, pkgs.len() as int) =~= pkgs);
            assert(pkgs == old(self).packages@);
            let idx = spec_matching(old(self).packages@, dep.name@, dep.req);
            assert(idx == spec_matching(pkgs.subrange(0, pkgs.len() as int), dep.name@, dep.req));
            assert(sums@.len() == idx.len());
            assert forall|k: int| 0 <= k < idx.len() implies {
                &&& #[trigger] sums@[k].pkg_id.name@ == old(self).packages@[idx[k]].name@
                &&& sums@[k].pkg_id.version@ == old(self).packages@[idx[k]].version@
                &&& sums@[k].pkg_id.source_id@ == old(self).source_id@
            } by {
                assert(sums@[k].pkg_id.name@ == pkgs[idx[k]].name@);
            }
            assert(spec_query_ok(*old(self), dep.name@, dep.req, sums@));
        }
        Poll::Ready(Ok(sums))
    }

    /// Hands out the package with the given identity.  The caller only asks
    /// for identities a query returned, so the package is present.
    pub fn download(&mut self, pkg_id: &PackageId) -> (r: Package)
        requires
            exists|i: int|
                0 <= i < old(self).packages@.len() && #[trigger] old(
                    self,
                ).packages@[i].name@ == pkg_id.name@ && old(self).packages@[i].version@
                    == pkg_id.version@,
        ensures
            *final(self) == *old(self),
            r.pkg_id.name@ == pkg_id.name@,
            r.pkg_id.version@ == pkg_id.version@,
            r.pkg_id.source_id@ == old(self).source_id@,
            spec_find_pkg(old(self).packages@, pkg_id.name@, pkg_id.version@, 0) < old(
                self,
            ).packages@.len(),
            r.root@ == old(self).packages@[spec_find_pkg(
                old(self).packages@,
                pkg_id.name@,
                pkg_id.version@,
                0,
            )].root@,
    {
        let ghost pkgs = self.packages@;
        let mut i: usize = 0;
        while i < self.packages.len()
            invariant
                pkgs == self.packages@,
                pkgs == old(self).packages@,
                self.source_id@ == old(self).source_id@,
                i <= pkgs.len(),
                exists|j: int|
                    0 <= j < pkgs.len() && #[trigger] pkgs[j].name@ == pkg_id.name@
                        && pkgs[j].version@ == pkg_id.version@,
                spec_find_pkg(pkgs, pkg_id.name@, pkg_id.version@, 0) == spec_find_pkg(
                    pkgs,
                    pkg_id.name@,
                    pkg_id.version@,
                    i as int,
                ),
            decreases pkgs.len() - i,
        {
            let p = &self.packages[i];
            if str_eq(p.name.as_str(), pkg_id.name.as_str()) && str_eq(
                p.version.as_str(),
                pkg_id.version.as_str(),
            ) {
                return Package {
                    pkg_id: PackageId {
                        name: String::from_str(p.name.as_str()),
                        version: String::from_str(p.version.as_str()),
                        source_id: self.source_id.clone_id(),
                    },
                    root: String::from_str(p.root.as_str()),
                };
            }
            i = i + 1;
        }
        proof {
            lemma_find_pkg_none(pkgs, pkg_id.name@, pkg_id.version@, 0);
            assert(false);
        }
        unreached()
    }

    /// Works one readiness round off.
    pub fn block_until_ready(&mut self) -> (r: Result<(), Error>)
        ensures
            r is Ok,
            final(self).source_id@ == old(self).source_id@,
            final(self).packages@ == old(self).packages@,
            final(self).pending == if old(self).pending > 0 {
                (old(self).pending - 1) as u64
            } else {
                0u64
            },
    {
        if self.pending > 0 {
            self.pending = self.pending - 1;
        }
        Ok(())
    }

    /// Drops any cached index state.  The model keeps none.
    pub fn invalidate_cache(&mut self)
        ensures
            *final(self) == *old(self),
    {
    }

    /// Sets whether progress output is suppressed.
    pub fn set_quiet(&mut self, quiet: bool)
        ensures
            final(self).source_id@ == old(self).source_id@,
            final(self).packages@ == old(self).packages@,
            final(self).pending == old(self).pending,
            final(self).quiet == quiet,
    {
        self.quiet = quiet;
    }

    /// A human description of the source.
    pub fn describe(&self) -> (r: String)
        ensures
            r@ == self.descr@,
    {
        String::from_str(self.descr.as_str())
    }

    /// The source's fingerprint for a package.
    pub fn fingerprint(&self, pkg: &Package) -> (r: Result<String, Error>)
        ensures
            r matches Ok(f) && f@ == self.fingerprint_tag@,
    {
        Ok(String::from_str(self.fingerprint_tag.as_str()))
    }
}

/// The workspace-wide context the adapter draws on: the working directory,
/// the cache home, whether the process holds the download-exclusive cache
/// lock, the patch registry, and the sources that can be loaded.
pub struct GlobalContext {
    pub cwd: String,
    pub cache_home: String,
    pub cache_locked: bool,
    pub registry: PatchRegistry,
    pub sources: Vec<InnerSource>,
}

impl GlobalContext {
    /// Loads the source with the given identity, if one is configured.
    pub fn load_source(&self, id: &SourceId) -> (r: Option<InnerSource>)
        ensures
            match r {
                Some(s) => s.source_id@ == id@ && exists|i: int|
                    0 <= i < self.sources@.len() && #[trigger] self.sources@[i].source_id@ == id@,
                None => forall|i: int|
                    0 <= i < self.sources@.len() ==> #[trigger] self.sources@[i].source_id@ != id@,
            },
    {
        let mut i: usize = 0;
        while i < self.sources.len()
            invariant
                i <= self.sources@.len(),
                forall|j: int|
                    0 <= j < i ==> #[trigger] self.sources@[j].source_id@ != id@,
            decreases self.sources@.len() - i,
        {
            if crate::ids::id_eq(&self.sources[i].source_id, id) {
                return Some(self.sources[i].clone_source());
            }
            i = i + 1;
        }
        None
    }
}

} // verus!
