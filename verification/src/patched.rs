//! A source that wraps another source and applies patches.
//!
//! The adapter behaves like any other source towards the resolver: a query
//! is forwarded to the inner source with the dependency rewritten to the
//! inner identity, exactly one candidate is required, the candidate is
//! downloaded and materialized with the patch-set applied, and the patched
//! package's summary is yielded under the patched identity.  Only the
//! materialization step touches the file tree.

use vstd::prelude::*;

use crate::cache::{
    ensure_ready, path_for, spec_materialize, spec_path_for, spec_ready_marker,
};
use crate::errors::Error;
use crate::fstree::{is_under, spec_has_dir, spec_path_join, spec_rel_of, FsTree, path_join};
use crate::ids::{SourceId, SourceIdV};
use crate::manifest::{read_manifest, spec_manifest_name, spec_manifest_version};
use crate::source::{
    Dependency, GlobalContext, InnerSource, Package, PackageId, Poll, QueryKind, Summary,
    lemma_matching_in_range, lemma_matching_same_req, spec_matching, spec_query_ok,
    spec_req_matches, spec_req_matches_same,
};
use crate::strutil::{str_eq};

verus! {

/// A package a source can hand over at once.
pub enum MaybePackage {
    Ready(Package),
}

/// The last position of `c` in `s[0, hi)`.
pub open spec fn spec_rfind(s: Seq<char>, c: char, hi: int) -> Option<int>
    decreases hi,
{
    if hi <= 0 || hi > s.len() {
        None
    } else if s[hi - 1] == c {
        Some(hi - 1)
    } else {
        spec_rfind(s, c, hi - 1)
    }
}

/// The nearest ancestor of `start` (itself included) that holds a `.git`
/// entry, walking upward one path component at a time.
pub open spec fn spec_git_root(m: Map<Seq<char>, Seq<char>>, start: Seq<char>) -> Option<
    Seq<char>,
>
    decreases start.len(),
{
    if m.contains_key(spec_path_join(start, ".git"@)) || spec_has_dir(
        m,
        spec_path_join(start, ".git"@),
    ) {
        Some(start)
    } else {
        match spec_rfind(start, '/', start.len() as int) {
            Some(i) => if 0 <= i < start.len() {
                spec_git_root(m, start.take(i))
            } else {
                None
            },
            None => None,
        }
    }
}

/// Finds the git repository root by walking up from the given path: the
/// first directory that holds a `.git` entry.
pub fn find_git_repo_root(fs: &FsTree, start: &str) -> (r: Result<String, Error>)
    requires
        fs.inv(),
    ensures
        match r {
            Ok(p) => spec_git_root(fs@, start@) == Some(p@),
            Err(e) => spec_git_root(fs@, start@) is None && (e matches Error::IoError { path }
                && path@ == start@),
        },
    decreases start@.len(),
{
    proof {
        reveal_strlit(".git");
    }
    let dotgit = path_join(start, ".git");
    if fs.exists_file(dotgit.as_str()) || fs.has_dir(dotgit.as_str()) {
        return Ok(String::from_str(start));
    }
    let len = start.unicode_len();
    let mut hi: usize = len;
    while hi > 0 && !slash_at(start, hi - 1)
        invariant
            len == start@.len(),
            hi <= len,
            spec_rfind(start@, '/', len as int) == spec_rfind(start@, '/', hi as int),
        decreases hi,
    {
        hi = hi - 1;
    }
    if hi == 0 {
        return Err(Error::IoError { path: String::from_str(start) });
    }
    let parent = String::from_str(start.substring_char(0, hi - 1));
    proof {
        assert(parent@ =~= start@.take(hi - 1));
    }
    match find_git_repo_root(fs, parent.as_str()) {
        Ok(p) => Ok(p),
        Err(_) => Err(Error::IoError { path: String::from_str(start) }),
    }
}

/// Whether a slash stands at position `i`.
fn slash_at(s: &str, i: usize) -> (r: bool)
    requires
        i < s@.len(),
    ensures
        r == (s@[i as int] == '/'),
{
    s.get_char(i) == '/'
}

/// The progress line printed when materialization of a package begins.
pub fn patching_status(pkg_id: &PackageId) -> (r: String)
    ensures
        r@ == "Patching "@ + pkg_id.name@ + " v"@ + pkg_id.version@,
{
    let mut out = String::from_str("Patching ");
    out.append(pkg_id.name.as_str());
    out.append(" v");
    out.append(pkg_id.version.as_str());
    out
}

/// The root a git-root walk returns is the start itself or a directory the
/// start lies under.
pub proof fn lemma_git_root_prefix(m: Map<Seq<char>, Seq<char>>, start: Seq<char>)
    ensures
        match spec_git_root(m, start) {
            Some(p) => p == start || is_under(p, start),
            None => true,
        },
    decreases start.len(),
{
    if !(m.contains_key(spec_path_join(start, ".git"@)) || spec_has_dir(
        m,
        spec_path_join(start, ".git"@),
    )) {
        match spec_rfind(start, '/', start.len() as int) {
            Some(i) => {
                if 0 <= i < start.len() {
                    lemma_rfind_hit(start, '/', start.len() as int);
                    let parent = start.take(i);
                    lemma_git_root_prefix(m, parent);
                    assert(is_under(parent, start)) by {
                        assert(start.subrange(0, i + 1) =~= parent + seq!['/']);
                    }
                    match spec_git_root(m, parent) {
                        Some(p) => {
                            if p != parent {
                                assert(is_under(p, start)) by {
                                    assert((p + seq!['/']).len() <= parent.len());
                                    assert(start.subrange(0, (p + seq!['/']).len() as int) =~= (
                                    parent + seq!['/']).subrange(
                                        0,
                                        (p + seq!['/']).len() as int,
                                    ));
                                    assert(parent.subrange(0, (p + seq!['/']).len() as int) == p
                                        + seq!['/']);
                                    assert((parent + seq!['/']).subrange(
                                        0,
                                        (p + seq!['/']).len() as int,
                                    ) =~= parent.subrange(0, (p + seq!['/']).len() as int));
                                }
                            }
                        },
                        None => {},
                    }
                }
            },
            None => {},
        }
    }
}

/// A found position really holds the character.
proof fn lemma_rfind_hit(s: Seq<char>, c: char, hi: int)
    requires
        hi <= s.len(),
    ensures
        match spec_rfind(s, c, hi) {
            Some(i) => 0 <= i < hi && s[i] == c,
            None => true,
        },
    decreases hi,
{
    if hi > 0 {
        lemma_rfind_hit(s, c, hi - 1);
    }
}

/// The checkout directory of the package being patched: the first inner
/// package with the queried name and version.
pub open spec fn spec_dap_root0(ps: PatchedSource, name: Seq<char>, version: Seq<char>) -> Seq<
    char,
> {
    let pkgs = ps.to_patch->Some_0.packages@;
    pkgs[crate::source::spec_find_pkg(pkgs, name, version, 0)].root@
}

/// The directory that is copied into the cache: for a git inner source the
/// repository root above the checkout, if one exists; for a registry inner
/// source the checkout itself.
pub open spec fn spec_dap_src_root(
    ps: PatchedSource,
    m0: Map<Seq<char>, Seq<char>>,
    name: Seq<char>,
    version: Seq<char>,
) -> Option<Seq<char>> {
    let root0 = spec_dap_root0(ps, name, version);
    if ps.to_patch->Some_0.source_id@ matches SourceIdV::Git { .. } {
        spec_git_root(m0, root0)
    } else {
        Some(root0)
    }
}

/// The cache entry of the package being patched.
pub open spec fn spec_dap_dst(
    ps: PatchedSource,
    name: Seq<char>,
    version: Seq<char>,
    cache_home: Seq<char>,
) -> Seq<char> {
    spec_path_for(
        cache_home,
        *ps.source_id@->Patched_inner,
        name,
        version,
        ps.source_id@->Patched_cksum,
    )
}

/// The tree a download-and-patch attempt leaves, whatever it returns: when
/// the repository root cannot be found nothing is touched; when the entry's
/// completion marker is present nothing is touched; otherwise the entry is
/// materialized, completely on success and partially, without the marker,
/// on a failed patch.
pub open spec fn spec_dap_tree(
    ps: PatchedSource,
    m0: Map<Seq<char>, Seq<char>>,
    name: Seq<char>,
    version: Seq<char>,
    cache_home: Seq<char>,
) -> Map<Seq<char>, Seq<char>> {
    match spec_dap_src_root(ps, m0, name, version) {
        None => m0,
        Some(src_root) => {
            let dst = spec_dap_dst(ps, name, version, cache_home);
            if m0.contains_key(spec_path_join(dst, spec_ready_marker())) {
                m0
            } else {
                spec_materialize(m0, dst, src_root, ps.patch_paths@.map_values(|p: String| p@)).0
            }
        },
    }
}

/// The directory the patched package is loaded from: the cache entry, or
/// its subdirectory matching the checkout's place inside the repository.
pub open spec fn spec_dap_pkg_root(
    ps: PatchedSource,
    m0: Map<Seq<char>, Seq<char>>,
    name: Seq<char>,
    version: Seq<char>,
    cache_home: Seq<char>,
) -> Seq<char> {
    let root0 = spec_dap_root0(ps, name, version);
    let src_root = spec_dap_src_root(ps, m0, name, version)->Some_0;
    let dst = spec_dap_dst(ps, name, version, cache_home);
    if ps.to_patch->Some_0.source_id@ matches SourceIdV::Git { .. } && src_root != root0 {
        spec_path_join(dst, spec_rel_of(src_root, root0))
    } else {
        dst
    }
}

/// The manifest file of the patched package inside the cache entry.
pub open spec fn spec_dap_manifest_key(
    ps: PatchedSource,
    m0: Map<Seq<char>, Seq<char>>,
    name: Seq<char>,
    version: Seq<char>,
    cache_home: Seq<char>,
) -> Seq<char> {
    spec_path_join(spec_dap_pkg_root(ps, m0, name, version, cache_home), "Cargo.toml"@)
}

/// When a download-and-patch attempt succeeds: the source tree is found,
/// the entry is already complete or materializes without error, and the
/// patched copy holds a manifest declaring a name and a version.
pub open spec fn spec_dap_success(
    ps: PatchedSource,
    m0: Map<Seq<char>, Seq<char>>,
    name: Seq<char>,
    version: Seq<char>,
    cache_home: Seq<char>,
) -> bool {
    let dst = spec_dap_dst(ps, name, version, cache_home);
    let marker = spec_path_join(dst, spec_ready_marker());
    let t = spec_dap_tree(ps, m0, name, version, cache_home);
    let mk = spec_dap_manifest_key(ps, m0, name, version, cache_home);
    &&& spec_dap_src_root(ps, m0, name, version) is Some
    &&& (m0.contains_key(marker) || spec_materialize(
        m0,
        dst,
        spec_dap_src_root(ps, m0, name, version)->Some_0,
        ps.patch_paths@.map_values(|p: String| p@),
    ).1 is None)
    &&& t.contains_key(mk)
    &&& crate::manifest::spec_manifest_name(t[mk]) is Some
    &&& crate::manifest::spec_manifest_version(t[mk]) is Some
}

/// What a successful download-and-patch returns: the package loaded from
/// the patched copy, under the patched identity, with the name and version
/// its materialized manifest declares.
pub open spec fn spec_dap_pkg_ok(
    ps: PatchedSource,
    m0: Map<Seq<char>, Seq<char>>,
    name: Seq<char>,
    version: Seq<char>,
    cache_home: Seq<char>,
    pkg: Package,
) -> bool {
    let t = spec_dap_tree(ps, m0, name, version, cache_home);
    let mk = spec_dap_manifest_key(ps, m0, name, version, cache_home);
    &&& pkg.root@ == spec_dap_pkg_root(ps, m0, name, version, cache_home)
    &&& pkg.pkg_id.source_id@ == ps.source_id@
    &&& crate::manifest::spec_manifest_name(t[mk]) == Some(pkg.pkg_id.name@)
    &&& crate::manifest::spec_manifest_version(t[mk]) == Some(pkg.pkg_id.version@)
}

/// What a failed download-and-patch reports: a missing repository root as
/// an unreadable path, a materialization failure by its own kind, and a
/// missing or incomplete manifest in the patched copy by the manifest file.
pub open spec fn spec_dap_err_ok(
    ps: PatchedSource,
    m0: Map<Seq<char>, Seq<char>>,
    name: Seq<char>,
    version: Seq<char>,
    cache_home: Seq<char>,
    e: Error,
) -> bool {
    let root0 = spec_dap_root0(ps, name, version);
    let dst = spec_dap_dst(ps, name, version, cache_home);
    let marker = spec_path_join(dst, spec_ready_marker());
    match spec_dap_src_root(ps, m0, name, version) {
        None => e matches Error::IoError { path } && path@ == root0,
        Some(src_root) => {
            let mat = spec_materialize(
                m0,
                dst,
                src_root,
                ps.patch_paths@.map_values(|p: String| p@),
            );
            if !m0.contains_key(marker) && mat.1 is Some {
                crate::cache::spec_mat_err_matches(mat.1->Some_0, e)
            } else {
                let t = spec_dap_tree(ps, m0, name, version, cache_home);
                let mk = spec_dap_manifest_key(ps, m0, name, version, cache_home);
                if !t.contains_key(mk) {
                    e matches Error::IoError { path } && path@ == mk
                } else {
                    e matches Error::ManifestParse { path } && path@ == mk
                }
            }
        },
    }
}

/// A source that patches one package of an inner registry or git source.
pub struct PatchedSource {
    /// The patched source identity.
    pub source_id: SourceId,
    /// The source being patched.  Download temporarily takes it out and puts
    /// it back, so reentry is impossible while a download runs.
    pub to_patch: Option<InnerSource>,
    /// The ordered patch-file paths of the registered patch-set.
    pub patch_paths: Vec<String>,
    /// Patched packages produced by queries, keyed by the inner package
    /// identity, served again by `download`.
    pub patched_packages: Vec<(PackageId, Package)>,
}

impl PatchedSource {
    /// The adapter's representation invariant: the identity is a well-formed
    /// patched identifier, the inner source is in place and carries the
    /// inner identity, and every stored package is keyed by the inner
    /// identity and carries the patched one.
    pub open spec fn inv(&self) -> bool {
        &&& crate::ids::wf_sid(self.source_id@)
        &&& self.source_id@ matches SourceIdV::Patched { .. }
        &&& self.to_patch is Some
        &&& self.to_patch->Some_0.source_id@ == *self.source_id@->Patched_inner
        &&& forall|i: int|
            0 <= i < self.patched_packages@.len() ==> (#[trigger] self.patched_packages@[i].0.source_id@)
                == *self.source_id@->Patched_inner
                && self.patched_packages@[i].1.pkg_id.source_id@ == self.source_id@
    }

    /// The patched identity.
    pub open spec fn spec_source_id(&self) -> SourceIdV {
        self.source_id@
    }

    /// The registered patch-file paths.
    pub open spec fn spec_patch_files(&self) -> Seq<Seq<char>> {
        self.patch_paths@.map_values(|p: String| p@)
    }

    /// The inner source value.
    pub open spec fn spec_inner(&self) -> InnerSource {
        self.to_patch->Some_0
    }

    /// The stored patched packages.
    pub open spec fn spec_patched_packages(&self) -> Seq<(PackageId, Package)> {
        self.patched_packages@
    }

    /// Builds the adapter for a patched identity: the patch-set must have
    /// been registered, and the inner source must be loadable from the
    /// context.
    pub fn new(patched_source_id: SourceId, gctx: &GlobalContext) -> (r: Result<
        PatchedSource,
        Error,
    >)
        requires
            crate::ids::wf_sid(patched_source_id@),
            patched_source_id@ matches SourceIdV::Patched { .. },
            gctx.registry.inv(),
        ensures
            match r {
                Ok(ps) => {
                    &&& ps.inv()
                    &&& ps.spec_source_id() == patched_source_id@
                    &&& gctx.registry@.contains_key(patched_source_id@->Patched_cksum)
                    &&& ps.spec_patch_files() == gctx.registry@[patched_source_id@->Patched_cksum]
                    &&& ps.spec_inner().source_id@ == *patched_source_id@->Patched_inner
                    &&& ps.spec_patched_packages().len() == 0
                },
                Err(e) => {
                    &&& (!gctx.registry@.contains_key(patched_source_id@->Patched_cksum) ==> (
                    e matches Error::UnregisteredPatchSet { cksum } && cksum@
                        == patched_source_id@->Patched_cksum))
                    &&& (gctx.registry@.contains_key(patched_source_id@->Patched_cksum) ==> (
                    e matches Error::InvalidUrl { .. }) && forall|i: int|
                        0 <= i < gctx.sources@.len() ==> #[trigger] gctx.sources@[i].source_id@
                            != *patched_source_id@->Patched_inner)
                },
            },
    {
        let cksum = match &patched_source_id {
            SourceId::Patched { cksum, .. } => String::from_str(cksum.as_str()),
            _ => unreached(),
        };
        let patch_paths = match gctx.registry.lookup(cksum.as_str()) {
            Some(paths) => paths,
            None => {
                return Err(Error::UnregisteredPatchSet { cksum });
            },
        };
        let inner_id = patched_source_id.inner_id();
        let to_patch = match gctx.load_source(&inner_id) {
            Some(s) => s,
            None => {
                return Err(Error::InvalidUrl { url: inner_id.to_url() });
            },
        };
        Ok(
            PatchedSource {
                source_id: patched_source_id,
                to_patch: Some(to_patch),
                patch_paths,
                patched_packages: Vec::new(),
            },
        )
    }

    /// The patch-set checksum carried by the patched identity.
    pub fn patch_checksum(&self) -> (r: &String)
        requires
            self.inv(),
        ensures
            r@ == self.spec_source_id()->Patched_cksum,
    {
        match &self.source_id {
            SourceId::Patched { cksum, .. } => cksum,
            _ => unreached(),
        }
    }

    /// The ordered patch-file paths.
    pub fn patch_files(&self) -> (r: &Vec<String>)
        ensures
            r@.map_values(|p: String| p@) == self.spec_patch_files(),
    {
        &self.patch_paths
    }

    /// The inner source.
    pub fn source_to_patch(&self) -> (r: &InnerSource)
        requires
            self.inv(),
        ensures
            *r == self.spec_inner(),
    {
        match &self.to_patch {
            Some(s) => s,
            None => unreached(),
        }
    }

    /// The inner source, mutably.
    pub fn source_to_patch_mut(&mut self) -> (r: &mut InnerSource)
        requires
            old(self).inv(),
        ensures
            *r == old(self).spec_inner(),
            final(self).to_patch == Some(*final(r)),
            final(self).source_id == old(self).source_id,
            final(self).patch_paths == old(self).patch_paths,
            final(self).patched_packages == old(self).patched_packages,
            final(r).source_id@ == old(self).spec_inner().source_id@ ==> final(self).inv(),
    {
        match &mut self.to_patch {
            Some(s) => s,
            None => unreached(),
        }
    }

    /// Downloads the package being patched from the inner source.  The
    /// inner source is taken out for the download and put back after it, so
    /// a reentrant download is impossible.
    pub fn download_pkg(&mut self, pkg_id_to_patch: &PackageId) -> (r: Package)
        requires
            old(self).inv(),
            exists|i: int|
                0 <= i < old(self).spec_inner().packages@.len() && #[trigger] old(
                    self,
                ).spec_inner().packages@[i].name@ == pkg_id_to_patch.name@ && old(
                    self,
                ).spec_inner().packages@[i].version@ == pkg_id_to_patch.version@,
        ensures
            *final(self) == *old(self),
            r.pkg_id.name@ == pkg_id_to_patch.name@,
            r.pkg_id.version@ == pkg_id_to_patch.version@,
            r.pkg_id.source_id@ == old(self).spec_inner().source_id@,
            r.root@ == old(self).spec_inner().packages@[crate::source::spec_find_pkg(
                old(self).spec_inner().packages@,
                pkg_id_to_patch.name@,
                pkg_id_to_patch.version@,
                0,
            )].root@,
    {
        let mut source = match self.to_patch.take() {
            Some(s) => s,
            None => unreached(),
        };
        let pkg = source.download(pkg_id_to_patch);
        self.to_patch = Some(source);
        proof {
            assert(old(self).to_patch == Some(old(self).to_patch->Some_0));
            assert(*self == *old(self));
        }
        pkg
    }

    /// Copies code to the destination the patched source is put at.
    pub fn copy_pkg_src(&self, fs: &mut FsTree, src: &str, dst: &str)
        requires
            old(fs).inv(),
        ensures
            final(fs).inv(),
            final(fs)@ == crate::fstree::spec_copy_subtree(old(fs)@, src@, dst@),
    {
        fs.copy_subtree(src, dst);
    }

    /// Applies the registered patch files, in order, to a materialized
    /// directory.
    pub fn apply_patches(&self, fs: &mut FsTree, dst: &str) -> (r: Result<(), Error>)
        requires
            self.inv(),
            old(fs).inv(),
            self.spec_patch_files().len() > 0,
        ensures
            final(fs).inv(),
            final(fs)@ == crate::cache::spec_run_patches(old(fs)@, self.spec_patch_files(), dst@).0,
            crate::cache::spec_run_patches(old(fs)@, self.spec_patch_files(), dst@).1 is None
                <==> r is Ok,
    {
        crate::cache::run_patch_set(fs, &self.patch_paths, dst)
    }

    /// Downloads the package being patched, materializes the patched copy in
    /// the cache, and loads the patched package from it.
    ///
    /// For a git inner source the whole repository is copied, so that
    /// workspace inheritance keeps working, and the package is loaded from
    /// its subdirectory of the patched copy; for a registry inner source the
    /// package directory itself is copied.  Materialization is skipped
    /// entirely when the cache entry's completion marker is already present.
    pub fn download_and_patch(
        &mut self,
        orig_pkg_id: &PackageId,
        fs: &mut FsTree,
        gctx: &GlobalContext,
    ) -> (r: Result<Package, Error>)
        requires
            old(self).inv(),
            old(fs).inv(),
            gctx.cache_locked,
            exists|i: int|
                0 <= i < old(self).spec_inner().packages@.len() && #[trigger] old(
                    self,
                ).spec_inner().packages@[i].name@ == orig_pkg_id.name@ && old(
                    self,
                ).spec_inner().packages@[i].version@ == orig_pkg_id.version@,
        ensures
            final(self).inv(),
            final(fs).inv(),
            final(self).source_id == old(self).source_id,
            final(self).to_patch == old(self).to_patch,
            final(self).patch_paths == old(self).patch_paths,
            final(fs)@ == spec_dap_tree(
                *old(self),
                old(fs)@,
                orig_pkg_id.name@,
                orig_pkg_id.version@,
                gctx.cache_home@,
            ),
            (r is Ok) == spec_dap_success(
                *old(self),
                old(fs)@,
                orig_pkg_id.name@,
                orig_pkg_id.version@,
                gctx.cache_home@,
            ),
            match r {
                Ok(pkg) => {
                    &&& final(self).spec_patched_packages().len() == old(
                        self,
                    ).spec_patched_packages().len() + 1
                    &&& final(self).spec_patched_packages().last().0.name@ == orig_pkg_id.name@
                    &&& final(self).spec_patched_packages().last().0.version@
                        == orig_pkg_id.version@
                    &&& final(self).spec_patched_packages().last().0.source_id@ == old(
                        self,
                    ).spec_inner().source_id@
                    &&& final(self).spec_patched_packages().last().1.pkg_id.name@
                        == pkg.pkg_id.name@
                    &&& final(self).spec_patched_packages().last().1.pkg_id.version@
                        == pkg.pkg_id.version@
                    &&& final(self).spec_patched_packages().last().1.pkg_id.source_id@
                        == pkg.pkg_id.source_id@
                    &&& final(self).spec_patched_packages().last().1.root@ == pkg.root@
                    &&& forall|k: int|
                        0 <= k < old(self).spec_patched_packages().len()
                            ==> final(self).spec_patched_packages()[k] == old(
                            self,
                        ).spec_patched_packages()[k]
                    &&& spec_dap_pkg_ok(
                        *old(self),
                        old(fs)@,
                        orig_pkg_id.name@,
                        orig_pkg_id.version@,
                        gctx.cache_home@,
                        pkg,
                    )
                },
                Err(e) => final(self).patched_packages == old(self).patched_packages
                    && spec_dap_err_ok(
                    *old(self),
                    old(fs)@,
                    orig_pkg_id.name@,
                    orig_pkg_id.version@,
                    gctx.cache_home@,
                    e,
                ),
            },
    {
        let patched_pkg_id = orig_pkg_id.with_source_id(self.source_id.clone_id());
        let orig_pkg = self.download_pkg(orig_pkg_id);
        let is_git = self.source_to_patch().source_id.is_git();
        let (src_root, subdir): (String, Option<String>) = if is_git {
            let repo_root = match find_git_repo_root(fs, orig_pkg.root.as_str()) {
                Ok(p) => p,
                Err(e) => {
                    return Err(e);
                },
            };
            proof {
                lemma_git_root_prefix(fs@, orig_pkg.root@);
            }
            if str_eq(repo_root.as_str(), orig_pkg.root.as_str()) {
                (repo_root, None)
            } else {
                let rlen = repo_root.as_str().unicode_len();
                let plen = orig_pkg.root.as_str().unicode_len();
                let sub = String::from_str(
                    orig_pkg.root.as_str().substring_char(rlen + 1, plen),
                );
                proof {
                    assert(sub@ =~= spec_rel_of(repo_root@, orig_pkg.root@));
                }
                (repo_root, Some(sub))
            }
        } else {
            (String::from_str(orig_pkg.root.as_str()), None)
        };
        let dst = self.patched_src_dir(&patched_pkg_id, gctx);
        match ensure_ready(fs, dst.as_str(), src_root.as_str(), &self.patch_paths) {
            Ok(()) => {},
            Err(e) => {
                return Err(e);
            },
        }
        let pkg_root = match subdir {
            Some(ref sub) => path_join(dst.as_str(), sub.as_str()),
            None => dst,
        };
        let manifest_path = path_join(pkg_root.as_str(), "Cargo.toml");
        let m = match read_manifest(fs, manifest_path.as_str()) {
            Ok(m) => m,
            Err(e) => {
                return Err(e);
            },
        };
        let pkg = Package {
            pkg_id: PackageId {
                name: m.name,
                version: m.version,
                source_id: self.source_id.clone_id(),
            },
            root: pkg_root,
        };
        let stored = pkg.clone_pkg();
        let inner_sid = self.source_to_patch().source_id.clone_id();
        let key = orig_pkg_id.with_source_id(inner_sid);
        let ghost pre = self.patched_packages@;
        self.patched_packages.push((key, stored));
        proof {
            assert(self.patched_packages@.drop_last() =~= pre);
        }
        Ok(pkg)
    }

    /// The patched source identity.
    pub fn source_id(&self) -> (r: SourceId)
        ensures
            r@ == self.spec_source_id(),
    {
        self.source_id.clone_id()
    }

    /// A patched source carries no checksums of its own.
    pub fn supports_checksums(&self) -> (r: bool)
        ensures
            r == false,
    {
        false
    }

    /// A patched source never requires a precise revision.
    pub fn requires_precise(&self) -> (r: bool)
        ensures
            r == false,
    {
        false
    }

    /// Answers a query for the patched dependency.
    ///
    /// The dependency is rewritten to the inner identity and forwarded; a
    /// pending inner source is propagated exactly.  A patched dependency is
    /// pinned to one exact version, so anything but exactly one inner
    /// candidate is an error.  The one candidate is downloaded and patched,
    /// remembered for `download`, and yielded under the patched identity.
    pub fn query(
        &mut self,
        dep: &Dependency,
        kind: QueryKind,
        fs: &mut FsTree,
        gctx: &GlobalContext,
    ) -> (r: Poll<Result<Vec<Summary>, Error>>)
        requires
            old(self).inv(),
            old(fs).inv(),
            gctx.cache_locked,
        ensures
            final(self).inv(),
            final(fs).inv(),
            final(self).spec_source_id() == old(self).spec_source_id(),
            final(self).spec_patch_files() == old(self).spec_patch_files(),
            final(self).spec_inner().packages@ == old(self).spec_inner().packages@,
            final(self).spec_inner().pending == old(self).spec_inner().pending,
            old(self).spec_inner().pending > 0 ==> ((r is Pending) && final(fs)@ == old(fs)@
                && final(self).spec_patched_packages() == old(self).spec_patched_packages()),
            old(self).spec_inner().pending == 0 ==> {
                let idx = spec_matching(old(self).spec_inner().packages@, dep.name@, dep.req);
                let name0 = old(self).spec_inner().packages@[idx[0]].name@;
                let version0 = old(self).spec_inner().packages@[idx[0]].version@;
                &&& r is Ready
                &&& (idx.len() != 1 ==> (r->Ready_0 matches Err(Error::AmbiguousPatchTarget {
                    found,
                }) && found == idx.len()))
                &&& (idx.len() != 1 ==> final(fs)@ == old(fs)@ && final(self).spec_patched_packages()
                    == old(self).spec_patched_packages())
                &&& (idx.len() == 1 ==> final(fs)@ == spec_dap_tree(
                    *old(self),
                    old(fs)@,
                    name0,
                    version0,
                    gctx.cache_home@,
                ))
                &&& (idx.len() == 1 ==> (r->Ready_0 is Ok) == spec_dap_success(
                    *old(self),
                    old(fs)@,
                    name0,
                    version0,
                    gctx.cache_home@,
                ))
                &&& (idx.len() == 1 && r->Ready_0 is Ok ==> {
                    let sums = r->Ready_0->Ok_0;
                    &&& sums@.len() == 1
                    &&& sums@[0].pkg_id.source_id@ == old(self).spec_source_id()
                    &&& exists|pkg: Package|
                        {
                            &&& #[trigger] spec_dap_pkg_ok(
                                *old(self),
                                old(fs)@,
                                name0,
                                version0,
                                gctx.cache_home@,
                                pkg,
                            )
                            &&& sums@[0].pkg_id.name@ == pkg.pkg_id.name@
                            &&& sums@[0].pkg_id.version@ == pkg.pkg_id.version@
                        }
                    &&& final(self).spec_patched_packages().len() == old(
                        self,
                    ).spec_patched_packages().len() + 1
                })
                &&& (idx.len() == 1 && !(r->Ready_0 is Ok) ==> spec_dap_err_ok(
                    *old(self),
                    old(fs)@,
                    name0,
                    version0,
                    gctx.cache_home@,
                    r->Ready_0->Err_0,
                ) && final(self).spec_patched_packages() == old(self).spec_patched_packages())
            },
    {
        let inner_sid = self.source_to_patch().source_id.clone_id();
        let my_sid = self.source_id.clone_id();
        let dep_to_patch = dep.map_source(&my_sid, &inner_sid);
        let summaries = match self.source_to_patch_mut().query_vec(&dep_to_patch, kind) {
            Poll::Ready(Ok(summaries)) => summaries,
            Poll::Ready(Err(e)) => {
                return Poll::Ready(Err(e));
            },
            Poll::Pending => {
                return Poll::Pending;
            },
        };
        proof {
            assert(old(self).to_patch == Some(old(self).to_patch->Some_0));
            assert(*self == *old(self));
            lemma_matching_same_req(
                old(self).spec_inner().packages@,
                dep.name@,
                dep_to_patch.req,
                dep.req,
            );
        }
        if summaries.len() != 1 {
            return Poll::Ready(Err(Error::AmbiguousPatchTarget { found: summaries.len() }));
        }
        let pkg_id = &summaries[0].pkg_id;
        proof {
            let idx = spec_matching(old(self).spec_inner().packages@, dep.name@, dep.req);
            lemma_matching_in_range(old(self).spec_inner().packages@, dep.name@, dep.req);
            assert(crate::source::spec_match_entry_ok(
                old(self).spec_inner().packages@,
                dep.name@,
                dep.req,
                0,
            ));
            assert(old(self).spec_inner().packages@[idx[0]].name@ == pkg_id.name@);
        }
        let patched_pkg = match self.download_and_patch(pkg_id, fs, gctx) {
            Ok(pkg) => pkg,
            Err(e) => {
                return Poll::Ready(Err(e));
            },
        };
        let mut sums: Vec<Summary> = Vec::new();
        let patched_summary = Summary { pkg_id: patched_pkg.pkg_id.clone_id() };
        sums.push(patched_summary);
        proof {
            assert(spec_dap_pkg_ok(
                *old(self),
                old(fs)@,
                old(self).spec_inner().packages@[spec_matching(
                    old(self).spec_inner().packages@,
                    dep.name@,
                    dep.req,
                )[0]].name@,
                old(self).spec_inner().packages@[spec_matching(
                    old(self).spec_inner().packages@,
                    dep.name@,
                    dep.req,
                )[0]].version@,
                gctx.cache_home@,
                patched_pkg,
            ));
        }
        Poll::Ready(Ok(sums))
    }

    /// Hands out a patched package a query produced.  The resolver only
    /// downloads identities it was given by a query, so the package is
    /// stored.
    pub fn download(&mut self, id: &PackageId) -> (r: Result<MaybePackage, Error>)
        requires
            old(self).inv(),
            exists|i: int|
                0 <= i < old(self).spec_patched_packages().len() && #[trigger] old(
                    self,
                ).spec_patched_packages()[i].0.name@ == id.name@ && old(
                    self,
                ).spec_patched_packages()[i].0.version@ == id.version@,
        ensures
            final(self).inv(),
            *final(self) == *old(self),
            (r matches Ok(MaybePackage::Ready(pkg)) && pkg.pkg_id.source_id@ == old(
                self,
            ).spec_source_id()),
            r matches Ok(MaybePackage::Ready(pkg)) && exists|i: int|
                {
                    &&& 0 <= i < old(self).spec_patched_packages().len()
                    &&& #[trigger] old(self).spec_patched_packages()[i].0.name@ == id.name@
                    &&& old(self).spec_patched_packages()[i].0.version@ == id.version@
                    &&& pkg.pkg_id.name@ == old(self).spec_patched_packages()[i].1.pkg_id.name@
                    &&& pkg.pkg_id.version@ == old(
                        self,
                    ).spec_patched_packages()[i].1.pkg_id.version@
                    &&& pkg.pkg_id.source_id@ == old(
                        self,
                    ).spec_patched_packages()[i].1.pkg_id.source_id@
                    &&& pkg.root@ == old(self).spec_patched_packages()[i].1.root@
                },
    {
        let ghost pp = self.patched_packages@;
        let mut i: usize = 0;
        while i < self.patched_packages.len()
            invariant
                *self == *old(self),
                self.inv(),
                pp == self.patched_packages@,
                pp == old(self).spec_patched_packages(),
                i <= pp.len(),
                exists|j: int|
                    0 <= j < pp.len() && #[trigger] pp[j].0.name@ == id.name@ && pp[j].0.version@
                        == id.version@,
                forall|j: int|
                    0 <= j < i ==> !(#[trigger] pp[j].0.name@ == id.name@ && pp[j].0.version@
                        == id.version@),
            decreases pp.len() - i,
        {
            let entry = &self.patched_packages[i];
            if str_eq(entry.0.name.as_str(), id.name.as_str()) && str_eq(
                entry.0.version.as_str(),
                id.version.as_str(),
            ) {
                proof {
                    assert(self.patched_packages@[i as int].0.source_id@ == *self.source_id@->Patched_inner);
                }
                return Ok(MaybePackage::Ready(entry.1.clone_pkg()));
            }
            i = i + 1;
        }
        proof {
            assert(false);
        }
        unreached()
    }

    /// The fingerprint of a patched package: the inner fingerprint extended
    /// with the full patch-set checksum, so unrelated patch-sets cannot
    /// collide.
    pub fn fingerprint(&self, pkg: &Package) -> (r: Result<String, Error>)
        requires
            self.inv(),
        ensures
            r matches Ok(f) && f@ == self.spec_inner().fingerprint_tag@ + seq!['/']
                + self.spec_source_id()->Patched_cksum,
    {
        let inner_fp = self.source_to_patch().fingerprint(pkg);
        let mut out = match inner_fp {
            Ok(f) => f,
            Err(e) => {
                return Err(e);
            },
        };
        proof {
            reveal_strlit("/");
            assert("/"@ =~= seq!['/']);
        }
        out.append("/");
        out.append(self.patch_checksum().as_str());
        Ok(out)
    }

    /// Describes the source: the inner description and the size of the
    /// patch-set.
    pub fn describe(&self) -> (r: String)
        requires
            self.inv(),
        ensures
            r@ == self.spec_inner().descr@ + " with "@ + crate::strutil::spec_dec_of(
                self.spec_patch_files().len(),
            ) + " patch file"@ + (if self.spec_patch_files().len() == 1 {
                Seq::<char>::empty()
            } else {
                "s"@
            }),
    {
        let n = self.patch_paths.len();
        let mut out = self.source_to_patch().describe();
        out.append(" with ");
        let dec = crate::strutil::dec_of(n as u64);
        out.append(dec.as_str());
        out.append(" patch file");
        if n != 1 {
            out.append("s");
        }
        out
    }

    /// There is no yanked package for a patched source.
    pub fn is_yanked(&mut self, pkg: &PackageId) -> (r: Poll<Result<bool, Error>>)
        ensures
            *final(self) == *old(self),
            r matches Poll::Ready(Ok(b)) && b == false,
    {
        Poll::Ready(Ok(false))
    }

    /// There is no yanked package for a patched source, so the whitelist
    /// needs no entries.
    pub fn add_to_yanked_whitelist(&mut self, pkgs: &Vec<PackageId>)
        ensures
            *final(self) == *old(self),
    {
    }

    /// Drops the inner source's cached index state.
    pub fn invalidate_cache(&mut self)
        requires
            old(self).inv(),
        ensures
            final(self).inv(),
            final(self).spec_source_id() == old(self).spec_source_id(),
            final(self).spec_patch_files() == old(self).spec_patch_files(),
            final(self).spec_patched_packages() == old(self).spec_patched_packages(),
            final(self).spec_inner() == old(self).spec_inner(),
    {
        let inner = self.source_to_patch_mut();
        inner.invalidate_cache();
    }

    /// Passes quietness on to the inner source.
    pub fn set_quiet(&mut self, quiet: bool)
        requires
            old(self).inv(),
        ensures
            final(self).inv(),
            final(self).spec_source_id() == old(self).spec_source_id(),
            final(self).spec_patch_files() == old(self).spec_patch_files(),
            final(self).spec_patched_packages() == old(self).spec_patched_packages(),
            final(self).spec_inner().quiet == quiet,
            final(self).spec_inner().packages@ == old(self).spec_inner().packages@,
            final(self).spec_inner().pending == old(self).spec_inner().pending,
    {
        let inner = self.source_to_patch_mut();
        inner.set_quiet(quiet);
    }

    /// Blocks until the inner source is ready: works one readiness round off.
    pub fn block_until_ready(&mut self) -> (r: Result<(), Error>)
        requires
            old(self).inv(),
        ensures
            final(self).inv(),
            r is Ok,
            final(self).spec_source_id() == old(self).spec_source_id(),
            final(self).spec_patch_files() == old(self).spec_patch_files(),
            final(self).spec_patched_packages() == old(self).spec_patched_packages(),
            final(self).spec_inner().packages@ == old(self).spec_inner().packages@,
            final(self).spec_inner().pending == if old(self).spec_inner().pending > 0 {
                (old(self).spec_inner().pending - 1) as u64
            } else {
                0u64
            },
    {
        let inner = self.source_to_patch_mut();
        inner.block_until_ready()
    }

    /// The cache directory the patched source of a package is put at.
    pub fn patched_src_dir(&self, pkg_id: &PackageId, gctx: &GlobalContext) -> (r: String)
        requires
            self.inv(),
            gctx.cache_locked,
        ensures
            r@ == spec_path_for(
                gctx.cache_home@,
                *self.spec_source_id()->Patched_inner,
                pkg_id.name@,
                pkg_id.version@,
                self.spec_source_id()->Patched_cksum,
            ),
    {
        let inner_id = self.source_id.inner_id();
        let cksum = self.patch_checksum();
        let cksum_copy = String::from_str(cksum.as_str());
        path_for(
            gctx.cache_home.as_str(),
            &inner_id,
            pkg_id.name.as_str(),
            pkg_id.version.as_str(),
            cksum_copy.as_str(),
        )
    }
}

} // verus!
