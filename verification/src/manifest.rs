//! The manifest surface the subsystem consumes.
//!
//! Of a package manifest only the fields this subsystem needs are surfaced:
//! the package name and exact version, read back from a materialized tree,
//! and the patch-table entries that declare patch-sets, validated before a
//! patched identifier is built.

use vstd::prelude::*;

use crate::errors::Error;
use crate::fstree::FsTree;
use crate::patch::{spec_lines, split_lines, Line};
use crate::strutil::{
    find_char, is_prefix_of, lemma_find_char_props, spec_find_char, starts_with, str_eq,
};

verus! {

/// The manifest fields the subsystem surfaces.
pub struct ModelManifest {
    pub name: String,
    pub version: String,
}

/// The quoted value of the first line starting with `key`, if that line has
/// a closing quote.
pub open spec fn spec_key_value(
    ls: Seq<(Seq<char>, bool)>,
    key: Seq<char>,
    pos: int,
) -> Option<Seq<char>>
    decreases ls.len() - pos,
{
    if pos < 0 || pos >= ls.len() {
        None
    } else if is_prefix_of(key, ls[pos].0) {
        let rest = ls[pos].0.skip(key.len() as int);
        match spec_find_char(rest, '"', 0) {
            Some(j) => Some(rest.take(j)),
            None => None,
        }
    } else {
        spec_key_value(ls, key, pos + 1)
    }
}

/// The package name a manifest text declares.
pub open spec fn spec_manifest_name(text: Seq<char>) -> Option<Seq<char>> {
    spec_key_value(spec_lines(text), "name = \""@, 0)
}

/// The package version a manifest text declares.
pub open spec fn spec_manifest_version(text: Seq<char>) -> Option<Seq<char>> {
    spec_key_value(spec_lines(text), "version = \""@, 0)
}

/// Finds the quoted value of the first line starting with `key`.
fn key_value(ls: &Vec<Line>, key: &str, pos: usize) -> (r: Option<String>)
    requires
        pos <= ls@.len(),
    ensures
        match r {
            Some(v) => spec_key_value(crate::patch::line_views(ls@), key@, pos as int) == Some(v@),
            None => spec_key_value(crate::patch::line_views(ls@), key@, pos as int) is None,
        },
    decreases ls@.len() - pos,
{
    if pos >= ls.len() {
        return None;
    }
    if starts_with(ls[pos].text.as_str(), key) {
        let klen = key.unicode_len();
        let tlen = ls[pos].text.as_str().unicode_len();
        let rest = String::from_str(ls[pos].text.as_str().substring_char(klen, tlen));
        proof {
            assert(rest@ =~= crate::patch::line_views(ls@)[pos as int].0.skip(key@.len() as int));
            lemma_find_char_props(rest@, '"', 0);
        }
        match find_char(rest.as_str(), '"', 0) {
            Some(j) => Some(String::from_str(rest.as_str().substring_char(0, j))),
            None => None,
        }
    } else {
        key_value(ls, key, pos + 1)
    }
}

/// Loads the manifest at `path` from the tree and surfaces the fields this
/// subsystem needs: the package name and version.
pub fn read_manifest(fs: &FsTree, path: &str) -> (r: Result<ModelManifest, Error>)
    requires
        fs.inv(),
    ensures
        match r {
            Ok(m) => {
                &&& fs@.contains_key(path@)
                &&& spec_manifest_name(fs@[path@]) == Some(m.name@)
                &&& spec_manifest_version(fs@[path@]) == Some(m.version@)
            },
            Err(e) => match e {
                Error::IoError { path: p } => p@ == path@ && !fs@.contains_key(path@),
                Error::ManifestParse { path: p } => p@ == path@ && fs@.contains_key(path@) && (
                spec_manifest_name(fs@[path@]) is None || spec_manifest_version(fs@[path@])
                    is None),
                _ => false,
            },
        },
{
    let content = match fs.read(path) {
        None => {
            return Err(Error::IoError { path: String::from_str(path) });
        },
        Some(c) => String::from_str(c.as_str()),
    };
    let lines = split_lines(content.as_str());
    let name = match key_value(&lines, "name = \"", 0) {
        None => {
            return Err(Error::ManifestParse { path: String::from_str(path) });
        },
        Some(n) => n,
    };
    let version = match key_value(&lines, "version = \"", 0) {
        None => {
            return Err(Error::ManifestParse { path: String::from_str(path) });
        },
        Some(v) => v,
    };
    Ok(ModelManifest { name, version })
}

/// One dependency entry of a manifest, with the fields this subsystem reads.
pub struct TomlDetailedDependency {
    pub version: Option<String>,
    pub path: Option<String>,
    pub git: Option<String>,
    pub branch: Option<String>,
    pub tag: Option<String>,
    pub rev: Option<String>,
    pub registry: Option<String>,
    pub registry_index: Option<String>,
    pub features: Option<Vec<String>>,
    pub optional: Option<bool>,
    pub default_features: Option<bool>,
    pub public: Option<bool>,
    pub patches: Option<Vec<String>>,
}

impl TomlDetailedDependency {
    /// An entry with no field set.
    pub fn empty() -> (r: TomlDetailedDependency)
        ensures
            r.version is None,
            r.path is None,
            r.git is None,
            r.branch is None,
            r.tag is None,
            r.rev is None,
            r.registry is None,
            r.registry_index is None,
            r.features is None,
            r.optional is None,
            r.default_features is None,
            r.public is None,
            r.patches is None,
    {
        TomlDetailedDependency {
            version: None,
            path: None,
            git: None,
            branch: None,
            tag: None,
            rev: None,
            registry: None,
            registry_index: None,
            features: None,
            optional: None,
            default_features: None,
            public: None,
            patches: None,
        }
    }
}

/// How a dependency entry contradicts itself.
#[derive(Debug)]
pub enum DepSpecError {
    /// Both `git` and a registry were named.
    GitWithRegistry,
    /// Both `registry` and `registry-index` were named.
    TwoRegistries,
    /// Both `git` and `path` were named.
    GitWithPath,
    /// More than one of `branch`, `tag` and `rev` was named.
    TwoGitReferences,
}

/// The source a dependency entry names: git wins over path, a registry over
/// the default, and contradicting combinations are rejected.
pub open spec fn spec_resolve_source_id(
    d: TomlDetailedDependency,
    ws_root: Seq<char>,
    default_source: crate::ids::SourceIdV,
) -> Result<crate::ids::SourceIdV, DepSpecError> {
    if d.git is Some && (d.registry is Some || d.registry_index is Some) {
        Err(DepSpecError::GitWithRegistry)
    } else if d.registry is Some && d.registry_index is Some {
        Err(DepSpecError::TwoRegistries)
    } else if d.git is Some && d.path is Some {
        Err(DepSpecError::GitWithPath)
    } else if d.git is Some {
        if (if d.branch is Some { 1int } else { 0 }) + (if d.tag is Some { 1int } else { 0 }) + (
        if d.rev is Some { 1int } else { 0 }) > 1 {
            Err(DepSpecError::TwoGitReferences)
        } else {
            Ok(
                crate::ids::SourceIdV::Git {
                    url: d.git->Some_0@,
                    precise: match d.rev {
                        Some(r) => Some(r@),
                        None => None,
                    },
                },
            )
        }
    } else if d.path is Some {
        Ok(
            crate::ids::SourceIdV::Path {
                url: crate::fstree::spec_path_join(ws_root, d.path->Some_0@),
            },
        )
    } else if d.registry is Some {
        Ok(crate::ids::SourceIdV::Registry { url: d.registry->Some_0@ })
    } else if d.registry_index is Some {
        Ok(crate::ids::SourceIdV::Registry { url: d.registry_index->Some_0@ })
    } else {
        Ok(default_source)
    }
}

/// Resolves the source a dependency entry names.
pub fn resolve_source_id_from_dependency(
    d: &TomlDetailedDependency,
    ws_root: &str,
    default_source: &crate::ids::SourceId,
) -> (r: Result<crate::ids::SourceId, DepSpecError>)
    ensures
        match r {
            Ok(id) => spec_resolve_source_id(*d, ws_root@, default_source@) == Ok::<
                crate::ids::SourceIdV,
                DepSpecError,
            >(id@),
            Err(e) => spec_resolve_source_id(*d, ws_root@, default_source@) == Err::<
                crate::ids::SourceIdV,
                DepSpecError,
            >(e),
        },
{
    if d.git.is_some() && (d.registry.is_some() || d.registry_index.is_some()) {
        Err(DepSpecError::GitWithRegistry)
    } else if d.registry.is_some() && d.registry_index.is_some() {
        Err(DepSpecError::TwoRegistries)
    } else if d.git.is_some() && d.path.is_some() {
        Err(DepSpecError::GitWithPath)
    } else {
        match &d.git {
            Some(git) => {
                let mut n: u64 = 0;
                if d.branch.is_some() {
                    n = n + 1;
                }
                if d.tag.is_some() {
                    n = n + 1;
                }
                if d.rev.is_some() {
                    n = n + 1;
                }
                if n > 1 {
                    return Err(DepSpecError::TwoGitReferences);
                }
                Ok(
                    crate::ids::SourceId::Git {
                        url: String::from_str(git.as_str()),
                        precise: match &d.rev {
                            Some(rv) => Some(String::from_str(rv.as_str())),
                            None => None,
                        },
                    },
                )
            },
            None => {
                match &d.path {
                    Some(p) => Ok(
                        crate::ids::SourceId::Path {
                            url: crate::fstree::path_join(ws_root, p.as_str()),
                        },
                    ),
                    None => {
                        match &d.registry {
                            Some(reg) => Ok(
                                crate::ids::SourceId::Registry {
                                    url: String::from_str(reg.as_str()),
                                },
                            ),
                            None => {
                                match &d.registry_index {
                                    Some(idx) => Ok(
                                        crate::ids::SourceId::Registry {
                                            url: String::from_str(idx.as_str()),
                                        },
                                    ),
                                    None => Ok(default_source.clone_id()),
                                }
                            },
                        }
                    },
                }
            },
        }
    }
}

/// What validating the `patches` field of a patch-table entry concludes:
/// not a patched dependency at all, or the patch-info record to register.
pub open spec fn spec_patched_info(
    d: TomlDetailedDependency,
    name: Seq<char>,
    dep_source: crate::ids::SourceIdV,
    table_url: Seq<char>,
    ws_root: Seq<char>,
) -> Result<Option<(Seq<char>, Seq<char>, Seq<Seq<char>>)>, Error> {
    match d.patches {
        None => Ok(None),
        Some(patches) => {
            if dep_source matches crate::ids::SourceIdV::Path { .. } {
                Err(Error::PatchPathDep)
            } else if dep_source matches crate::ids::SourceIdV::Patched { .. } {
                Err(Error::NestedPatch)
            } else if (dep_source matches crate::ids::SourceIdV::Registry { url } && url
                != table_url) || (dep_source matches crate::ids::SourceIdV::Git { url, .. } && url
                != table_url) {
                Err(Error::MismatchedSource)
            } else if d.version is None || spec_exact_version_of(d.version->Some_0@) is None {
                Err(Error::NonExactVersion)
            } else if patches@.len() == 0 {
                Err(Error::EmptyPatchList)
            } else {
                Ok(
                    Some(
                        (
                            name,
                            spec_exact_version_of(d.version->Some_0@)->Some_0,
                            patches@.map_values(
                                |p: String| crate::fstree::spec_path_join(ws_root, p@),
                            ),
                        ),
                    ),
                )
            }
        },
    }
}

/// The text with leading spaces dropped.
pub open spec fn spec_drop_leading(s: Seq<char>) -> Seq<char>
    decreases s.len(),
{
    if s.len() > 0 && s[0] == ' ' {
        spec_drop_leading(s.skip(1))
    } else {
        s
    }
}

/// The text with trailing spaces dropped.
pub open spec fn spec_drop_trailing(s: Seq<char>) -> Seq<char>
    decreases s.len(),
{
    if s.len() > 0 && s.last() == ' ' {
        spec_drop_trailing(s.drop_last())
    } else {
        s
    }
}

/// Whether the text is a full `major.minor.patch` triple of decimal
/// numbers, which is the only requirement shape that pins one exact
/// version.
pub open spec fn spec_is_triple(t: Seq<char>) -> bool {
    let e1 = crate::patch::spec_num_run(t, 0);
    let e2 = crate::patch::spec_num_run(t, e1 + 1);
    let e3 = crate::patch::spec_num_run(t, e2 + 1);
    &&& 0 < e1 < t.len()
    &&& t[e1] == '.'
    &&& e1 + 1 < e2 < t.len()
    &&& t[e2] == '.'
    &&& e2 + 1 < e3
    &&& e3 == t.len()
}

/// The exact version a requirement text pins, if it pins one: either a
/// bare `major.minor.patch` triple, or `=` followed by one (spaces around
/// the triple allowed after the `=`).  A range such as a caret or a bare
/// major version pins nothing and yields none.
pub open spec fn spec_exact_version_of(v: Seq<char>) -> Option<Seq<char>> {
    let t = if v.len() > 0 && v[0] == '=' {
        spec_drop_trailing(spec_drop_leading(v.skip(1)))
    } else {
        v
    };
    if spec_is_triple(t) {
        Some(t)
    } else {
        None
    }
}

/// Whether the character at `i` is a decimal digit.
fn dig_at(t: &str, i: usize) -> (r: bool)
    requires
        i < t@.len(),
    ensures
        r == crate::patch::is_digit(t@[i as int]),
{
    let c = t.get_char(i);
    let u = c as u32;
    48 <= u && u <= 57
}

/// Whether the character at `i` is a space.
fn space_at(t: &str, i: usize) -> (r: bool)
    requires
        i < t@.len(),
    ensures
        r == (t@[i as int] == ' '),
{
    t.get_char(i) == ' '
}

/// The end of the digit run starting at `from`.
fn num_run_end(t: &str, from: usize) -> (r: usize)
    requires
        from <= t@.len(),
    ensures
        r == crate::patch::spec_num_run(t@, from as int),
        from <= r <= t@.len(),
{
    proof {
        crate::patch::lemma_num_run_props(t@, from as int);
    }
    let len = t.unicode_len();
    let mut i: usize = from;
    while i < len && dig_at(t, i)
        invariant
            len == t@.len(),
            from <= i <= len,
            crate::patch::spec_num_run(t@, from as int) == crate::patch::spec_num_run(
                t@,
                i as int,
            ),
        decreases len - i,
    {
        i = i + 1;
    }
    i
}

/// Tests whether the text is a full `major.minor.patch` triple.
fn is_triple(t: &str) -> (r: bool)
    ensures
        r == spec_is_triple(t@),
{
    let len = t.unicode_len();
    let e1 = num_run_end(t, 0);
    if !(0 < e1 && e1 < len) {
        return false;
    }
    if t.get_char(e1) != '.' {
        return false;
    }
    let e2 = num_run_end(t, e1 + 1);
    if !(e1 + 1 < e2 && e2 < len) {
        return false;
    }
    if t.get_char(e2) != '.' {
        return false;
    }
    let e3 = num_run_end(t, e2 + 1);
    e2 + 1 < e3 && e3 == len
}

/// The exact version a requirement text pins, if it pins one.
pub fn exact_version_of(version: &str) -> (r: Option<String>)
    ensures
        match r {
            Some(t) => spec_exact_version_of(version@) == Some(t@),
            None => spec_exact_version_of(version@) is None,
        },
{
    let len = version.unicode_len();
    let trimmed: String = if len > 0 && version.get_char(0) == '=' {
        let mut lo: usize = 1;
        while lo < len && space_at(version, lo)
            invariant
                len == version@.len(),
                1 <= lo <= len,
                spec_drop_leading(version@.skip(1)) == spec_drop_leading(
                    version@.skip(lo as int),
                ),
            decreases len - lo,
        {
            proof {
                assert(version@.skip(lo as int).skip(1) =~= version@.skip(lo + 1));
            }
            lo = lo + 1;
        }
        proof {
            if lo < len {
                assert(spec_drop_leading(version@.skip(lo as int)) == version@.skip(lo as int));
            } else {
                assert(version@.skip(lo as int) =~= Seq::<char>::empty());
            }
        }
        let mut hi: usize = len;
        proof {
            assert(version@.subrange(lo as int, len as int) =~= version@.skip(lo as int));
        }
        while hi > lo && space_at(version, hi - 1)
            invariant
                len == version@.len(),
                lo <= hi <= len,
                spec_drop_leading(version@.skip(1)) == version@.skip(lo as int),
                spec_drop_trailing(version@.skip(lo as int)) == spec_drop_trailing(
                    version@.subrange(lo as int, hi as int),
                ),
            decreases hi,
        {
            proof {
                assert(version@.subrange(lo as int, hi as int).drop_last() =~= version@.subrange(
                    lo as int,
                    hi as int - 1,
                ));
            }
            hi = hi - 1;
        }
        proof {
            if hi > lo {
                assert(spec_drop_trailing(version@.subrange(lo as int, hi as int))
                    == version@.subrange(lo as int, hi as int));
            } else {
                assert(version@.subrange(lo as int, hi as int) =~= Seq::<char>::empty());
            }
        }
        String::from_str(version.substring_char(lo, hi))
    } else {
        String::from_str(version)
    };
    if is_triple(trimmed.as_str()) {
        Some(trimmed)
    } else {
        None
    }
}

/// Validates the `patches` field of a patch-table entry and produces the
/// patch-info record: the package name, the exact version pinned, and the
/// patch paths resolved against the workspace root.
///
/// Patching is only valid for registry and git sources naming the same
/// source as the patch-table key, with an exact version and a non-empty
/// patch list.
pub fn patched_source_id(
    d: &TomlDetailedDependency,
    name: &str,
    dep_source: &crate::ids::SourceId,
    table_url: &str,
    ws_root: &str,
) -> (r: Result<Option<crate::registry::PatchInfo>, Error>)
    ensures
        match r {
            Ok(None) => spec_patched_info(*d, name@, dep_source@, table_url@, ws_root@) == Ok::<
                Option<(Seq<char>, Seq<char>, Seq<Seq<char>>)>,
                Error,
            >(None),
            Ok(Some(info)) => spec_patched_info(*d, name@, dep_source@, table_url@, ws_root@)
                == Ok::<Option<(Seq<char>, Seq<char>, Seq<Seq<char>>)>, Error>(
                Some((info.name@, info.version@, info.paths@.map_values(|p: String| p@))),
            ),
            Err(e) => spec_patched_info(*d, name@, dep_source@, table_url@, ws_root@) matches Err(
                e2,
            ) && e.same_kind(e2),
        },
{
    let patches = match &d.patches {
        None => {
            return Ok(None);
        },
        Some(patches) => patches,
    };
    match dep_source {
        crate::ids::SourceId::Path { .. } => {
            return Err(Error::PatchPathDep);
        },
        crate::ids::SourceId::Patched { .. } => {
            return Err(Error::NestedPatch);
        },
        crate::ids::SourceId::Registry { url } => {
            if !str_eq(url.as_str(), table_url) {
                return Err(Error::MismatchedSource);
            }
        },
        crate::ids::SourceId::Git { url, .. } => {
            if !str_eq(url.as_str(), table_url) {
                return Err(Error::MismatchedSource);
            }
        },
    }
    let version = match &d.version {
        None => {
            return Err(Error::NonExactVersion);
        },
        Some(v) => v,
    };
    let exact = match exact_version_of(version.as_str()) {
        None => {
            return Err(Error::NonExactVersion);
        },
        Some(t) => t,
    };
    if patches.len() == 0 {
        return Err(Error::EmptyPatchList);
    }
    let mut paths: Vec<String> = Vec::new();
    let mut i: usize = 0;
    while i < patches.len()
        invariant
            i <= patches@.len(),
            d.patches matches Some(ps) && ps@ == patches@,
            paths@.map_values(|p: String| p@) =~= patches@.subrange(0, i as int).map_values(
                |p: String| crate::fstree::spec_path_join(ws_root@, p@),
            ),
        decreases patches@.len() - i,
    {
        let ghost pre = paths@;
        paths.push(crate::fstree::path_join(ws_root, patches[i].as_str()));
        proof {
            assert(paths@.map_values(|p: String| p@) =~= pre.map_values(|p: String| p@).push(
                crate::fstree::spec_path_join(ws_root@, patches@[i as int]@),
            ));
            assert(paths@.map_values(|p: String| p@) =~= patches@.subrange(0, i + 1).map_values(
                |p: String| crate::fstree::spec_path_join(ws_root@, p@),
            ));
        }
        i = i + 1;
    }
    proof {
        assert(patches@.subrange(0, patches@.len() as int) =~= patches@);
    }
    Ok(
        Some(
            crate::registry::PatchInfo {
                name: String::from_str(name),
                version: exact,
                paths,
            },
        ),
    )
}

/// Registers the patch-set of a patch-info record and wraps the inner
/// identifier into the patched identifier carrying the checksum.
pub fn for_patches(
    inner: &crate::ids::SourceId,
    registry: &mut crate::registry::PatchRegistry,
    files: &Vec<crate::registry::PatchFileInput>,
) -> (r: Result<crate::ids::SourceId, Error>)
    requires
        old(registry).inv(),
    ensures
        final(registry).inv(),
        ({
            let cksum = crate::hasher::spec_patch_set_digest(
                crate::registry::input_contents(files@),
            );
            &&& (!crate::registry::all_readable(files@) ==> (r matches Err(Error::IoError {
                path,
            }) && exists|i: int|
                0 <= i < files@.len() && files@[i].content is None && path@
                    == #[trigger] files@[i].path@) && final(registry)@ == old(registry)@)
            &&& (crate::registry::all_readable(files@) ==> final(registry)@ == (
            if old(registry)@.contains_key(cksum) {
                old(registry)@
            } else {
                old(registry)@.insert(
                    cksum,
                    files@.map_values(|f: crate::registry::PatchFileInput| f.path@),
                )
            }))
            &&& (crate::registry::all_readable(files@) && (inner@ matches
                crate::ids::SourceIdV::Path { .. }) ==> r == Err::<crate::ids::SourceId, Error>(
                Error::PatchPathDep,
            ))
            &&& (crate::registry::all_readable(files@) && (inner@ matches
                crate::ids::SourceIdV::Patched { .. }) ==> r == Err::<crate::ids::SourceId, Error>(
                Error::NestedPatch,
            ))
            &&& (crate::registry::all_readable(files@) && (inner@ matches
                crate::ids::SourceIdV::Registry { .. } || inner@ matches
                crate::ids::SourceIdV::Git { .. }) ==> (r matches Ok(id) && id@
                == crate::ids::spec_make_patched(inner@, cksum)))
        }),
{
    let cksum = match registry.register(files) {
        Ok(c) => c,
        Err(e) => {
            return Err(e);
        },
    };
    crate::ids::make_patched(inner, cksum.as_str())
}

/// One patched package of a git repository, as the manifest layer collects
/// them before resolution.
pub struct SiblingPatch {
    pub pkg: String,
    pub repo_url: String,
    pub cksum: String,
    pub paths: Vec<String>,
}

/// Whether two entries patch the same repository with different patch-sets.
pub open spec fn spec_conflicting(a: SiblingPatch, b: SiblingPatch) -> bool {
    a.repo_url@ == b.repo_url@ && a.cksum@ != b.cksum@
}

/// All patched packages of one git repository under one resolution must
/// declare identical patch-sets; a divergent pair is a user error, reported
/// with both package names and their patch path lists.
pub fn check_sibling_patch_sets(entries: &Vec<SiblingPatch>) -> (r: Result<(), Error>)
    ensures
        match r {
            Ok(()) => forall|i: int, j: int|
                0 <= i < j < entries@.len() ==> !spec_conflicting(
                    #[trigger] entries@[i],
                    #[trigger] entries@[j],
                ),
            Err(e) => (exists|i: int, j: int|
                0 <= i < j < entries@.len() && spec_conflicting(
                    #[trigger] entries@[i],
                    #[trigger] entries@[j],
                )) && (e matches Error::ConflictingPatchSets { first_pkg, second_pkg, .. }
                && exists|i: int, j: int|
                0 <= i < j < entries@.len() && spec_conflicting(
                    #[trigger] entries@[i],
                    #[trigger] entries@[j],
                ) && first_pkg@ == entries@[i].pkg@ && second_pkg@ == entries@[j].pkg@),
        },
{
    let mut i: usize = 0;
    while i < entries.len()
        invariant
            i <= entries@.len(),
            forall|a: int, b: int|
                0 <= a < b < entries@.len() && a < i ==> !spec_conflicting(
                    #[trigger] entries@[a],
                    #[trigger] entries@[b],
                ),
        decreases entries@.len() - i,
    {
        let mut j: usize = i + 1;
        while j < entries.len()
            invariant
                i < entries@.len() || i <= entries@.len(),
                i + 1 <= j <= entries@.len() || j == i + 1,
                i < j,
                j <= entries@.len(),
                i < entries@.len(),
                forall|b: int|
                    i < b < j ==> !spec_conflicting(#[trigger] entries@[i as int], entries@[b]),
            decreases entries@.len() - j,
        {
            let a = &entries[i];
            let b = &entries[j];
            if str_eq(a.repo_url.as_str(), b.repo_url.as_str()) && !str_eq(
                a.cksum.as_str(),
                b.cksum.as_str(),
            ) {
                let mut first_paths: Vec<String> = Vec::new();
                let mut second_paths: Vec<String> = Vec::new();
                let mut k: usize = 0;
                while k < a.paths.len()
                    decreases a.paths@.len() - k,
                {
                    first_paths.push(String::from_str(a.paths[k].as_str()));
                    k = k + 1;
                }
                let mut k2: usize = 0;
                while k2 < b.paths.len()
                    decreases b.paths@.len() - k2,
                {
                    second_paths.push(String::from_str(b.paths[k2].as_str()));
                    k2 = k2 + 1;
                }
                proof {
                    assert(spec_conflicting(entries@[i as int], entries@[j as int]));
                }
                return Err(
                    Error::ConflictingPatchSets {
                        first_pkg: String::from_str(a.pkg.as_str()),
                        second_pkg: String::from_str(b.pkg.as_str()),
                        first_paths,
                        second_paths,
                    },
                );
            }
            j = j + 1;
        }
        i = i + 1;
    }
    Ok(())
}

/// Something that resolves to a filesystem path, given the context.
pub trait ResolveToPath {
    /// The path the value resolves to.
    spec fn spec_resolve(&self, gctx: &crate::source::GlobalContext) -> Seq<char>;

    /// Resolves the value to a path.
    fn resolve(&self, gctx: &crate::source::GlobalContext) -> (r: String)
        ensures
            r@ == self.spec_resolve(gctx),
    ;
}

impl ResolveToPath for String {
    open spec fn spec_resolve(&self, gctx: &crate::source::GlobalContext) -> Seq<char> {
        self@
    }

    fn resolve(&self, gctx: &crate::source::GlobalContext) -> (r: String) {
        String::from_str(self.as_str())
    }
}

/// A path from the configuration, resolved against the working directory.
pub struct ConfigRelativePath {
    pub raw: String,
}

impl ResolveToPath for ConfigRelativePath {
    open spec fn spec_resolve(&self, gctx: &crate::source::GlobalContext) -> Seq<char> {
        crate::fstree::spec_path_join(gctx.cwd@, self.raw@)
    }

    fn resolve(&self, gctx: &crate::source::GlobalContext) -> (r: String) {
        crate::fstree::path_join(gctx.cwd.as_str(), self.raw.as_str())
    }
}

/// The fields a workspace root offers its members for inheritance.
pub struct InheritableFields {
    pub dependencies: Vec<(String, TomlDependency)>,
    pub lints: Option<Vec<String>>,
    pub license_file: Option<String>,
    pub readme: Option<String>,
    pub ws_root: String,
}

impl InheritableFields {
    /// The workspace dependency a member inherits under a name.
    pub fn get_dependency(&self, name: &str) -> (r: Option<&TomlDependency>)
        ensures
            match r {
                Some(d) => exists|i: int|
                    0 <= i < self.dependencies@.len() && #[trigger] self.dependencies@[i].0@
                        == name@ && *d == self.dependencies@[i].1,
                None => forall|i: int|
                    0 <= i < self.dependencies@.len() ==> #[trigger] self.dependencies@[i].0@
                        != name@,
            },
    {
        let mut i: usize = 0;
        while i < self.dependencies.len()
            invariant
                i <= self.dependencies@.len(),
                forall|j: int|
                    0 <= j < i ==> #[trigger] self.dependencies@[j].0@ != name@,
            decreases self.dependencies@.len() - i,
        {
            if str_eq(self.dependencies[i].0.as_str(), name) {
                return Some(&self.dependencies[i].1);
            }
            i = i + 1;
        }
        None
    }

    /// The workspace lints, if the root defines them.
    pub fn lints(&self) -> (r: Option<&Vec<String>>)
        ensures
            match r {
                Some(l) => self.lints matches Some(sl) && *l == sl,
                None => self.lints is None,
            },
    {
        match &self.lints {
            Some(l) => Some(l),
            None => None,
        }
    }

    /// The workspace license file, made relative to a member by keeping the
    /// workspace-root-relative path.
    pub fn license_file(&self, package_root: &str) -> (r: Option<String>)
        ensures
            match r {
                Some(p) => self.license_file matches Some(lf) && p@
                    == crate::fstree::spec_path_join(self.ws_root@, lf@),
                None => self.license_file is None,
            },
    {
        match &self.license_file {
            Some(lf) => Some(crate::fstree::path_join(self.ws_root.as_str(), lf.as_str())),
            None => None,
        }
    }

    /// The workspace readme, resolved against the workspace root.
    pub fn readme(&self, package_root: &str) -> (r: Option<String>)
        ensures
            match r {
                Some(p) => self.readme matches Some(rm) && p@ == crate::fstree::spec_path_join(
                    self.ws_root@,
                    rm@,
                ),
                None => self.readme is None,
            },
    {
        match &self.readme {
            Some(rm) => Some(crate::fstree::path_join(self.ws_root.as_str(), rm.as_str())),
            None => None,
        }
    }

    /// The workspace root directory.
    pub fn ws_root(&self) -> (r: &String)
        ensures
            r@ == self.ws_root@,
    {
        &self.ws_root
    }
}

/// A warning that a manifest key is present but unused.
pub fn unused_dep_keys(
    dep_name: &str,
    kind: &str,
    unused_keys: &Vec<String>,
    warnings: &mut Vec<String>,
)
    ensures
        final(warnings)@.len() == old(warnings)@.len() + unused_keys@.len(),
        forall|j: int|
            0 <= j < old(warnings)@.len() ==> #[trigger] final(warnings)@[j] == old(warnings)@[j],
        forall|k: int|
            0 <= k < unused_keys@.len() ==> #[trigger] final(warnings)@[old(warnings)@.len() + k]@
                == "unused manifest key: "@ + kind@ + seq!['.'] + dep_name@ + seq!['.']
                + unused_keys@[k]@,
{
    proof {
        reveal_strlit(".");
        assert("."@ =~= seq!['.']);
    }
    let mut i: usize = 0;
    while i < unused_keys.len()
        invariant
            "."@ =~= seq!['.'],
            i <= unused_keys@.len(),
            warnings@.len() == old(warnings)@.len() + i,
            forall|j: int|
                0 <= j < old(warnings)@.len() ==> #[trigger] warnings@[j] == old(warnings)@[j],
            forall|k: int|
                0 <= k < i ==> #[trigger] warnings@[old(warnings)@.len() + k]@
                    == "unused manifest key: "@ + kind@ + seq!['.'] + dep_name@ + seq!['.']
                    + unused_keys@[k]@,
        decreases unused_keys@.len() - i,
    {
        let mut msg = String::from_str("unused manifest key: ");
        msg.append(kind);
        msg.append(".");
        msg.append(dep_name);
        msg.append(".");
        msg.append(unused_keys[i].as_str());
        warnings.push(msg);
        i = i + 1;
    }
}

/// How a `[lints]` table is rejected.
#[derive(Debug, PartialEq, Eq, Structural)]
pub enum LintError {
    /// A tool outside the supported set.
    UnsupportedTool,
    /// A lint name qualified with `::`, which belongs in the tool key.
    QualifiedLintName,
}

/// Whether a lint tool is one of the supported ones.
pub open spec fn spec_supported_tool(t: Seq<char>) -> bool {
    t == "cargo"@ || t == "clippy"@ || t == "rust"@ || t == "rustdoc"@
}

/// Whether a lint name carries a `::` qualifier.
pub open spec fn spec_qualified(name: Seq<char>) -> bool {
    exists|i: int| 0 <= i && i + 2 <= name.len() && #[trigger] name.subrange(i, i + 2) == "::"@
}

/// One tool's lint list checked: the tool must be supported and no lint
/// name may be qualified.
pub open spec fn spec_verify_tool_lints(tool: Seq<char>, names: Seq<Seq<char>>, from: int) -> Result<
    (),
    LintError,
>
    decreases names.len() - from,
{
    if !spec_supported_tool(tool) {
        Err(LintError::UnsupportedTool)
    } else if from < 0 || from >= names.len() {
        Ok(())
    } else if spec_qualified(names[from]) {
        Err(LintError::QualifiedLintName)
    } else {
        spec_verify_tool_lints(tool, names, from + 1)
    }
}

/// A whole `[lints]` table checked tool by tool, in order.
pub open spec fn spec_verify_lints(lints: Seq<(String, Vec<String>)>, from: int) -> Result<
    (),
    LintError,
>
    decreases lints.len() - from,
{
    if from < 0 || from >= lints.len() {
        Ok(())
    } else {
        match spec_verify_tool_lints(
            lints[from].0@,
            lints[from].1@.map_values(|n: String| n@),
            0,
        ) {
            Err(e) => Err(e),
            Ok(()) => spec_verify_lints(lints, from + 1),
        }
    }
}

/// Tests whether a lint name carries a `::` qualifier.
fn qualified(name: &str) -> (r: bool)
    ensures
        r == spec_qualified(name@),
{
    let len = name.unicode_len();
    if len < 2 {
        proof {
            assert(!spec_qualified(name@)) by {
                assert(forall|i: int|
                    0 <= i && i + 2 <= name@.len() ==> #[trigger] name@.subrange(i, i + 2)
                        != "::"@);
            }
        }
        return false;
    }
    let mut i: usize = 0;
    while i <= len - 2
        invariant
            len == name@.len(),
            len >= 2,
            i <= len,
            forall|j: int| 0 <= j < i ==> #[trigger] name@.subrange(j, j + 2) != "::"@,
        decreases len - i,
    {
        if name.get_char(i) == ':' && name.get_char(i + 1) == ':' {
            proof {
                reveal_strlit("::");
                assert(name@.subrange(i as int, i as int + 2) =~= "::"@);
            }
            return true;
        }
        proof {
            reveal_strlit("::");
            if name@.subrange(i as int, i as int + 2) == "::"@ {
                assert(name@.subrange(i as int, i as int + 2)[0] == ':');
                assert(name@.subrange(i as int, i as int + 2)[1] == ':');
                assert(false);
            }
        }
        i = i + 1;
    }
    proof {
        assert(forall|j: int|
            0 <= j && j + 2 <= name@.len() ==> #[trigger] name@.subrange(j, j + 2) != "::"@);
    }
    false
}

/// Checks a `[lints]` table: every tool must be one of the supported set,
/// and lint names may not carry a tool qualifier of their own.
pub fn verify_lints(lints: &Vec<(String, Vec<String>)>) -> (r: Result<(), LintError>)
    ensures
        r == spec_verify_lints(lints@, 0),
{
    let mut i: usize = 0;
    proof {
        reveal_strlit("cargo");
        reveal_strlit("clippy");
        reveal_strlit("rust");
        reveal_strlit("rustdoc");
    }
    while i < lints.len()
        invariant
            i <= lints@.len(),
            spec_verify_lints(lints@, 0) == spec_verify_lints(lints@, i as int),
        decreases lints@.len() - i,
    {
        let tool = &lints[i].0;
        let supported = str_eq(tool.as_str(), "cargo") || str_eq(tool.as_str(), "clippy")
            || str_eq(tool.as_str(), "rust") || str_eq(tool.as_str(), "rustdoc");
        if !supported {
            return Err(LintError::UnsupportedTool);
        }
        let names = &lints[i].1;
        let ghost nv = names@.map_values(|n: String| n@);
        let mut j: usize = 0;
        while j < names.len()
            invariant
                i < lints@.len(),
                lints@[i as int].1@ == names@,
                nv == names@.map_values(|n: String| n@),
                spec_supported_tool(lints@[i as int].0@),
                spec_verify_lints(lints@, 0) == spec_verify_lints(lints@, i as int),
                j <= nv.len(),
                spec_verify_tool_lints(lints@[i as int].0@, nv, 0) == spec_verify_tool_lints(
                    lints@[i as int].0@,
                    nv,
                    j as int,
                ),
            decreases nv.len() - j,
        {
            if qualified(names[j].as_str()) {
                return Err(LintError::QualifiedLintName);
            }
            j = j + 1;
        }
        i = i + 1;
    }
    Ok(())
}

/// A manifest field that is either a value of its own or inherited from
/// the workspace root.
pub enum InheritableString {
    Value { value: String },
    Inherit,
}

/// How workspace inheritance fails.
#[derive(Debug, PartialEq, Eq, Structural)]
pub enum InheritError {
    /// The workspace root does not define the inherited field.
    NotInWorkspace,
    /// `workspace = true` beside explicit entries of the member's own.
    OverrideConflict,
}

/// Resolves a possibly inherited field: a value of the member's own wins,
/// otherwise the workspace root must define one.
pub fn field_inherit_with(field: &InheritableString, ws_value: Option<&String>) -> (r: Result<
    String,
    InheritError,
>)
    ensures
        match field {
            InheritableString::Value { value } => r matches Ok(v) && v@ == value@,
            InheritableString::Inherit => match ws_value {
                Some(w) => r matches Ok(v) && v@ == w@,
                None => r == Err::<String, InheritError>(InheritError::NotInWorkspace),
            },
        },
{
    match field {
        InheritableString::Value { value } => Ok(String::from_str(value.as_str())),
        InheritableString::Inherit => match ws_value {
            Some(w) => Ok(String::from_str(w.as_str())),
            None => Err(InheritError::NotInWorkspace),
        },
    }
}

/// A member's lint table: its own entries, or the workspace root's.
pub struct InheritableLints {
    pub workspace: bool,
    pub lints: Vec<String>,
}

/// Resolves a possibly inherited lint table.  `workspace = true` forbids
/// entries of the member's own and requires the root to define the table.
pub fn lints_inherit_with(lints: &InheritableLints, ws_lints: Option<&Vec<String>>) -> (r: Result<
    Vec<String>,
    InheritError,
>)
    ensures
        !lints.workspace ==> (r matches Ok(v) && v@.map_values(|l: String| l@)
            == lints.lints@.map_values(|l: String| l@)),
        lints.workspace && lints.lints@.len() > 0 ==> r == Err::<Vec<String>, InheritError>(
            InheritError::OverrideConflict,
        ),
        lints.workspace && lints.lints@.len() == 0 ==> match ws_lints {
            Some(w) => r matches Ok(v) && v@.map_values(|l: String| l@) == w@.map_values(
                |l: String| l@,
            ),
            None => r == Err::<Vec<String>, InheritError>(InheritError::NotInWorkspace),
        },
{
    if lints.workspace {
        if lints.lints.len() > 0 {
            return Err(InheritError::OverrideConflict);
        }
        match ws_lints {
            Some(w) => Ok(clone_strings(w)),
            None => Err(InheritError::NotInWorkspace),
        }
    } else {
        Ok(clone_strings(&lints.lints))
    }
}

/// Copies a list of strings.
fn clone_strings(v: &Vec<String>) -> (r: Vec<String>)
    ensures
        r@.map_values(|s: String| s@) == v@.map_values(|s: String| s@),
{
    let mut out: Vec<String> = Vec::new();
    let mut i: usize = 0;
    while i < v.len()
        invariant
            i <= v@.len(),
            out@.map_values(|s: String| s@) =~= v@.subrange(0, i as int).map_values(
                |s: String| s@,
            ),
        decreases v@.len() - i,
    {
        let ghost pre = out@;
        out.push(String::from_str(v[i].as_str()));
        proof {
            assert(out@.map_values(|s: String| s@) =~= pre.map_values(|s: String| s@).push(
                v@[i as int]@,
            ));
            assert(out@.map_values(|s: String| s@) =~= v@.subrange(0, i + 1).map_values(
                |s: String| s@,
            ));
        }
        i = i + 1;
    }
    proof {
        assert(v@.subrange(0, v@.len() as int) =~= v@);
    }
    out
}

/// Resolves the readme of a package: an explicit name or switch wins, and
/// without one the package root is searched for the default readme names.
pub fn resolve_package_readme(
    fs: &FsTree,
    package_root: &str,
    readme: Option<&crate::profiles::StringOrBool>,
) -> (r: Option<String>)
    requires
        fs.inv(),
    ensures
        match readme {
            Some(crate::profiles::StringOrBool::Flag { value: false }) => r is None,
            Some(crate::profiles::StringOrBool::Flag { value: true }) => r matches Some(v) && v@
                == "README.md"@,
            Some(crate::profiles::StringOrBool::Text { value }) => r matches Some(v) && v@
                == value@,
            None => match r {
                Some(v) => fs@.contains_key(
                    crate::fstree::spec_path_join(package_root@, v@),
                ) && (v@ == "README.md"@ || v@ == "README.txt"@ || v@ == "README"@),
                None => true,
            },
        },
{
    match readme {
        None => default_readme_from_package_root(fs, package_root),
        Some(crate::profiles::StringOrBool::Flag { value: false }) => None,
        Some(crate::profiles::StringOrBool::Flag { value: true }) => Some(
            String::from_str("README.md"),
        ),
        Some(crate::profiles::StringOrBool::Text { value }) => Some(
            String::from_str(value.as_str()),
        ),
    }
}

/// Checks the package root for the default readme file names, most specific
/// first.
pub fn default_readme_from_package_root(fs: &FsTree, package_root: &str) -> (r: Option<String>)
    requires
        fs.inv(),
    ensures
        match r {
            Some(v) => fs@.contains_key(crate::fstree::spec_path_join(package_root@, v@)) && (v@
                == "README.md"@ || v@ == "README.txt"@ || v@ == "README"@),
            None => {
                &&& !fs@.contains_key(crate::fstree::spec_path_join(package_root@, "README.md"@))
                &&& !fs@.contains_key(
                    crate::fstree::spec_path_join(package_root@, "README.txt"@),
                )
                &&& !fs@.contains_key(crate::fstree::spec_path_join(package_root@, "README"@))
            },
        },
{
    if fs.exists_file(crate::fstree::path_join(package_root, "README.md").as_str()) {
        return Some(String::from_str("README.md"));
    }
    if fs.exists_file(crate::fstree::path_join(package_root, "README.txt").as_str()) {
        return Some(String::from_str("README.txt"));
    }
    if fs.exists_file(crate::fstree::path_join(package_root, "README").as_str()) {
        return Some(String::from_str("README"));
    }
    None
}

/// One build target: its name and the source path it is built from.
pub struct BuildTarget {
    pub name: String,
    pub src_path: String,
}

/// Whether two targets collide on the same source file.
pub open spec fn spec_same_src(a: BuildTarget, b: BuildTarget, root: Seq<char>) -> bool {
    crate::fstree::spec_path_join(root, a.src_path@) == crate::fstree::spec_path_join(
        root,
        b.src_path@,
    )
}

/// Checks that no two build targets share a source file; a shared path is
/// returned as the offending file.
pub fn unique_build_targets(targets: &Vec<BuildTarget>, package_root: &str) -> (r: Result<
    (),
    String,
>)
    ensures
        match r {
            Ok(()) => forall|i: int, j: int|
                0 <= i < j < targets@.len() ==> !spec_same_src(
                    #[trigger] targets@[i],
                    #[trigger] targets@[j],
                    package_root@,
                ),
            Err(p) => exists|i: int, j: int|
                0 <= i < j < targets@.len() && spec_same_src(
                    #[trigger] targets@[i],
                    #[trigger] targets@[j],
                    package_root@,
                ) && p@ == crate::fstree::spec_path_join(package_root@, targets@[i].src_path@),
        },
{
    let mut i: usize = 0;
    while i < targets.len()
        invariant
            i <= targets@.len(),
            forall|a: int, b: int|
                0 <= a < b < targets@.len() && a < i ==> !spec_same_src(
                    #[trigger] targets@[a],
                    #[trigger] targets@[b],
                    package_root@,
                ),
        decreases targets@.len() - i,
    {
        let full_i = crate::fstree::path_join(package_root, targets[i].src_path.as_str());
        let mut j: usize = i + 1;
        while j < targets.len()
            invariant
                i < targets@.len(),
                i < j,
                j <= targets@.len(),
                full_i@ == crate::fstree::spec_path_join(package_root@, targets@[i as int].src_path@),
                forall|b: int|
                    i < b < j ==> !spec_same_src(
                        #[trigger] targets@[i as int],
                        targets@[b],
                        package_root@,
                    ),
            decreases targets@.len() - j,
        {
            let full_j = crate::fstree::path_join(package_root, targets[j].src_path.as_str());
            if str_eq(full_i.as_str(), full_j.as_str()) {
                proof {
                    assert(spec_same_src(targets@[i as int], targets@[j as int], package_root@));
                }
                return Err(full_i);
            }
            j = j + 1;
        }
        i = i + 1;
    }
    Ok(())
}

/// A dependency entry that is a bare version requirement or a detailed
/// table.
pub enum TomlDependency {
    Simple { version: String },
    Detailed { dep: TomlDetailedDependency },
}

/// The keys a member may set beside `workspace = true` on an inherited
/// dependency.
pub struct TomlInheritedDependency {
    pub features: Option<Vec<String>>,
    pub optional: Option<bool>,
    pub default_features: Option<bool>,
    pub public: Option<bool>,
}

/// The view of an optional string list.
pub open spec fn opt_strs_view(o: Option<Vec<String>>) -> Option<Seq<Seq<char>>> {
    match o {
        Some(v) => Some(v@.map_values(|s: String| s@)),
        None => None,
    }
}

/// Merges a member's inherited dependency with the workspace root's entry.
///
/// A bare workspace version stays bare unless the member adds keys of its
/// own; a detailed workspace entry keeps its fields, with the member's
/// feature list appended to the workspace's, the member's `optional` taken
/// as is, and `default-features = true` of the member overriding a
/// workspace `false`.  A member's `default-features = false` cannot turn
/// the workspace's choice off and is warned about and ignored.
pub fn inner_dependency_inherit_with(
    dependency: &TomlInheritedDependency,
    name: &str,
    ws_dep: &TomlDependency,
    warnings: &mut Vec<String>,
) -> (r: TomlDependency)
    ensures
        match ws_dep {
            TomlDependency::Simple { version } => {
                if dependency.optional is Some || dependency.features is Some
                    || dependency.public is Some {
                    r matches TomlDependency::Detailed { dep } && dep.version matches Some(v)
                        && v@ == version@ && dep.optional == dependency.optional
                        && opt_strs_view(dep.features) == opt_strs_view(dependency.features)
                        && dep.public == dependency.public && dep.git is None && dep.path is None
                        && dep.patches is None
                } else {
                    r matches TomlDependency::Simple { version: v } && v@ == version@
                }
            },
            TomlDependency::Detailed { dep: w } => {
                r matches TomlDependency::Detailed { dep } && {
                    &&& dep.version == w.version || (dep.version matches Some(v)
                        && w.version matches Some(wv) && v@ == wv@)
                    &&& dep.optional == dependency.optional
                    &&& dep.default_features == (
                    if dependency.default_features == Some(true) && w.default_features == Some(
                        false,
                    ) {
                        Some(true)
                    } else {
                        w.default_features
                    })
                    &&& opt_strs_view(dep.features) == spec_merged_features(
                        opt_strs_view(w.features),
                        opt_strs_view(dependency.features),
                    )
                }
            },
        },
{
    match ws_dep {
        TomlDependency::Simple { version } => {
            if dependency.default_features == Some(false) {
                default_features_msg(name, None, warnings);
            }
            if dependency.optional.is_some() || dependency.features.is_some()
                || dependency.public.is_some() {
                let mut dep = TomlDetailedDependency::empty();
                dep.version = Some(String::from_str(version.as_str()));
                dep.optional = dependency.optional;
                dep.features = match &dependency.features {
                    Some(f) => Some(clone_strings(f)),
                    None => None,
                };
                dep.public = dependency.public;
                TomlDependency::Detailed { dep }
            } else {
                TomlDependency::Simple { version: String::from_str(version.as_str()) }
            }
        },
        TomlDependency::Detailed { dep: w } => {
            let mut dep = clone_detailed(w);
            if dependency.default_features == Some(true) && w.default_features == Some(false) {
                dep.default_features = Some(true);
            } else if dependency.default_features == Some(false) && w.default_features == Some(
                true,
            ) {
                default_features_msg(name, Some(true), warnings);
            } else if dependency.default_features == Some(false) && w.default_features.is_none() {
                default_features_msg(name, None, warnings);
            }
            dep.features = match (&w.features, &dependency.features) {
                (Some(wf), Some(mf)) => {
                    let mut both = clone_strings(wf);
                    let mut member = clone_strings(mf);
                    let ghost wfv = both@.map_values(|s: String| s@);
                    let ghost mfv = member@.map_values(|s: String| s@);
                    both.append(&mut member);
                    proof {
                        assert(both@.map_values(|s: String| s@) =~= wfv + mfv);
                    }
                    Some(both)
                },
                (Some(wf), None) => Some(clone_strings(wf)),
                (None, Some(mf)) => Some(clone_strings(mf)),
                (None, None) => None,
            };
            dep.optional = dependency.optional;
            TomlDependency::Detailed { dep }
        },
    }
}

/// The feature lists of the workspace entry and the member, appended.
pub open spec fn spec_merged_features(
    ws: Option<Seq<Seq<char>>>,
    member: Option<Seq<Seq<char>>>,
) -> Option<Seq<Seq<char>>> {
    match (ws, member) {
        (Some(a), Some(b)) => Some(a + b),
        (Some(a), None) => Some(a),
        (None, Some(b)) => Some(b),
        (None, None) => None,
    }
}

/// Warns that a member's `default-features` choice is ignored.
fn default_features_msg(label: &str, ws_def_feat: Option<bool>, warnings: &mut Vec<String>)
    ensures
        final(warnings)@.len() == old(warnings)@.len() + 1,
        forall|j: int|
            0 <= j < old(warnings)@.len() ==> #[trigger] final(warnings)@[j] == old(warnings)@[j],
{
    let mut msg = String::from_str("`default-features` is ignored for ");
    msg.append(label);
    msg.append(", since `default-features` was ");
    match ws_def_feat {
        Some(true) => msg.append("true"),
        Some(false) => msg.append("false"),
        None => msg.append("not specified"),
    }
    msg.append(" for `workspace.dependencies.");
    msg.append(label);
    msg.append("`");
    warnings.push(msg);
}

/// Copies a detailed dependency entry.
fn clone_detailed(d: &TomlDetailedDependency) -> (r: TomlDetailedDependency)
    ensures
        r.version == d.version || (r.version matches Some(v) && d.version matches Some(w) && v@
            == w@),
        (r.version is Some) == (d.version is Some),
        (r.path is Some) == (d.path is Some),
        (r.git is Some) == (d.git is Some),
        r.optional == d.optional,
        r.default_features == d.default_features,
        r.public == d.public,
        opt_strs_view(r.features) == opt_strs_view(d.features),
        (r.patches is Some) == (d.patches is Some),
{
    let mut out = TomlDetailedDependency::empty();
    out.version = clone_opt_string(&d.version);
    out.path = clone_opt_string(&d.path);
    out.git = clone_opt_string(&d.git);
    out.branch = clone_opt_string(&d.branch);
    out.tag = clone_opt_string(&d.tag);
    out.rev = clone_opt_string(&d.rev);
    out.registry = clone_opt_string(&d.registry);
    out.registry_index = clone_opt_string(&d.registry_index);
    out.features = match &d.features {
        Some(f) => Some(clone_strings(f)),
        None => None,
    };
    out.optional = d.optional;
    out.default_features = d.default_features;
    out.public = d.public;
    out.patches = match &d.patches {
        Some(p) => Some(clone_strings(p)),
        None => None,
    };
    out
}

/// Copies an optional string.
fn clone_opt_string(o: &Option<String>) -> (r: Option<String>)
    ensures
        (r is Some) == (o is Some),
        r matches Some(v) ==> o matches Some(w) && v@ == w@,
{
    match o {
        Some(s) => Some(String::from_str(s.as_str())),
        None => None,
    }
}

/// Resolves a possibly inherited dependency entry: a value of the member's
/// own is used as it stands; `workspace = true` merges the member's extra
/// keys into the workspace root's entry.
pub fn dependency_inherit_with(
    dependency: &TomlInheritedDependency,
    name: &str,
    ws_dep: Option<&TomlDependency>,
    warnings: &mut Vec<String>,
) -> (r: Result<TomlDependency, InheritError>)
    ensures
        ws_dep is None ==> r == Err::<TomlDependency, InheritError>(InheritError::NotInWorkspace),
        ws_dep is Some ==> r is Ok,
{
    match ws_dep {
        Some(w) => Ok(inner_dependency_inherit_with(dependency, name, w, warnings)),
        None => Err(InheritError::NotInWorkspace),
    }
}

/// The manifest pieces that publishing rewrites: the package identity, a
/// dependency table, and the patch table.  The original rewrites every
/// dependency table (normal, dev, build, per-target) the same way; the
/// model carries one.
pub struct PublishManifest {
    pub package: ModelManifest,
    pub dependencies: Vec<(String, TomlDependency)>,
    pub patch: Vec<(String, TomlDetailedDependency)>,
}

/// How a published dependency entry relates to the local one: local path
/// and git components are gone, a named registry stands in the index
/// position, the version and feature switches survive, and no patch files
/// are carried.
pub open spec fn spec_published_dep_ok(src: TomlDependency, out: TomlDependency) -> bool {
    out matches TomlDependency::Detailed { dep } && {
        &&& dep.path is None
        &&& dep.git is None
        &&& dep.branch is None
        &&& dep.tag is None
        &&& dep.rev is None
        &&& dep.registry is None
        &&& dep.patches is None
        &&& (match src {
            TomlDependency::Simple { version } => {
                &&& dep.version matches Some(v) && v@ == version@
                &&& dep.registry_index is None
                &&& dep.features is None
                &&& dep.optional is None
                &&& dep.default_features is None
                &&& dep.public is None
            },
            TomlDependency::Detailed { dep: d } => {
                &&& (dep.version is Some) == (d.version is Some)
                &&& (dep.version matches Some(v) ==> d.version matches Some(w) && v@ == w@)
                &&& (match (d.registry, d.registry_index) {
                    (Some(reg), _) => dep.registry_index matches Some(ri) && ri@ == reg@,
                    (None, Some(ri0)) => dep.registry_index matches Some(ri) && ri@ == ri0@,
                    (None, None) => dep.registry_index is None,
                })
                &&& opt_strs_view(dep.features) == opt_strs_view(d.features)
                &&& dep.optional == d.optional
                &&& dep.default_features == d.default_features
                &&& dep.public == d.public
            },
        })
    }
}

/// Maps one dependency entry to its published form.
fn publish_dependency(src: &TomlDependency) -> (r: TomlDependency)
    ensures
        spec_published_dep_ok(*src, r),
{
    match src {
        TomlDependency::Simple { version } => {
            let mut dep = TomlDetailedDependency::empty();
            dep.version = Some(String::from_str(version.as_str()));
            TomlDependency::Detailed { dep }
        },
        TomlDependency::Detailed { dep: d } => {
            let mut dep = TomlDetailedDependency::empty();
            dep.version = clone_opt_string(&d.version);
            dep.registry_index = match (&d.registry, &d.registry_index) {
                (Some(reg), _) => Some(String::from_str(reg.as_str())),
                (None, Some(ri)) => Some(String::from_str(ri.as_str())),
                (None, None) => None,
            };
            dep.features = match &d.features {
                Some(f) => Some(clone_strings(f)),
                None => None,
            };
            dep.optional = d.optional;
            dep.default_features = d.default_features;
            dep.public = d.public;
            TomlDependency::Detailed { dep }
        },
    }
}

/// Prepares a manifest for publishing: the package identity survives, every
/// dependency loses its local path and git components, and the patch table
/// is not carried at all — a published package cannot bring patch files
/// along.
pub fn prepare_for_publish(m: &PublishManifest) -> (r: PublishManifest)
    ensures
        r.package.name@ == m.package.name@,
        r.package.version@ == m.package.version@,
        r.patch@.len() == 0,
        r.dependencies@.len() == m.dependencies@.len(),
        forall|i: int|
            0 <= i < m.dependencies@.len() ==> (#[trigger] r.dependencies@[i].0)@
                == m.dependencies@[i].0@ && spec_published_dep_ok(
                m.dependencies@[i].1,
                r.dependencies@[i].1,
            ),
{
    let mut dependencies: Vec<(String, TomlDependency)> = Vec::new();
    let mut i: usize = 0;
    while i < m.dependencies.len()
        invariant
            i <= m.dependencies@.len(),
            dependencies@.len() == i,
            forall|j: int|
                0 <= j < i ==> (#[trigger] dependencies@[j].0)@ == m.dependencies@[j].0@
                    && spec_published_dep_ok(m.dependencies@[j].1, dependencies@[j].1),
        decreases m.dependencies@.len() - i,
    {
        let name = String::from_str(m.dependencies[i].0.as_str());
        let dep = publish_dependency(&m.dependencies[i].1);
        dependencies.push((name, dep));
        i = i + 1;
    }
    PublishManifest {
        package: ModelManifest {
            name: String::from_str(m.package.name.as_str()),
            version: String::from_str(m.package.version.as_str()),
        },
        dependencies,
        patch: Vec::new(),
    }
}

/// A key with dashes turned into underscores: the deprecated spelling of a
/// dashed manifest key.
pub open spec fn spec_underscored(s: Seq<char>) -> Seq<char> {
    crate::strutil::spec_join(crate::strutil::spec_split(s, '-'), '_')
}

/// Warns that the deprecated underscore spelling of a dashed key is present
/// beside the new one and is ignored.
pub fn warn_on_deprecated(new_path: &str, name: &str, kind: &str, warnings: &mut Vec<String>)
    ensures
        final(warnings)@.len() == old(warnings)@.len() + 1,
        forall|j: int|
            0 <= j < old(warnings)@.len() ==> #[trigger] final(warnings)@[j] == old(warnings)@[j],
        final(warnings)@.last()@ == "conflicting between `"@ + new_path@ + "` and `"@
            + spec_underscored(new_path@) + "` in the `"@ + name@ + "` "@ + kind@
            + "; the deprecated spelling `"@ + spec_underscored(new_path@) + "` is ignored"@,
{
    let parts = crate::strutil::split_char(new_path, '-');
    proof {
        reveal_strlit("_");
        crate::strutil::lemma_split_len(new_path@, '-');
        assert("_"@ =~= seq!['_']);
    }
    let old_path = crate::strutil::join_char(&parts, "_");
    let mut msg = String::from_str("conflicting between `");
    msg.append(new_path);
    msg.append("` and `");
    msg.append(old_path.as_str());
    msg.append("` in the `");
    msg.append(name);
    msg.append("` ");
    msg.append(kind);
    msg.append("; the deprecated spelling `");
    msg.append(old_path.as_str());
    msg.append("` is ignored");
    warnings.push(msg);
}

/// Whether some warning in `[lo, hi)` names an unused key.
pub open spec fn spec_has_unused_warning(
    ws: Seq<String>,
    lo: int,
    hi: int,
    key: Seq<char>,
) -> bool {
    exists|j: int|
        lo <= j < hi && (#[trigger] ws[j])@ == "unused manifest key: "@ + key
}

/// Warns about every unused manifest key, with a hint for the common
/// misspelling of the profile table.
pub fn warn_on_unused(unused: &Vec<String>, warnings: &mut Vec<String>)
    ensures
        forall|j: int|
            0 <= j < old(warnings)@.len() ==> #[trigger] final(warnings)@[j] == old(warnings)@[j],
        final(warnings)@.len() >= old(warnings)@.len() + unused@.len(),
        forall|k: int|
            0 <= k < unused@.len() ==> #[trigger] spec_has_unused_warning(
                final(warnings)@,
                old(warnings)@.len() as int,
                final(warnings)@.len() as int,
                unused@[k]@,
            ),
{
    let mut i: usize = 0;
    while i < unused.len()
        invariant
            i <= unused@.len(),
            warnings@.len() >= old(warnings)@.len() + i,
            forall|j: int|
                0 <= j < old(warnings)@.len() ==> #[trigger] warnings@[j] == old(warnings)@[j],
            forall|k: int|
                0 <= k < i ==> #[trigger] spec_has_unused_warning(
                    warnings@,
                    old(warnings)@.len() as int,
                    warnings@.len() as int,
                    unused@[k]@,
                ),
        decreases unused@.len() - i,
    {
        let ghost w_pre = warnings@;
        let mut msg = String::from_str("unused manifest key: ");
        msg.append(unused[i].as_str());
        let ghost msgv = msg@;
        let ghost pre_len = warnings@.len();
        warnings.push(msg);
        if str_eq(unused[i].as_str(), "profiles.debug") {
            warnings.push(String::from_str("use `[profile.dev]` to configure debug builds"));
        }
        proof {
            assert(warnings@[pre_len as int]@ == "unused manifest key: "@ + unused@[i as int]@);
            assert forall|k: int| 0 <= k < i + 1 implies #[trigger] spec_has_unused_warning(
                warnings@,
                old(warnings)@.len() as int,
                warnings@.len() as int,
                unused@[k]@,
            ) by {
                if k < i {
                    assert(spec_has_unused_warning(
                        w_pre,
                        old(warnings)@.len() as int,
                        w_pre.len() as int,
                        unused@[k]@,
                    ));
                    let j = choose|j: int|
                        old(warnings)@.len() <= j < w_pre.len() && (#[trigger] w_pre[j])@
                            == "unused manifest key: "@ + (unused@[k])@;
                    assert(warnings@[j] == w_pre[j]);
                    assert((warnings@[j])@ == "unused manifest key: "@ + unused@[k]@);
                } else {
                    assert((warnings@[pre_len as int])@ == "unused manifest key: "@
                        + (unused@[k])@);
                }
            }
        }
        i = i + 1;
    }
}

/// A path text with platform separators turned into forward slashes.
pub open spec fn spec_normalize_sep(p: Seq<char>) -> Seq<char> {
    crate::strutil::spec_join(crate::strutil::spec_split(p, '\\'), '/')
}

/// Normalizes path separators in a path text to forward slashes.
pub fn normalize_path_string_sep(p: &str) -> (r: String)
    ensures
        r@ == spec_normalize_sep(p@),
{
    let parts = crate::strutil::split_char(p, '\\');
    proof {
        reveal_strlit("/");
        crate::strutil::lemma_split_len(p@, '\\');
        assert("/"@ =~= seq!['/']);
    }
    crate::strutil::join_char(&parts, "/")
}

} // verus!
