//! The content-addressed cache of patched source trees.
//!
//! A cache entry is a directory holding a copy of the inner source with the
//! patches applied, plus an empty completion marker file.  The marker is
//! written last: an entry without it is half-built and is discarded and
//! rebuilt on the next use, which is all the crash recovery the cache needs.

use vstd::map::*;
use vstd::prelude::*;

use crate::errors::Error;
use crate::fstree::{
    keys_under, spec_copy_subtree, spec_path_join, FsTree, path_join,
};
use crate::hasher::digest_of;
use crate::ids::{spec_to_url, SourceId, SourceIdV};
use crate::patch::{apply_patch_file, spec_apply_ops, spec_patch_files, ApplyErr};
use crate::strutil::{is_hex_seq, spec_find_char};

verus! {

/// The name of the completion marker file inside a cache entry.
pub open spec fn spec_ready_marker() -> Seq<char> {
    ".cargo-ok"@
}

/// The host part of a URL: the text between `://` and the next delimiter.
pub open spec fn spec_host_of(url: Seq<char>) -> Seq<char>
    decreases url.len(),
{
    if url.len() >= 3 && url.subrange(0, 3) == "://"@ {
        spec_host_tail(url.skip(3), 0)
    } else if url.len() == 0 {
        Seq::empty()
    } else {
        spec_host_of(url.skip(1))
    }
}

/// The prefix of `s` up to the first delimiter at or after `from`.
pub open spec fn spec_host_tail(s: Seq<char>, from: int) -> Seq<char>
    decreases s.len() - from,
{
    if from < 0 || from >= s.len() {
        s.subrange(0, s.len() as int)
    } else if s[from] == '/' || s[from] == '?' || s[from] == '#' || s[from] == ':' {
        s.subrange(0, from)
    } else {
        spec_host_tail(s, from + 1)
    }
}

/// Extracts the host of a URL.
pub fn host_of(url: &str) -> (r: String)
    ensures
        r@ == spec_host_of(url@),
{
    let len = url.unicode_len();
    let mut i: usize = 0;
    proof {
        assert(url@.skip(0) =~= url@);
    }
    while i < len
        invariant
            len == url@.len(),
            i <= len,
            spec_host_of(url@) == spec_host_of(url@.skip(i as int)),
        decreases len - i,
    {
        if len - i >= 3 && starts_here(url, i) {
            proof {
                assert(url@.skip(i as int).subrange(0, 3) =~= "://"@);
                assert(url@.skip(i as int).skip(3) =~= url@.skip(i as int + 3));
            }
            let mut j: usize = i + 3;
            let ghost tail = url@.skip(i as int + 3);
            while j < len && !delim_at(url, j)
                invariant
                    len == url@.len(),
                    i + 3 <= j <= len,
                    tail == url@.skip(i as int + 3),
                    spec_host_tail(tail, 0) == spec_host_tail(tail, j - i - 3),
                decreases len - j,
            {
                j = j + 1;
            }
            let host = String::from_str(url.substring_char(i + 3, j));
            proof {
                if j < len {
                    assert(spec_host_tail(tail, j - i - 3) =~= tail.subrange(0, j - i - 3));
                } else {
                    assert(spec_host_tail(tail, j - i - 3) =~= tail.subrange(
                        0,
                        tail.len() as int,
                    ));
                }
                assert(host@ =~= spec_host_tail(tail, j - i - 3));
            }
            return host;
        }
        proof {
            assert(url@.skip(i as int).len() > 0);
            if i + 3 <= len && url@.skip(i as int).len() >= 3 {
                if url@.skip(i as int).subrange(0, 3) == "://"@ {
                    assert(url@.subrange(i as int, i as int + 3) =~= url@.skip(
                        i as int,
                    ).subrange(0, 3));
                    assert(false);
                }
            }
            assert(url@.skip(i as int).skip(1) =~= url@.skip(i as int + 1));
        }
        i = i + 1;
    }
    proof {
        assert(url@.skip(len as int) =~= Seq::<char>::empty());
    }
    String::new()
}

/// Whether `://` stands at position `i`.
fn starts_here(url: &str, i: usize) -> (r: bool)
    requires
        i + 3 <= url@.len(),
    ensures
        r == (url@.subrange(i as int, i as int + 3) == "://"@),
{
    proof {
        reveal_strlit("://");
    }
    let len = url.unicode_len();
    let r = url.get_char(i) == ':' && url.get_char(i + 1) == '/' && url.get_char(i + 2) == '/';
    proof {
        if r {
            assert(url@.subrange(i as int, i as int + 3) =~= "://"@);
        } else {
            if url@.subrange(i as int, i as int + 3) == "://"@ {
                assert(url@.subrange(i as int, i as int + 3)[0] == ':');
                assert(url@.subrange(i as int, i as int + 3)[1] == '/');
                assert(url@.subrange(i as int, i as int + 3)[2] == '/');
            }
        }
    }
    r
}

/// Whether a host delimiter stands at position `j`.
fn delim_at(url: &str, j: usize) -> (r: bool)
    requires
        j < url@.len(),
    ensures
        r == (url@[j as int] == '/' || url@[j as int] == '?' || url@[j as int] == '#'
            || url@[j as int] == ':'),
{
    let c = url.get_char(j);
    c == '/' || c == '?' || c == '#' || c == ':'
}

/// The 16-character stable short hash of an identifier.
pub open spec fn spec_short_hash(v: SourceIdV) -> Seq<char> {
    digest_of(spec_to_url(v)).subrange(0, 16)
}

/// The cache directory of one materialized entry.
///
/// For a registry inner source the entry is per package:
/// `<root>/patched-src/<host>-<hash>/<name>-<version>/<short-cksum>`.
/// For a git inner source it is per repository:
/// `<root>/patched-src/<host>-<hash>-<rev>-<short-cksum>`, so that sibling
/// packages of one repository share a single patched copy of the tree and
/// workspace inheritance keeps working.
pub open spec fn spec_path_for(
    root: Seq<char>,
    inner: SourceIdV,
    name: Seq<char>,
    version: Seq<char>,
    cksum: Seq<char>,
) -> Seq<char> {
    let short = cksum.subrange(0, 8);
    match inner {
        SourceIdV::Git { url, precise } => {
            let rev = match precise {
                Some(r) => r,
                None => "HEAD"@,
            };
            root + "/patched-src/"@ + spec_host_of(url) + seq!['-'] + spec_short_hash(inner)
                + seq!['-'] + rev + seq!['-'] + short
        },
        SourceIdV::Registry { url } => {
            root + "/patched-src/"@ + spec_host_of(url) + seq!['-'] + spec_short_hash(inner)
                + seq!['/'] + name + seq!['-'] + version + seq!['/'] + short
        },
        _ => Seq::empty(),
    }
}

/// Computes the cache directory of one entry.  Pure: no part of the tree is
/// read or written.
pub fn path_for(root: &str, inner: &SourceId, name: &str, version: &str, cksum: &str) -> (r:
    String)
    requires
        cksum@.len() >= 8,
        inner@ matches SourceIdV::Registry { .. } || inner@ matches SourceIdV::Git { .. },
    ensures
        r@ == spec_path_for(root@, inner@, name@, version@, cksum@),
{
    let mut out = String::from_str(root);
    out.append("/patched-src/");
    proof {
        reveal_strlit("/patched-src/");
        reveal_strlit("-");
        reveal_strlit("/");
        reveal_strlit("HEAD");
        assert("-"@ =~= seq!['-']);
        assert("/"@ =~= seq!['/']);
    }
    let short = crate::hasher::digest_prefix(cksum, 8);
    let hash = inner.short_hash();
    match inner {
        SourceId::Git { url, precise } => {
            let host = host_of(url.as_str());
            out.append(host.as_str());
            out.append("-");
            out.append(hash.as_str());
            out.append("-");
            match precise {
                Some(r) => out.append(r.as_str()),
                None => out.append("HEAD"),
            }
            out.append("-");
            out.append(short.as_str());
            proof {
                assert(out@ =~= spec_path_for(root@, inner@, name@, version@, cksum@));
            }
            out
        },
        SourceId::Registry { url } => {
            let host = host_of(url.as_str());
            out.append(host.as_str());
            out.append("-");
            out.append(hash.as_str());
            out.append("/");
            out.append(name);
            out.append("-");
            out.append(version);
            out.append("/");
            out.append(short.as_str());
            proof {
                assert(out@ =~= spec_path_for(root@, inner@, name@, version@, cksum@));
            }
            out
        },
        _ => unreached(),
    }
}

/// What materialization can report.
pub enum MatErr {
    /// A patch file was absent from the tree.
    Io { path: Seq<char> },
    /// A patch file could not be parsed.
    Malformed { path: Seq<char> },
    /// A patch file held no file hunks.
    Empty { path: Seq<char> },
    /// A file operation failed.
    Apply { err: ApplyErr },
}

/// One patch file applied to the tree, as `apply_patch_file` does it.
pub open spec fn spec_patch_step(
    m: Map<Seq<char>, Seq<char>>,
    ppath: Seq<char>,
    dst: Seq<char>,
) -> (Map<Seq<char>, Seq<char>>, Option<MatErr>) {
    if !m.contains_key(ppath) {
        (m, Some(MatErr::Io { path: ppath }))
    } else {
        match spec_patch_files(m[ppath]) {
            None => (m, Some(MatErr::Malformed { path: ppath })),
            Some(fps) => if fps.len() == 0 {
                (m, Some(MatErr::Empty { path: ppath }))
            } else {
                let (m2, err) = spec_apply_ops(m, fps, dst);
                match err {
                    None => (m2, None),
                    Some(e) => (m2, Some(MatErr::Apply { err: e })),
                }
            },
        }
    }
}

/// Whether an error value reports a materialization failure with the right
/// kind and payload.
pub open spec fn spec_mat_err_matches(me: MatErr, e: Error) -> bool {
    match me {
        MatErr::Io { path } => e matches Error::IoError { path: p } && p@ == path,
        MatErr::Malformed { path } => e matches Error::MalformedPatch { path: p } && p@ == path,
        MatErr::Empty { path } => e matches Error::EmptyPatch { path: p } && p@ == path,
        MatErr::Apply { err: crate::patch::ApplyErr::MissingSource { path } } => e matches
            Error::MissingSource { path: p } && p@ == path,
        MatErr::Apply { err: crate::patch::ApplyErr::HunkMismatch { path } } => e matches
            Error::HunkMismatch { path: p } && p@ == path,
    }
}

/// All patch files applied in order; the first failure stops the run.
pub open spec fn spec_run_patches(
    m: Map<Seq<char>, Seq<char>>,
    patches: Seq<Seq<char>>,
    dst: Seq<char>,
) -> (Map<Seq<char>, Seq<char>>, Option<MatErr>)
    decreases patches.len(),
{
    if patches.len() == 0 {
        (m, None)
    } else {
        let (m2, err) = spec_patch_step(m, patches[0], dst);
        match err {
            Some(e) => (m2, Some(e)),
            None => spec_run_patches(m2, patches.skip(1), dst),
        }
    }
}

/// Whether every file patch of a list creates its target from nothing.
pub open spec fn spec_creates_only(fps: Seq<crate::patch::FilePatchV>) -> bool {
    forall|i: int| 0 <= i < fps.len() ==> (#[trigger] fps[i]).src == "/dev/null"@
}

/// Whether every file patch of a list applies cleanly to an empty file.
/// For a create that is all that can fail, and it does not depend on the
/// tree.
pub open spec fn spec_creates_apply(fps: Seq<crate::patch::FilePatchV>) -> bool {
    forall|i: int|
        0 <= i < fps.len() ==> crate::patch::spec_apply_hunks(
            Seq::empty(),
            (#[trigger] fps[i]).hunks,
        ) is Some
}

/// The target keys a list of create patches writes under `dst`.
pub open spec fn spec_create_keys(fps: Seq<crate::patch::FilePatchV>, dst: Seq<char>) -> Set<
    Seq<char>,
> {
    Set::new(
        |k: Seq<char>|
            exists|i: int|
                0 <= i < fps.len() && k == spec_path_join(
                    dst,
                    crate::patch::spec_strip_first((#[trigger] fps[i]).dst),
                ),
    )
}

/// Create-only patches that apply cleanly fold into inserts.
proof fn lemma_creates_run(
    m: Map<Seq<char>, Seq<char>>,
    fps: Seq<crate::patch::FilePatchV>,
    from: int,
    dst: Seq<char>,
)
    requires
        0 <= from <= fps.len(),
        spec_creates_only(fps),
        spec_creates_apply(fps),
    ensures
        crate::patch::spec_apply_ops(m, fps.skip(from), dst) == (
            spec_create_fold_from(m, fps, from, dst),
            None::<crate::patch::ApplyErr>,
        ),
    decreases fps.len() - from,
{
    if from < fps.len() {
        let fp = fps[from];
        let key = spec_path_join(dst, crate::patch::spec_strip_first(fp.dst));
        let content = crate::patch::spec_unlines(
            crate::patch::spec_apply_hunks(Seq::empty(), fp.hunks)->Some_0,
        );
        assert(fps.skip(from)[0] == fp);
        assert(fps.skip(from).skip(1) =~= fps.skip(from + 1));
        lemma_creates_run(m.insert(key, content), fps, from + 1, dst);
    } else {
        assert(fps.skip(from) =~= Seq::<crate::patch::FilePatchV>::empty());
    }
}

/// The tree after the create patches from position `from` on.
pub open spec fn spec_create_fold_from(
    m: Map<Seq<char>, Seq<char>>,
    fps: Seq<crate::patch::FilePatchV>,
    from: int,
    dst: Seq<char>,
) -> Map<Seq<char>, Seq<char>>
    decreases fps.len() - from,
{
    if from < 0 || from >= fps.len() {
        m
    } else {
        spec_create_fold_from(
            m.insert(
                spec_path_join(dst, crate::patch::spec_strip_first(fps[from].dst)),
                crate::patch::spec_unlines(
                    crate::patch::spec_apply_hunks(Seq::empty(), fps[from].hunks)->Some_0,
                ),
            ),
            fps,
            from + 1,
            dst,
        )
    }
}

/// A key outside the create set keeps its status and value through the fold.
proof fn lemma_fold_untouched(
    m: Map<Seq<char>, Seq<char>>,
    fps: Seq<crate::patch::FilePatchV>,
    from: int,
    dst: Seq<char>,
    k: Seq<char>,
)
    requires
        0 <= from <= fps.len(),
        !spec_create_keys(fps, dst).contains(k),
    ensures
        spec_create_fold_from(m, fps, from, dst).contains_key(k) == m.contains_key(k),
        m.contains_key(k) ==> spec_create_fold_from(m, fps, from, dst)[k] == m[k],
    decreases fps.len() - from,
{
    if from < fps.len() {
        assert(k != spec_path_join(dst, crate::patch::spec_strip_first(fps[from].dst)));
        lemma_fold_untouched(
            m.insert(
                spec_path_join(dst, crate::patch::spec_strip_first(fps[from].dst)),
                crate::patch::spec_unlines(
                    crate::patch::spec_apply_hunks(Seq::empty(), fps[from].hunks)->Some_0,
                ),
            ),
            fps,
            from + 1,
            dst,
            k,
        );
    }
}

/// A key inside the create set ends with the same status and value from any
/// starting tree.
proof fn lemma_fold_determined(
    m1: Map<Seq<char>, Seq<char>>,
    m2: Map<Seq<char>, Seq<char>>,
    fps: Seq<crate::patch::FilePatchV>,
    from: int,
    dst: Seq<char>,
    k: Seq<char>,
)
    requires
        0 <= from <= fps.len(),
        m1.contains_key(k) == m2.contains_key(k),
        m1.contains_key(k) ==> m1[k] == m2[k],
    ensures
        spec_create_fold_from(m1, fps, from, dst).contains_key(k) == spec_create_fold_from(
            m2,
            fps,
            from,
            dst,
        ).contains_key(k),
        spec_create_fold_from(m1, fps, from, dst).contains_key(k)
            ==> spec_create_fold_from(m1, fps, from, dst)[k] == spec_create_fold_from(
            m2,
            fps,
            from,
            dst,
        )[k],
    decreases fps.len() - from,
{
    if from < fps.len() {
        let key = spec_path_join(dst, crate::patch::spec_strip_first(fps[from].dst));
        let content = crate::patch::spec_unlines(
            crate::patch::spec_apply_hunks(Seq::empty(), fps[from].hunks)->Some_0,
        );
        lemma_fold_determined(m1.insert(key, content), m2.insert(key, content), fps, from + 1, dst, k);
    }
}

/// Two patch files that only create files, with disjoint target sets that
/// also avoid each other's patch file, leave the same tree whichever is
/// applied first: disjoint patch-sets commute in effect, although their
/// checksums, and so their identities, differ.
pub proof fn lemma_disjoint_creates_commute(
    m: Map<Seq<char>, Seq<char>>,
    p1: Seq<char>,
    p2: Seq<char>,
    dst: Seq<char>,
)
    requires
        m.contains_key(p1),
        m.contains_key(p2),
        spec_patch_files(m[p1]) is Some,
        spec_patch_files(m[p2]) is Some,
        spec_patch_files(m[p1])->Some_0.len() > 0,
        spec_patch_files(m[p2])->Some_0.len() > 0,
        spec_creates_only(spec_patch_files(m[p1])->Some_0),
        spec_creates_only(spec_patch_files(m[p2])->Some_0),
        spec_creates_apply(spec_patch_files(m[p1])->Some_0),
        spec_creates_apply(spec_patch_files(m[p2])->Some_0),
        spec_create_keys(spec_patch_files(m[p1])->Some_0, dst).disjoint(
            spec_create_keys(spec_patch_files(m[p2])->Some_0, dst),
        ),
        !spec_create_keys(spec_patch_files(m[p1])->Some_0, dst).contains(p2),
        !spec_create_keys(spec_patch_files(m[p2])->Some_0, dst).contains(p1),
    ensures
        spec_run_patches(m, seq![p1, p2], dst).1 is None,
        spec_run_patches(m, seq![p2, p1], dst).1 is None,
        spec_run_patches(m, seq![p1, p2], dst).0 == spec_run_patches(m, seq![p2, p1], dst).0,
{
    let f1 = spec_patch_files(m[p1])->Some_0;
    let f2 = spec_patch_files(m[p2])->Some_0;
    lemma_one_then_other(m, p1, p2, dst);
    lemma_one_then_other(m, p2, p1, dst);
    let a = spec_create_fold_from(spec_create_fold_from(m, f1, 0, dst), f2, 0, dst);
    let b = spec_create_fold_from(spec_create_fold_from(m, f2, 0, dst), f1, 0, dst);
    assert_maps_equal!(a, b, k => {
            if spec_create_keys(f2, dst).contains(k) {
                lemma_fold_untouched(m, f1, 0, dst, k);
                lemma_fold_determined(spec_create_fold_from(m, f1, 0, dst), m, f2, 0, dst, k);
                lemma_fold_untouched(spec_create_fold_from(m, f2, 0, dst), f1, 0, dst, k);
            } else if spec_create_keys(f1, dst).contains(k) {
                lemma_fold_untouched(spec_create_fold_from(m, f1, 0, dst), f2, 0, dst, k);
                lemma_fold_untouched(m, f2, 0, dst, k);
                lemma_fold_determined(spec_create_fold_from(m, f2, 0, dst), m, f1, 0, dst, k);
            } else {
                lemma_fold_untouched(m, f1, 0, dst, k);
                lemma_fold_untouched(m, f2, 0, dst, k);
                lemma_fold_untouched(spec_create_fold_from(m, f1, 0, dst), f2, 0, dst, k);
                lemma_fold_untouched(spec_create_fold_from(m, f2, 0, dst), f1, 0, dst, k);
            }
    });
}

/// Running `first` then `second` succeeds and folds both create lists.
proof fn lemma_one_then_other(
    m: Map<Seq<char>, Seq<char>>,
    first: Seq<char>,
    second: Seq<char>,
    dst: Seq<char>,
)
    requires
        m.contains_key(first),
        m.contains_key(second),
        spec_patch_files(m[first]) is Some,
        spec_patch_files(m[second]) is Some,
        spec_patch_files(m[first])->Some_0.len() > 0,
        spec_patch_files(m[second])->Some_0.len() > 0,
        spec_creates_only(spec_patch_files(m[first])->Some_0),
        spec_creates_only(spec_patch_files(m[second])->Some_0),
        spec_creates_apply(spec_patch_files(m[first])->Some_0),
        spec_creates_apply(spec_patch_files(m[second])->Some_0),
        !spec_create_keys(spec_patch_files(m[first])->Some_0, dst).contains(second),
    ensures
        spec_run_patches(m, seq![first, second], dst).1 is None,
        spec_run_patches(m, seq![first, second], dst).0 == spec_create_fold_from(
            spec_create_fold_from(m, spec_patch_files(m[first])->Some_0, 0, dst),
            spec_patch_files(m[second])->Some_0,
            0,
            dst,
        ),
{
    let f1 = spec_patch_files(m[first])->Some_0;
    let f2 = spec_patch_files(m[second])->Some_0;
    assert(f1.skip(0) =~= f1);
    assert(f2.skip(0) =~= f2);
    lemma_creates_run(m, f1, 0, dst);
    let m1 = spec_create_fold_from(m, f1, 0, dst);
    assert(spec_apply_ops(m, f1, dst) == (m1, None::<crate::patch::ApplyErr>));
    assert(spec_patch_step(m, first, dst) == (m1, None::<MatErr>));
    lemma_fold_untouched(m, f1, 0, dst, second);
    assert(m1.contains_key(second) && m1[second] == m[second]);
    lemma_creates_run(m1, f2, 0, dst);
    let m2 = spec_create_fold_from(m1, f2, 0, dst);
    assert(spec_apply_ops(m1, f2, dst) == (m2, None::<crate::patch::ApplyErr>));
    assert(spec_patch_step(m1, second, dst) == (m2, None::<MatErr>));
    let run = seq![first, second];
    assert(run[0] == first);
    assert(run.skip(1) =~= seq![second]);
    assert(seq![second][0] == second);
    assert(seq![second].skip(1) =~= Seq::<Seq<char>>::empty());
    assert(spec_run_patches(m, run, dst) == spec_run_patches(m1, run.skip(1), dst));
    assert(spec_run_patches(m1, seq![second], dst) == spec_run_patches(
        m2,
        seq![second].skip(1),
        dst,
    ));
    assert(spec_run_patches(m2, Seq::<Seq<char>>::empty(), dst) == (m2, None::<MatErr>));
}

/// A fresh materialization: any stale entry removed, the source tree copied
/// under `dst`, the patches applied in order, and on success the completion
/// marker written last.
pub open spec fn spec_materialize(
    m: Map<Seq<char>, Seq<char>>,
    dst: Seq<char>,
    src: Seq<char>,
    patches: Seq<Seq<char>>,
) -> (Map<Seq<char>, Seq<char>>, Option<MatErr>) {
    let copied = spec_copy_subtree(m.remove_keys(keys_under(dst)), src, dst);
    let (m2, err) = spec_run_patches(copied, patches, dst);
    match err {
        None => (m2.insert(spec_path_join(dst, spec_ready_marker()), Seq::empty()), None),
        Some(e) => (m2, Some(e)),
    }
}

/// Applies a list of patch files, in order, to the directory `dst` of the
/// tree; the first failing patch file stops the run with its error, leaving
/// the effects of the earlier ones in place.
pub fn run_patch_set(fs: &mut FsTree, patches: &Vec<String>, dst: &str) -> (r: Result<(), Error>)
    requires
        old(fs).inv(),
    ensures
        final(fs).inv(),
        final(fs)@ == spec_run_patches(old(fs)@, patches@.map_values(|p: String| p@), dst@).0,
        match spec_run_patches(old(fs)@, patches@.map_values(|p: String| p@), dst@).1 {
            None => r is Ok,
            Some(MatErr::Io { path }) => r matches Err(Error::IoError { path: p }) && p@ == path,
            Some(MatErr::Malformed { path }) => r matches Err(Error::MalformedPatch { path: p })
                && p@ == path,
            Some(MatErr::Empty { path }) => r matches Err(Error::EmptyPatch { path: p }) && p@
                == path,
            Some(MatErr::Apply { err: ApplyErr::MissingSource { path } }) => r matches Err(
                Error::MissingSource { path: p },
            ) && p@ == path,
            Some(MatErr::Apply { err: ApplyErr::HunkMismatch { path } }) => r matches Err(
                Error::HunkMismatch { path: p },
            ) && p@ == path,
        },
{
    let ghost pv = patches@.map_values(|p: String| p@);
    let ghost m0 = fs@;
    let mut i: usize = 0;
    proof {
        assert(pv.skip(0) =~= pv);
    }
    while i < patches.len()
        invariant
            fs.inv(),
            pv == patches@.map_values(|p: String| p@),
            m0 == old(fs)@,
            i <= pv.len(),
            spec_run_patches(m0, pv, dst@) == spec_run_patches(fs@, pv.skip(i as int), dst@),
        decreases pv.len() - i,
    {
        match apply_patch_file(fs, patches[i].as_str(), dst) {
            Ok(()) => {
                proof {
                    assert(pv.skip(i as int)[0] == pv[i as int]);
                    assert(pv.skip(i as int).skip(1) =~= pv.skip(i + 1));
                }
            },
            Err(e) => {
                proof {
                    assert(pv.skip(i as int)[0] == pv[i as int]);
                }
                return Err(e);
            },
        }
        i = i + 1;
    }
    proof {
        assert(pv.skip(pv.len() as int) =~= Seq::<Seq<char>>::empty());
    }
    Ok(())
}

/// Makes the cache entry at `dst` ready: when the completion marker is
/// already present the tree is returned untouched; otherwise any stale
/// entry is removed and the entry is rebuilt from the source tree at
/// `src_root` and the ordered patch files, the marker written last.
///
/// On success the marker exists and `dst` holds exactly the patched tree.
/// On failure no marker has been written by this call: the half-built entry
/// is discarded on the next attempt.
pub fn ensure_ready(fs: &mut FsTree, dst: &str, src_root: &str, patches: &Vec<String>) -> (r:
    Result<(), Error>)
    requires
        old(fs).inv(),
    ensures
        final(fs).inv(),
        old(fs)@.contains_key(spec_path_join(dst@, spec_ready_marker())) ==> r is Ok && final(fs)@
            == old(fs)@,
        !old(fs)@.contains_key(spec_path_join(dst@, spec_ready_marker())) ==> {
            let (m2, err) = spec_materialize(
                old(fs)@,
                dst@,
                src_root@,
                patches@.map_values(|p: String| p@),
            );
            final(fs)@ == m2 && (match err {
                None => r is Ok,
                Some(MatErr::Io { path }) => r matches Err(Error::IoError { path: p }) && p@
                    == path,
                Some(MatErr::Malformed { path }) => r matches Err(Error::MalformedPatch { path: p })
                    && p@ == path,
                Some(MatErr::Empty { path }) => r matches Err(Error::EmptyPatch { path: p }) && p@
                    == path,
                Some(MatErr::Apply { err: ApplyErr::MissingSource { path } }) => r matches Err(
                    Error::MissingSource { path: p },
                ) && p@ == path,
                Some(MatErr::Apply { err: ApplyErr::HunkMismatch { path } }) => r matches Err(
                    Error::HunkMismatch { path: p },
                ) && p@ == path,
            })
        },
        r is Ok ==> final(fs)@.contains_key(spec_path_join(dst@, spec_ready_marker())),
{
    proof {
        reveal_strlit(".cargo-ok");
    }
    let marker = path_join(dst, ".cargo-ok");
    if fs.exists_file(marker.as_str()) {
        return Ok(());
    }
    fs.remove_subtree(dst);
    fs.copy_subtree(src_root, dst);
    let ghost copied = spec_copy_subtree(
        old(fs)@.remove_keys(keys_under(dst@)),
        src_root@,
        dst@,
    );
    match run_patch_set(fs, patches, dst) {
        Ok(()) => {},
        Err(e) => {
            return Err(e);
        },
    }
    fs.write(marker.as_str(), "");
    proof {
        reveal_strlit("");
        assert(""@ =~= Seq::<char>::empty());
    }
    Ok(())
}

/// A successful materialization leaves the completion marker in place, so
/// an immediately repeated call with the same entry takes the marker
/// short-circuit and changes nothing.
pub proof fn lemma_ready_idempotent(
    m: Map<Seq<char>, Seq<char>>,
    dst: Seq<char>,
    src: Seq<char>,
    patches: Seq<Seq<char>>,
)
    requires
        spec_materialize(m, dst, src, patches).1 is None,
    ensures
        spec_materialize(m, dst, src, patches).0.contains_key(
            spec_path_join(dst, spec_ready_marker()),
        ),
{
}

} // verus!
