//! An in-memory model of a file tree.
//!
//! A tree maps file paths to file contents; directories exist implicitly as
//! path prefixes.  The cache, the patch applier and the source adapter all
//! work on such trees; the surrounding binary loads a real directory into a
//! tree and writes the result back to disk.

use vstd::map::*;
use vstd::prelude::*;

use crate::strutil::{is_prefix_of, starts_with, str_eq};

verus! {

/// One file: a path and its contents.
pub struct FsFile {
    pub path: String,
    pub data: String,
}

/// A file tree, modelled as a map from paths to contents.
pub struct FsTree {
    files: Vec<FsFile>,
}

/// The map described by a list of files, later entries winning.
pub open spec fn as_map(s: Seq<FsFile>) -> Map<Seq<char>, Seq<char>>
    decreases s.len(),
{
    if s.len() == 0 {
        Map::empty()
    } else {
        as_map(s.drop_last()).insert(s.last().path@, s.last().data@)
    }
}

/// Pairwise distinct paths.
pub open spec fn unique_paths(s: Seq<FsFile>) -> bool {
    forall|i: int, j: int| 0 <= i < j < s.len() ==> s[i].path@ != s[j].path@
}

impl View for FsTree {
    type V = Map<Seq<char>, Seq<char>>;

    closed spec fn view(&self) -> Map<Seq<char>, Seq<char>> {
        as_map(self.files@)
    }
}

/// A key is in the map iff some entry carries it as its path.
pub proof fn lemma_as_map_contains(s: Seq<FsFile>, k: Seq<char>)
    ensures
        as_map(s).contains_key(k) <==> exists|i: int| 0 <= i < s.len() && s[i].path@ == k,
    decreases s.len(),
{
    if s.len() > 0 {
        lemma_as_map_contains(s.drop_last(), k);
        if as_map(s).contains_key(k) {
            if s.last().path@ == k {
                assert(s[s.len() - 1].path@ == k);
            }
        }
        if exists|i: int| 0 <= i < s.len() && s[i].path@ == k {
            let i = choose|i: int| 0 <= i < s.len() && s[i].path@ == k;
            if i < s.len() - 1 {
                assert(s.drop_last()[i].path@ == k);
            }
        }
    }
}

/// With distinct paths, the entry holding a key gives the key's value.
pub proof fn lemma_as_map_value(s: Seq<FsFile>, i: int)
    requires
        unique_paths(s),
        0 <= i < s.len(),
    ensures
        as_map(s).contains_key(s[i].path@),
        as_map(s)[s[i].path@] == s[i].data@,
    decreases s.len(),
{
    if i == s.len() - 1 {
        lemma_as_map_contains(s, s[i].path@);
    } else {
        lemma_as_map_value(s.drop_last(), i);
        assert(s.drop_last()[i] == s[i]);
        assert(s.last().path@ != s[i].path@);
    }
}

/// Updating the entry that holds a key updates the key's value.
proof fn lemma_as_map_update(s: Seq<FsFile>, i: int, f: FsFile)
    requires
        unique_paths(s),
        0 <= i < s.len(),
        f.path@ == s[i].path@,
    ensures
        as_map(s.update(i, f)) =~= as_map(s).insert(f.path@, f.data@),
    decreases s.len(),
{
    let t = s.update(i, f);
    if i == s.len() - 1 {
        assert(t.drop_last() =~= s.drop_last());
        assert(t.last() == f);
    } else {
        lemma_as_map_update(s.drop_last(), i, f);
        assert(t.drop_last() =~= s.drop_last().update(i, f));
        assert(t.last() == s.last());
        assert(s.last().path@ != f.path@);
        assert(as_map(t) =~= as_map(s.drop_last()).insert(f.path@, f.data@).insert(
            s.last().path@,
            s.last().data@,
        ));
    }
}

/// Removing the entry that holds a key removes the key.
proof fn lemma_as_map_remove(s: Seq<FsFile>, i: int)
    requires
        unique_paths(s),
        0 <= i < s.len(),
    ensures
        as_map(s.remove(i)) =~= as_map(s).remove(s[i].path@),
    decreases s.len(),
{
    let t = s.remove(i);
    if i == s.len() - 1 {
        assert(t =~= s.drop_last());
        lemma_as_map_contains(s.drop_last(), s[i].path@);
        assert(as_map(s.drop_last()) =~= as_map(s.drop_last()).remove(s[i].path@));
    } else {
        lemma_as_map_remove(s.drop_last(), i);
        assert(t.drop_last() =~= s.drop_last().remove(i));
        assert(t.last() == s.last());
        assert(s.last().path@ != s[i].path@);
        assert(as_map(t) =~= as_map(s.drop_last()).remove(s[i].path@).insert(
            s.last().path@,
            s.last().data@,
        ));
    }
}

/// Whether `k` lies strictly inside the directory `dir`.
pub open spec fn is_under(dir: Seq<char>, k: Seq<char>) -> bool {
    is_prefix_of(dir + seq!['/'], k)
}

/// `dir`, a separator, and `rel`.
pub open spec fn spec_path_join(dir: Seq<char>, rel: Seq<char>) -> Seq<char> {
    dir + seq!['/'] + rel
}

/// The path of `k` relative to the directory `dir`.
pub open spec fn spec_rel_of(dir: Seq<char>, k: Seq<char>) -> Seq<char> {
    k.skip(dir.len() as int + 1)
}

/// Whether some file of `m` lies inside the directory `dir`.
pub open spec fn spec_has_dir(m: Map<Seq<char>, Seq<char>>, dir: Seq<char>) -> bool {
    exists|k: Seq<char>| #[trigger] m.contains_key(k) && is_under(dir, k)
}

/// The keys inside the directory `dir`.
pub open spec fn keys_under(dir: Seq<char>) -> Set<Seq<char>> {
    Set::new(|k: Seq<char>| is_under(dir, k))
}

/// The files of the `src` directory of `m`, relocated under `dst`.
pub open spec fn spec_subtree_copy(
    m: Map<Seq<char>, Seq<char>>,
    src: Seq<char>,
    dst: Seq<char>,
) -> Map<Seq<char>, Seq<char>> {
    Map::new(
        |k: Seq<char>| is_under(dst, k) && m.contains_key(spec_path_join(src, spec_rel_of(dst, k))),
        |k: Seq<char>| m[spec_path_join(src, spec_rel_of(dst, k))],
    )
}

/// `m` with the files of its `src` directory copied under `dst`, the copies
/// winning over what was under `dst` before.
pub open spec fn spec_copy_subtree(
    m: Map<Seq<char>, Seq<char>>,
    src: Seq<char>,
    dst: Seq<char>,
) -> Map<Seq<char>, Seq<char>> {
    m.union_prefer_right(spec_subtree_copy(m, src, dst))
}

/// A key inside a directory is the join of the directory and its relative
/// path, and a join lies inside its directory.
pub proof fn lemma_under_join(dir: Seq<char>, k: Seq<char>, rel: Seq<char>)
    ensures
        is_under(dir, k) ==> spec_path_join(dir, spec_rel_of(dir, k)) == k,
        spec_rel_of(dir, spec_path_join(dir, rel)) == rel,
        is_under(dir, spec_path_join(dir, rel)),
{
    if is_under(dir, k) {
        assert(spec_path_join(dir, spec_rel_of(dir, k)) =~= k) by {
            assert(k.subrange(0, dir.len() as int + 1) == dir + seq!['/']);
            assert(forall|i: int|
                0 <= i < dir.len() as int + 1 ==> k[i] == (k.subrange(0, dir.len() as int + 1))[i]);
        }
    }
    assert(spec_rel_of(dir, spec_path_join(dir, rel)) =~= rel);
    assert((dir + seq!['/'] + rel).subrange(0, dir.len() as int + 1) =~= dir + seq!['/']);
}

/// Joins a directory and a relative path.
pub fn path_join(dir: &str, rel: &str) -> (r: String)
    ensures
        r@ == spec_path_join(dir@, rel@),
{
    let mut out = String::from_str(dir);
    proof {
        reveal_strlit("/");
        assert("/"@ =~= seq!['/']);
    }
    out.append("/");
    out.append(rel);
    out
}

impl FsTree {
    /// Distinct paths: the representation invariant.
    pub closed spec fn inv(&self) -> bool {
        unique_paths(self.files@)
    }

    /// An empty tree.
    pub fn new() -> (r: FsTree)
        ensures
            r.inv(),
            r@ == Map::<Seq<char>, Seq<char>>::empty(),
    {
        FsTree { files: Vec::new() }
    }

    /// The contents of the file at `path`, if present.
    pub fn read(&self, path: &str) -> (r: Option<&String>)
        requires
            self.inv(),
        ensures
            match r {
                Some(d) => self@.contains_key(path@) && d@ == self@[path@],
                None => !self@.contains_key(path@),
            },
    {
        let ghost s = self.files@;
        let mut i: usize = 0;
        while i < self.files.len()
            invariant
                self.inv(),
                s == self.files@,
                i <= s.len(),
                forall|j: int| 0 <= j < i ==> s[j].path@ != path@,
            decreases s.len() - i,
        {
            if str_eq(self.files[i].path.as_str(), path) {
                proof {
                    lemma_as_map_value(s, i as int);
                }
                return Some(&self.files[i].data);
            }
            i = i + 1;
        }
        proof {
            lemma_as_map_contains(s, path@);
        }
        None
    }

    /// Whether a file exists at `path`.
    pub fn exists_file(&self, path: &str) -> (r: bool)
        requires
            self.inv(),
        ensures
            r == self@.contains_key(path@),
    {
        self.read(path).is_some()
    }

    /// Writes `data` at `path`, replacing any previous contents.
    pub fn write(&mut self, path: &str, data: &str)
        requires
            old(self).inv(),
        ensures
            final(self).inv(),
            final(self)@ == old(self)@.insert(path@, data@),
    {
        let ghost s = self.files@;
        let mut i: usize = 0;
        while i < self.files.len()
            invariant
                self.inv(),
                s == self.files@,
                as_map(s) == old(self)@,
                i <= s.len(),
                forall|j: int| 0 <= j < i ==> s[j].path@ != path@,
            decreases s.len() - i,
        {
            if str_eq(self.files[i].path.as_str(), path) {
                let f = FsFile { path: String::from_str(path), data: String::from_str(data) };
                let ghost fg = f;
                self.files.remove(i);
                self.files.insert(i, f);
                proof {
                    assert(self.files@ =~= s.update(i as int, fg));
                    lemma_as_map_update(s, i as int, fg);
                    assert(unique_paths(self.files@)) by {
                        assert(forall|a: int|
                            0 <= a < s.len() && a != i ==> self.files@[a] == s[a]);
                    }
                }
                return ;
            }
            i = i + 1;
        }
        let ghost pre = self.files@;
        self.files.push(FsFile { path: String::from_str(path), data: String::from_str(data) });
        proof {
            assert(self.files@.drop_last() =~= pre);
            assert(self.inv()) by {
                assert(forall|j: int|
                    0 <= j < pre.len() ==> self.files@[j].path@ != self.files@.last().path@);
            }
        }
    }

    /// Removes the file at `path`.  Returns whether it was present.
    pub fn remove_file(&mut self, path: &str) -> (r: bool)
        requires
            old(self).inv(),
        ensures
            final(self).inv(),
            r == old(self)@.contains_key(path@),
            final(self)@ == old(self)@.remove(path@),
    {
        let ghost s = self.files@;
        let mut i: usize = 0;
        while i < self.files.len()
            invariant
                self.inv(),
                s == self.files@,
                as_map(s) == old(self)@,
                i <= s.len(),
                forall|j: int| 0 <= j < i ==> s[j].path@ != path@,
            decreases s.len() - i,
        {
            if str_eq(self.files[i].path.as_str(), path) {
                proof {
                    lemma_as_map_value(s, i as int);
                    lemma_as_map_remove(s, i as int);
                }
                self.files.remove(i);
                proof {
                    assert forall|a: int, b: int|
                        0 <= a < b < self.files@.len() implies self.files@[a].path@
                        != self.files@[b].path@ by {
                        let sa: int = if a < i as int {
                            a
                        } else {
                            a + 1
                        };
                        let sb: int = if b < i as int {
                            b
                        } else {
                            b + 1
                        };
                        assert(self.files@[a] == s[sa]);
                        assert(self.files@[b] == s[sb]);
                    }
                }
                return true;
            }
            i = i + 1;
        }
        proof {
            lemma_as_map_contains(s, path@);
            assert(self@ =~= old(self)@.remove(path@)) by {
                assert(!as_map(s).contains_key(path@));
            }
        }
        false
    }

    /// Every file of the tree, each path carried once.
    pub fn entries(&self) -> (r: Vec<FsFile>)
        requires
            self.inv(),
        ensures
            forall|i: int|
                0 <= i < r@.len() ==> self@.contains_key(#[trigger] r@[i].path@)
                    && self@[r@[i].path@] == r@[i].data@,
            forall|k: Seq<char>|
                #[trigger] self@.contains_key(k) ==> exists|i: int|
                    0 <= i < r@.len() && r@[i].path@ == k,
    {
        let ghost s = self.files@;
        let mut out: Vec<FsFile> = Vec::new();
        let mut i: usize = 0;
        while i < self.files.len()
            invariant
                self.inv(),
                s == self.files@,
                i <= s.len(),
                out@.len() == i,
                forall|j: int|
                    0 <= j < i ==> #[trigger] out@[j].path@ == s[j].path@ && out@[j].data@
                        == s[j].data@,
            decreases s.len() - i,
        {
            out.push(
                FsFile {
                    path: String::from_str(self.files[i].path.as_str()),
                    data: String::from_str(self.files[i].data.as_str()),
                },
            );
            i = i + 1;
        }
        proof {
            assert forall|j: int| 0 <= j < out@.len() implies self@.contains_key(
                #[trigger] out@[j].path@,
            ) && self@[out@[j].path@] == out@[j].data@ by {
                lemma_as_map_value(s, j);
            }
            assert forall|k: Seq<char>| #[trigger] self@.contains_key(k) implies exists|i2: int|
                0 <= i2 < out@.len() && out@[i2].path@ == k by {
                lemma_as_map_contains(s, k);
                let j = choose|j: int| 0 <= j < s.len() && s[j].path@ == k;
                assert(out@[j].path@ == k);
            }
        }
        out
    }

    /// Whether any file lies inside the directory `dir`.
    pub fn has_dir(&self, dir: &str) -> (r: bool)
        requires
            self.inv(),
        ensures
            r == spec_has_dir(self@, dir@),
    {
        let ghost s = self.files@;
        let prefix = path_join(dir, "");
        proof {
            reveal_strlit("");
            assert(prefix@ =~= dir@ + seq!['/']);
        }
        let mut i: usize = 0;
        while i < self.files.len()
            invariant
                self.inv(),
                s == self.files@,
                prefix@ == dir@ + seq!['/'],
                i <= s.len(),
                forall|j: int| 0 <= j < i ==> !is_under(dir@, s[j].path@),
            decreases s.len() - i,
        {
            if starts_with(self.files[i].path.as_str(), prefix.as_str()) {
                proof {
                    lemma_as_map_value(s, i as int);
                }
                return true;
            }
            i = i + 1;
        }
        proof {
            assert forall|k: Seq<char>| as_map(s).contains_key(k) implies !is_under(dir@, k) by {
                lemma_as_map_contains(s, k);
            }
        }
        false
    }

    /// Removes every file inside the directory `dir`.
    pub fn remove_subtree(&mut self, dir: &str)
        requires
            old(self).inv(),
        ensures
            final(self).inv(),
            final(self)@ == old(self)@.remove_keys(keys_under(dir@)),
    {
        let ghost s = self.files@;
        let ghost m0 = self@;
        let prefix = path_join(dir, "");
        proof {
            reveal_strlit("");
            assert(prefix@ =~= dir@ + seq!['/']);
        }
        let mut kept: Vec<FsFile> = Vec::new();
        let mut i: usize = 0;
        proof {
            assert(s.take(0) =~= Seq::<FsFile>::empty());
            assert(as_map(kept@) =~= as_map(s.take(0)).remove_keys(keys_under(dir@)));
        }
        while i < self.files.len()
            invariant
                self.inv(),
                s == self.files@,
                m0 == as_map(s),
                prefix@ == dir@ + seq!['/'],
                i <= s.len(),
                unique_paths(kept@),
                forall|a: int|
                    0 <= a < kept@.len() ==> exists|j: int|
                        0 <= j < i && #[trigger] kept@[a].path@ == s[j].path@,
                as_map(kept@) == as_map(s.take(i as int)).remove_keys(keys_under(dir@)),
            decreases s.len() - i,
        {
            let ghost pre = kept@;
            let under = starts_with(self.files[i].path.as_str(), prefix.as_str());
            if !under {
                let f = FsFile {
                    path: String::from_str(self.files[i].path.as_str()),
                    data: String::from_str(self.files[i].data.as_str()),
                };
                let ghost fg = f;
                kept.push(f);
                proof {
                    assert(fg.path@ == s[i as int].path@);
                    assert(unique_paths(kept@)) by {
                        assert forall|a: int, b: int|
                            0 <= a < b < kept@.len() implies kept@[a].path@ != kept@[b].path@ by {
                            if b == kept@.len() - 1 {
                                let j = choose|j: int|
                                    0 <= j < i && #[trigger] pre[a].path@ == s[j].path@;
                                assert(s[j].path@ != s[i as int].path@);
                            }
                        }
                    }
                    assert(kept@.drop_last() =~= pre);
                }
            }
            proof {
                assert(s.take(i + 1).drop_last() =~= s.take(i as int));
                assert(s.take(i + 1).last() == s[i as int]);
                assert(as_map(s.take(i + 1)) == as_map(s.take(i as int)).insert(
                    s[i as int].path@,
                    s[i as int].data@,
                ));
                if under {
                    assert(as_map(kept@) =~= as_map(s.take(i + 1)).remove_keys(keys_under(dir@)));
                } else {
                    assert(as_map(kept@) =~= as_map(s.take(i + 1)).remove_keys(keys_under(dir@)));
                }
            }
            i = i + 1;
        }
        self.files = kept;
        proof {
            assert(s.take(s.len() as int) =~= s);
        }
    }

    /// Copies every file of the `src` directory into the `dst` directory,
    /// keeping relative paths.
    pub fn copy_subtree(&mut self, src: &str, dst: &str)
        requires
            old(self).inv(),
        ensures
            final(self).inv(),
            final(self)@ == spec_copy_subtree(old(self)@, src@, dst@),
    {
        let ghost s = self.files@;
        let ghost m0 = self@;
        let prefix = path_join(src, "");
        proof {
            reveal_strlit("");
            assert(prefix@ =~= src@ + seq!['/']);
        }
        let srcplen = prefix.as_str().unicode_len();
        // First pass: extract the relative paths and contents of the files
        // under `src`.
        let mut entries: Vec<FsFile> = Vec::new();
        let mut i: usize = 0;
        while i < self.files.len()
            invariant
                self.inv(),
                s == self.files@,
                m0 == as_map(s),
                prefix@ == src@ + seq!['/'],
                srcplen == src@.len() + 1,
                i <= s.len(),
                unique_paths(entries@),
                forall|a: int|
                    0 <= a < entries@.len() ==> exists|j: int|
                        0 <= j < i && s[j].path@ == #[trigger] spec_path_join(
                            src@,
                            entries@[a].path@,
                        ),
                forall|a: int|
                    0 <= a < entries@.len() ==> m0.contains_key(
                        #[trigger] spec_path_join(src@, entries@[a].path@),
                    ) && entries@[a].data@ == m0[spec_path_join(src@, entries@[a].path@)],
                forall|j: int|
                    0 <= j < i && is_under(src@, #[trigger] s[j].path@) ==> exists|a: int|
                        0 <= a < entries@.len() && entries@[a].path@ == spec_rel_of(
                            src@,
                            s[j].path@,
                        ),
            decreases s.len() - i,
        {
            let ghost pre = entries@;
            let p = &self.files[i].path;
            let plen = p.as_str().unicode_len();
            if starts_with(p.as_str(), prefix.as_str()) {
                let rel = String::from_str(p.as_str().substring_char(srcplen, plen));
                let f = FsFile { path: rel, data: String::from_str(self.files[i].data.as_str()) };
                let ghost fg = f;
                entries.push(f);
                proof {
                    lemma_as_map_value(s, i as int);
                    lemma_under_join(src@, s[i as int].path@, fg.path@);
                    assert(fg.path@ == spec_rel_of(src@, s[i as int].path@));
                    assert(spec_path_join(src@, fg.path@) == s[i as int].path@);
                    assert(entries@.drop_last() =~= pre);
                    assert(entries@[entries@.len() - 1] == fg);
                    assert forall|a: int| 0 <= a < entries@.len() implies exists|j: int|
                        0 <= j < i + 1 && s[j].path@ == #[trigger] spec_path_join(
                            src@,
                            entries@[a].path@,
                        ) by {
                        if a < pre.len() {
                            let j = choose|j: int|
                                0 <= j < i && s[j].path@ == #[trigger] spec_path_join(
                                    src@,
                                    pre[a].path@,
                                );
                            assert(s[j].path@ == spec_path_join(src@, entries@[a].path@));
                        } else {
                            assert(s[i as int].path@ == spec_path_join(src@, entries@[a].path@));
                        }
                    }
                    assert(unique_paths(entries@)) by {
                        assert forall|a: int, b: int|
                            0 <= a < b < entries@.len() implies entries@[a].path@
                            != entries@[b].path@ by {
                            if b == entries@.len() - 1 {
                                if entries@[a].path@ == fg.path@ {
                                    let j = choose|j: int|
                                        0 <= j < i && s[j].path@ == #[trigger] spec_path_join(
                                            src@,
                                            pre[a].path@,
                                        );
                                    assert(s[j].path@ == spec_path_join(src@, fg.path@));
                                    assert(s[j].path@ == s[i as int].path@);
                                    assert(j == i as int);
                                }
                            }
                        }
                    }
                    assert forall|j: int|
                        0 <= j < i + 1 && is_under(src@, #[trigger] s[j].path@) implies exists|
                        a: int,
                    |
                        0 <= a < entries@.len() && entries@[a].path@ == spec_rel_of(
                            src@,
                            s[j].path@,
                        ) by {
                        if j < i {
                            let a = choose|a: int|
                                0 <= a < pre.len() && pre[a].path@ == spec_rel_of(
                                    src@,
                                    s[j].path@,
                                );
                            assert(entries@[a].path@ == spec_rel_of(src@, s[j].path@));
                        } else {
                            assert(entries@[entries@.len() - 1].path@ == spec_rel_of(
                                src@,
                                s[j].path@,
                            ));
                        }
                    }
                }
            }
            i = i + 1;
        }
        // Second pass: write every extracted file under `dst`.
        let ghost evs = entries@;
        let ghost target = spec_copy_subtree(m0, src@, dst@);
        let mut a: usize = 0;
        while a < entries.len()
            invariant
                self.inv(),
                evs == entries@,
                unique_paths(evs),
                forall|b: int|
                    0 <= b < evs.len() ==> m0.contains_key(
                        #[trigger] spec_path_join(src@, evs[b].path@),
                    ) && evs[b].data@ == m0[spec_path_join(src@, evs[b].path@)],
                a <= evs.len(),
                forall|k: Seq<char>|
                    (exists|b: int|
                        0 <= b < a && k == #[trigger] spec_path_join(dst@, evs[b].path@)) ==> (
                    #[trigger] self@.contains_key(k) && self@[k] == m0[spec_path_join(
                        src@,
                        spec_rel_of(dst@, k),
                    )]),
                forall|k: Seq<char>|
                    !(exists|b: int|
                        0 <= b < a && k == #[trigger] spec_path_join(dst@, evs[b].path@)) ==> (
                    #[trigger] self@.contains_key(k) == m0.contains_key(k) && (
                    m0.contains_key(k) ==> self@[k] == m0[k])),
            decreases evs.len() - a,
        {
            let full = path_join(dst, entries[a].path.as_str());
            let data = String::from_str(entries[a].data.as_str());
            self.write(full.as_str(), data.as_str());
            proof {
                lemma_under_join(dst@, full@, evs[a as int].path@);
                assert forall|k: Seq<char>|
                    (exists|b: int|
                        0 <= b < a + 1 && k == #[trigger] spec_path_join(dst@, evs[b].path@))
                    implies (self@.contains_key(k) && self@[k] == m0[spec_path_join(
                    src@,
                    spec_rel_of(dst@, k),
                )]) by {
                    let b = choose|b: int|
                        0 <= b < a + 1 && k == #[trigger] spec_path_join(dst@, evs[b].path@);
                    lemma_under_join(dst@, k, evs[b].path@);
                    if k == full@ {
                        assert(spec_rel_of(dst@, k) == evs[a as int].path@);
                    } else {
                        assert(b < a as int);
                        assert(spec_path_join(dst@, evs[b].path@) != spec_path_join(
                            dst@,
                            evs[a as int].path@,
                        ));
                    }
                }
                assert forall|k: Seq<char>|
                    !(exists|b: int|
                        0 <= b < a + 1 && k == #[trigger] spec_path_join(dst@, evs[b].path@))
                    implies (self@.contains_key(k) == m0.contains_key(k) && (m0.contains_key(k)
                    ==> self@[k] == m0[k])) by {
                    assert(k != spec_path_join(dst@, evs[a as int].path@));
                }
            }
            a = a + 1;
        }
        proof {
            let fin = self@;
            assert_maps_equal!(fin, target, k => {
                    lemma_under_join(dst@, k, spec_rel_of(dst@, k));
                    if exists|b: int|
                        0 <= b < evs.len() && k == #[trigger] spec_path_join(dst@, evs[b].path@) {
                        let b = choose|b: int|
                            0 <= b < evs.len() && k == #[trigger] spec_path_join(
                                dst@,
                                evs[b].path@,
                            );
                        lemma_under_join(dst@, k, evs[b].path@);
                        assert(spec_rel_of(dst@, k) == evs[b].path@);
                        assert(m0.contains_key(spec_path_join(src@, spec_rel_of(dst@, k))));
                        assert(spec_subtree_copy(m0, src@, dst@).contains_key(k));
                        assert(target.contains_key(k));
                        assert(target[k] == m0[spec_path_join(src@, spec_rel_of(dst@, k))]);
                    } else {
                        if is_under(dst@, k) && m0.contains_key(
                            spec_path_join(src@, spec_rel_of(dst@, k)),
                        ) {
                            lemma_as_map_contains(s, spec_path_join(src@, spec_rel_of(dst@, k)));
                            let j = choose|j: int|
                                0 <= j < s.len() && s[j].path@ == spec_path_join(
                                    src@,
                                    spec_rel_of(dst@, k),
                                );
                            lemma_under_join(src@, s[j].path@, spec_rel_of(dst@, k));
                            assert(is_under(src@, s[j].path@));
                            let b = choose|a2: int|
                                0 <= a2 < evs.len() && evs[a2].path@ == spec_rel_of(
                                    src@,
                                    s[j].path@,
                                );
                            assert(spec_rel_of(src@, s[j].path@) == spec_rel_of(dst@, k));
                            assert(k == spec_path_join(dst@, evs[b].path@));
                        }
                        assert(!spec_subtree_copy(m0, src@, dst@).contains_key(k));
                        assert(target.contains_key(k) == m0.contains_key(k));
                        assert(m0.contains_key(k) ==> target[k] == m0[k]);
                    }
            });
            assert(self@ == target);
        }
    }
}

} // verus!
