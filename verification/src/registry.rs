//! The process-wide patch registry.
//!
//! Identity of a patch-set is its checksum: the digest of the concatenated
//! contents of the ordered patch-file list.  The registry remembers, for each
//! checksum, the absolute paths of the files that produced it, so that
//! resolution can find the files again from any working directory.

use vstd::prelude::*;

use crate::errors::Error;
use crate::hasher::{patch_set_digest, spec_concat, spec_patch_set_digest};
use crate::strutil::{is_hex_seq, str_eq};

verus! {

/// A patch-info record: the package a patch-set targets, its exact version,
/// and the ordered patch-file paths.
pub struct PatchInfo {
    pub name: String,
    pub version: String,
    pub paths: Vec<String>,
}

/// One registered patch-set.
struct RegEntry {
    cksum: String,
    paths: Vec<String>,
}

/// A mapping from patch-set checksums to the resolved paths of the patch
/// files, append-only.
pub struct PatchRegistry {
    entries: Vec<RegEntry>,
}

/// The map described by a list of entries.
spec fn reg_map(s: Seq<RegEntry>) -> Map<Seq<char>, Seq<Seq<char>>>
    decreases s.len(),
{
    if s.len() == 0 {
        Map::empty()
    } else {
        reg_map(s.drop_last()).insert(
            s.last().cksum@,
            s.last().paths@.map_values(|p: String| p@),
        )
    }
}

proof fn lemma_reg_map_contains(s: Seq<RegEntry>, k: Seq<char>)
    ensures
        reg_map(s).contains_key(k) <==> exists|i: int| 0 <= i < s.len() && s[i].cksum@ == k,
    decreases s.len(),
{
    if s.len() > 0 {
        lemma_reg_map_contains(s.drop_last(), k);
        if reg_map(s).contains_key(k) {
            if s.last().cksum@ == k {
                assert(s[s.len() - 1].cksum@ == k);
            }
        }
        if exists|i: int| 0 <= i < s.len() && s[i].cksum@ == k {
            let i = choose|i: int| 0 <= i < s.len() && s[i].cksum@ == k;
            if i < s.len() - 1 {
                assert(s.drop_last()[i].cksum@ == k);
            }
        }
    }
}

proof fn lemma_reg_map_value(s: Seq<RegEntry>, i: int)
    requires
        forall|a: int, b: int| 0 <= a < b < s.len() ==> s[a].cksum@ != s[b].cksum@,
        0 <= i < s.len(),
    ensures
        reg_map(s).contains_key(s[i].cksum@),
        reg_map(s)[s[i].cksum@] == s[i].paths@.map_values(|p: String| p@),
    decreases s.len(),
{
    if i == s.len() - 1 {
        lemma_reg_map_contains(s, s[i].cksum@);
    } else {
        lemma_reg_map_value(s.drop_last(), i);
        assert(s.drop_last()[i] == s[i]);
        assert(s.last().cksum@ != s[i].cksum@);
    }
}

/// One patch file handed to `register`: its resolved path, and its contents
/// where the file could be read.
pub struct PatchFileInput {
    pub path: String,
    pub content: Option<String>,
}

/// The contents of a list of inputs, where all could be read.
pub open spec fn input_contents(files: Seq<PatchFileInput>) -> Seq<Seq<char>> {
    files.map_values(|f: PatchFileInput| f.content->Some_0@)
}

/// Whether every input could be read.
pub open spec fn all_readable(files: Seq<PatchFileInput>) -> bool {
    forall|i: int| 0 <= i < files.len() ==> files[i].content is Some
}

impl PatchRegistry {
    /// Distinct checksums: the representation invariant.
    pub closed spec fn inv(&self) -> bool {
        forall|a: int, b: int|
            0 <= a < b < self.entries@.len() ==> self.entries@[a].cksum@
                != self.entries@[b].cksum@
    }

    /// The registered mapping from checksums to ordered path lists.
    pub closed spec fn view(&self) -> Map<Seq<char>, Seq<Seq<char>>> {
        reg_map(self.entries@)
    }

    /// An empty registry.
    pub fn new() -> (r: PatchRegistry)
        ensures
            r.inv(),
            r@ == Map::<Seq<char>, Seq<Seq<char>>>::empty(),
    {
        PatchRegistry { entries: Vec::new() }
    }

    /// Registers an ordered patch-set: computes the checksum of the ordered
    /// file contents, records the paths under it if the checksum is new, and
    /// returns the checksum.  A file whose contents could not be read fails
    /// the whole registration, naming the file, and registers nothing.
    pub fn register(&mut self, files: &Vec<PatchFileInput>) -> (r: Result<String, Error>)
        requires
            old(self).inv(),
        ensures
            final(self).inv(),
            match r {
                Ok(cksum) => {
                    &&& all_readable(files@)
                    &&& cksum@ == spec_patch_set_digest(input_contents(files@))
                    &&& cksum@.len() == 64
                    &&& is_hex_seq(cksum@)
                    &&& final(self)@ == if old(self)@.contains_key(cksum@) {
                        old(self)@
                    } else {
                        old(self)@.insert(cksum@, files@.map_values(|f: PatchFileInput| f.path@))
                    }
                },
                Err(e) => {
                    &&& !all_readable(files@)
                    &&& (e matches Error::IoError { path } && exists|i: int|
                        0 <= i < files@.len() && files@[i].content is None && path@
                            == #[trigger] files@[i].path@)
                    &&& final(self)@ == old(self)@
                },
            },
    {
        let mut contents: Vec<String> = Vec::new();
        let mut paths: Vec<String> = Vec::new();
        let mut i: usize = 0;
        while i < files.len()
            invariant
                self.inv(),
                self@ == old(self)@,
                i <= files@.len(),
                forall|j: int| 0 <= j < i ==> files@[j].content is Some,
                contents@.map_values(|c: String| c@) =~= input_contents(files@.subrange(
                    0,
                    i as int,
                )),
                paths@.map_values(|p: String| p@) =~= files@.subrange(0, i as int).map_values(
                    |f: PatchFileInput| f.path@,
                ),
            decreases files@.len() - i,
        {
            let ghost cpre = contents@;
            let ghost ppre = paths@;
            match &files[i].content {
                None => {
                    return Err(Error::IoError { path: String::from_str(files[i].path.as_str()) });
                },
                Some(c) => {
                    contents.push(String::from_str(c.as_str()));
                    paths.push(String::from_str(files[i].path.as_str()));
                },
            }
            proof {
                assert(contents@.map_values(|c: String| c@) =~= cpre.map_values(
                    |c: String| c@,
                ).push(files@[i as int].content->Some_0@));
                assert(paths@.map_values(|p: String| p@) =~= ppre.map_values(
                    |p: String| p@,
                ).push(files@[i as int].path@));
                assert(contents@.map_values(|c: String| c@) =~= input_contents(
                    files@.subrange(0, i + 1),
                ));
                assert(paths@.map_values(|p: String| p@) =~= files@.subrange(0, i + 1).map_values(
                    |f: PatchFileInput| f.path@,
                ));
            }
            i = i + 1;
        }
        proof {
            assert(files@.subrange(0, files@.len() as int) =~= files@);
            assert(contents@.map_values(|c: String| c@) =~= input_contents(files@));
            assert(paths@.map_values(|p: String| p@) =~= files@.map_values(
                |f: PatchFileInput| f.path@,
            ));
        }
        let cksum = patch_set_digest(&contents);
        let ghost s = self.entries@;
        let mut k: usize = 0;
        while k < self.entries.len()
            invariant
                self.inv(),
                s == self.entries@,
                self@ == old(self)@,
                all_readable(files@),
                cksum@ == spec_patch_set_digest(input_contents(files@)),
                cksum@.len() == 64,
                is_hex_seq(cksum@),
                paths@.map_values(|p: String| p@) == files@.map_values(
                    |f: PatchFileInput| f.path@,
                ),
                k <= s.len(),
                forall|j: int| 0 <= j < k ==> s[j].cksum@ != cksum@,
            decreases s.len() - k,
        {
            if str_eq(self.entries[k].cksum.as_str(), cksum.as_str()) {
                proof {
                    lemma_reg_map_value(s, k as int);
                }
                return Ok(cksum);
            }
            k = k + 1;
        }
        proof {
            lemma_reg_map_contains(s, cksum@);
        }
        let entry = RegEntry { cksum: String::from_str(cksum.as_str()), paths };
        let ghost eg = entry;
        self.entries.push(entry);
        proof {
            assert(self.entries@.drop_last() =~= s);
            assert(self.inv()) by {
                assert(forall|j: int|
                    0 <= j < s.len() ==> self.entries@[j].cksum@ != self.entries@.last().cksum@);
            }
        }
        Ok(cksum)
    }

    /// The ordered patch-file paths registered under a checksum.
    pub fn lookup(&self, cksum: &str) -> (r: Option<Vec<String>>)
        requires
            self.inv(),
        ensures
            match r {
                Some(paths) => self@.contains_key(cksum@) && paths@.map_values(|p: String| p@)
                    == self@[cksum@],
                None => !self@.contains_key(cksum@),
            },
    {
        let ghost s = self.entries@;
        let mut k: usize = 0;
        while k < self.entries.len()
            invariant
                self.inv(),
                s == self.entries@,
                k <= s.len(),
                forall|j: int| 0 <= j < k ==> s[j].cksum@ != cksum@,
            decreases s.len() - k,
        {
            if str_eq(self.entries[k].cksum.as_str(), cksum) {
                proof {
                    lemma_reg_map_value(s, k as int);
                }
                let mut out: Vec<String> = Vec::new();
                let e = &self.entries[k];
                let mut j: usize = 0;
                while j < e.paths.len()
                    invariant
                        k < s.len(),
                        s == self.entries@,
                        e == s[k as int],
                        self@.contains_key(cksum@),
                        self@[cksum@] == e.paths@.map_values(|p: String| p@),
                        j <= e.paths@.len(),
                        out@.map_values(|p: String| p@) =~= e.paths@.map_values(
                            |p: String| p@,
                        ).subrange(0, j as int),
                    decreases e.paths@.len() - j,
                {
                    let ghost opre = out@;
                    out.push(String::from_str(e.paths[j].as_str()));
                    proof {
                        assert(out@.map_values(|p: String| p@) =~= opre.map_values(
                            |p: String| p@,
                        ).push(e.paths@[j as int]@));
                        assert(out@.map_values(|p: String| p@) =~= e.paths@.map_values(
                            |p: String| p@,
                        ).subrange(0, j + 1));
                    }
                    j = j + 1;
                }
                proof {
                    let pv = e.paths@.map_values(|p: String| p@);
                    assert(pv.subrange(0, pv.len() as int) =~= pv);
                }
                return Some(out);
            }
            k = k + 1;
        }
        proof {
            lemma_reg_map_contains(s, cksum@);
        }
        None
    }
}

/// Registering two patch-sets with the same contents in the same order gives
/// the same checksum, whatever paths the files came from and whatever the
/// registries already hold.
pub proof fn lemma_register_deterministic(a: Seq<PatchFileInput>, b: Seq<PatchFileInput>)
    requires
        all_readable(a),
        all_readable(b),
        input_contents(a) == input_contents(b),
    ensures
        spec_patch_set_digest(input_contents(a)) == spec_patch_set_digest(input_contents(b)),
{
}

} // verus!
