//! Error kinds raised by the patched-source subsystem.

use vstd::prelude::*;

verus! {

/// Everything that can go wrong while validating, identifying, materializing
/// or applying a patch-set.
#[derive(Debug)]
pub enum Error {
    /// A patched identifier carries a checksum that was never registered.
    UnregisteredPatchSet { cksum: String },
    /// A query through the adapter matched zero or more than one package.
    AmbiguousPatchTarget { found: usize },
    /// A patch file parsed to zero file hunks.
    EmptyPatch { path: String },
    /// A patch file could not be parsed as a unified diff.
    MalformedPatch { path: String },
    /// A modify or delete operation named a file that is absent.
    MissingSource { path: String },
    /// A context or removed line disagreed with the file on disk.
    HunkMismatch { path: String },
    /// A patched dependency declared an empty `patches` list.
    EmptyPatchList,
    /// A patched dependency tried to patch a local path dependency.
    PatchPathDep,
    /// A patched identifier tried to wrap an already patched source.
    NestedPatch,
    /// A patched dependency did not pin an exact version.
    NonExactVersion,
    /// A patched dependency named a registry that disagrees with its
    /// patch-table key.
    MismatchedSource,
    /// Two sibling packages of one git repository declared different
    /// patch-sets.
    ConflictingPatchSets {
        first_pkg: String,
        second_pkg: String,
        first_paths: Vec<String>,
        second_paths: Vec<String>,
    },
    /// A file could not be read or written.
    IoError { path: String },
    /// A source URL did not match any known grammar.
    InvalidUrl { url: String },
    /// A manifest did not declare the fields the subsystem needs.
    ManifestParse { path: String },
}

/// The user-visible text of an error.
pub open spec fn spec_message(e: Error) -> Seq<char> {
    match e {
        Error::UnregisteredPatchSet { cksum } => "no patch files registered for checksum `"@ + (
        if cksum@.len() >= 8 {
            cksum@.subrange(0, 8)
        } else {
            cksum@
        }) + seq!['`'],
        Error::AmbiguousPatchTarget { found } => {
            "expected exactly one package for patched dependency, found "@
                + crate::strutil::spec_dec_of(found as nat)
        },
        Error::EmptyPatch { path } => "no valid patches found in `"@ + path@ + seq!['`'],
        Error::MalformedPatch { path } => "invalid patch file `"@ + path@ + seq!['`'],
        Error::MissingSource { path } => "patch source file `"@ + path@ + "` not found"@,
        Error::HunkMismatch { path } => "patch does not apply to `"@ + path@ + seq!['`'],
        Error::EmptyPatchList => "patched dependency requires at least one patch file"@,
        Error::PatchPathDep => "patch files cannot be applied to a path dependency"@,
        Error::NestedPatch => "patch files cannot be applied to an already patched source"@,
        Error::NonExactVersion => "patched dependency requires an exact version"@,
        Error::MismatchedSource => {
            "patched dependency must refer to the same source as its patch table"@
        },
        Error::ConflictingPatchSets { first_pkg, second_pkg, .. } => {
            "packages `"@ + first_pkg@ + "` and `"@ + second_pkg@
                + "` from one git repository declare different patch sets"@
        },
        Error::IoError { path } => "cannot read `"@ + path@ + seq!['`'],
        Error::InvalidUrl { url } => "unsupported source URL `"@ + url@ + seq!['`'],
        Error::ManifestParse { path } => "failed to parse manifest at `"@ + path@ + seq!['`'],
    }
}

impl Error {
    /// The user-visible text of the error.
    pub fn message(&self) -> (r: String)
        ensures
            r@ == spec_message(*self),
    {
        proof {
            reveal_strlit("`");
            assert("`"@ =~= seq!['`']);
        }
        match self {
            Error::UnregisteredPatchSet { cksum } => {
                let mut out = String::from_str("no patch files registered for checksum `");
                let clen = cksum.as_str().unicode_len();
                if clen >= 8 {
                    out.append(cksum.as_str().substring_char(0, 8));
                } else {
                    out.append(cksum.as_str());
                }
                out.append("`");
                proof {
                    assert(out@ =~= spec_message(*self));
                }
                out
            },
            Error::AmbiguousPatchTarget { found } => {
                let mut out = String::from_str(
                    "expected exactly one package for patched dependency, found ",
                );
                let dec = crate::strutil::dec_of(*found as u64);
                out.append(dec.as_str());
                proof {
                    assert(out@ =~= spec_message(*self));
                }
                out
            },
            Error::EmptyPatch { path } => {
                let mut out = String::from_str("no valid patches found in `");
                out.append(path.as_str());
                out.append("`");
                proof {
                    assert(out@ =~= spec_message(*self));
                }
                out
            },
            Error::MalformedPatch { path } => {
                let mut out = String::from_str("invalid patch file `");
                out.append(path.as_str());
                out.append("`");
                proof {
                    assert(out@ =~= spec_message(*self));
                }
                out
            },
            Error::MissingSource { path } => {
                let mut out = String::from_str("patch source file `");
                out.append(path.as_str());
                out.append("` not found");
                proof {
                    assert(out@ =~= spec_message(*self));
                }
                out
            },
            Error::HunkMismatch { path } => {
                let mut out = String::from_str("patch does not apply to `");
                out.append(path.as_str());
                out.append("`");
                proof {
                    assert(out@ =~= spec_message(*self));
                }
                out
            },
            Error::EmptyPatchList => String::from_str(
                "patched dependency requires at least one patch file",
            ),
            Error::PatchPathDep => String::from_str(
                "patch files cannot be applied to a path dependency",
            ),
            Error::NestedPatch => String::from_str(
                "patch files cannot be applied to an already patched source",
            ),
            Error::NonExactVersion => String::from_str(
                "patched dependency requires an exact version",
            ),
            Error::MismatchedSource => String::from_str(
                "patched dependency must refer to the same source as its patch table",
            ),
            Error::ConflictingPatchSets { first_pkg, second_pkg, .. } => {
                let mut out = String::from_str("packages `");
                out.append(first_pkg.as_str());
                out.append("` and `");
                out.append(second_pkg.as_str());
                out.append("` from one git repository declare different patch sets");
                proof {
                    assert(out@ =~= spec_message(*self));
                }
                out
            },
            Error::IoError { path } => {
                let mut out = String::from_str("cannot read `");
                out.append(path.as_str());
                out.append("`");
                proof {
                    assert(out@ =~= spec_message(*self));
                }
                out
            },
            Error::InvalidUrl { url } => {
                let mut out = String::from_str("unsupported source URL `");
                out.append(url.as_str());
                out.append("`");
                proof {
                    assert(out@ =~= spec_message(*self));
                }
                out
            },
            Error::ManifestParse { path } => {
                let mut out = String::from_str("failed to parse manifest at `");
                out.append(path.as_str());
                out.append("`");
                proof {
                    assert(out@ =~= spec_message(*self));
                }
                out
            },
        }
    }

    /// True iff the two errors have the same kind, ignoring payloads.
    pub open spec fn same_kind(self, other: Error) -> bool {
        match (self, other) {
            (Error::UnregisteredPatchSet { .. }, Error::UnregisteredPatchSet { .. }) => true,
            (Error::AmbiguousPatchTarget { .. }, Error::AmbiguousPatchTarget { .. }) => true,
            (Error::EmptyPatch { .. }, Error::EmptyPatch { .. }) => true,
            (Error::MalformedPatch { .. }, Error::MalformedPatch { .. }) => true,
            (Error::MissingSource { .. }, Error::MissingSource { .. }) => true,
            (Error::HunkMismatch { .. }, Error::HunkMismatch { .. }) => true,
            (Error::EmptyPatchList, Error::EmptyPatchList) => true,
            (Error::PatchPathDep, Error::PatchPathDep) => true,
            (Error::NestedPatch, Error::NestedPatch) => true,
            (Error::NonExactVersion, Error::NonExactVersion) => true,
            (Error::MismatchedSource, Error::MismatchedSource) => true,
            (Error::ConflictingPatchSets { .. }, Error::ConflictingPatchSets { .. }) => true,
            (Error::IoError { .. }, Error::IoError { .. }) => true,
            (Error::InvalidUrl { .. }, Error::InvalidUrl { .. }) => true,
            (Error::ManifestParse { .. }, Error::ManifestParse { .. }) => true,
            _ => false,
        }
    }
}

} // verus!
