//! Identity of sources.
//!
//! A source is a registry, a git repository, a local path, or a patched
//! wrapper around a registry or git source.  A patched identifier composes
//! the inner identifier with the checksum of its patch-set; its canonical URL
//! form is `patched+<inner-url>?patch-cksum=<64-hex>`, and the `patched+`
//! prefix keeps it distinct from the inner source during lookup and routing.

use vstd::prelude::*;

use crate::errors::Error;
use crate::hasher::{digest_hex, digest_of, digest_prefix};
use crate::strutil::{
    find_char, hex_range, is_hex_seq, is_prefix_of, lemma_find_char_props,
    lemma_not_prefix_diff_at, spec_find_char, starts_with, str_eq,
};
use crate::urlx::{append_query_param, spec_append_param, spec_remove_params, UrlExt};

verus! {

/// The mathematical value of a source identifier.
pub enum SourceIdV {
    Registry { url: Seq<char> },
    Git { url: Seq<char>, precise: Option<Seq<char>> },
    Path { url: Seq<char> },
    Patched { inner: Box<SourceIdV>, cksum: Seq<char> },
}

/// A source identifier.
pub enum SourceId {
    /// A package registry, addressed by its index URL.
    Registry { url: String },
    /// A git repository, with an optional precise revision.
    Git { url: String, precise: Option<String> },
    /// A local directory.
    Path { url: String },
    /// An inner registry or git source further transformed by a patch-set,
    /// identified by the patch-set's full checksum.
    Patched { inner: Box<SourceId>, cksum: String },
}

impl View for SourceId {
    type V = SourceIdV;

    open spec fn view(&self) -> SourceIdV
        decreases self,
    {
        match self {
            SourceId::Registry { url } => SourceIdV::Registry { url: url@ },
            SourceId::Git { url, precise } => SourceIdV::Git {
                url: url@,
                precise: match precise {
                    Some(p) => Some(p@),
                    None => None,
                },
            },
            SourceId::Path { url } => SourceIdV::Path { url: url@ },
            SourceId::Patched { inner, cksum } => SourceIdV::Patched {
                inner: Box::new((**inner)@),
                cksum: cksum@,
            },
        }
    }
}

/// Well-formedness of an identifier: a git URL carries no fragment of its
/// own, a patch checksum is a full 64-character hex digest, and the inner
/// source of a patched identifier is a registry or git source, never a path
/// and never itself patched.
pub open spec fn wf_sid(v: SourceIdV) -> bool
    decreases v,
{
    match v {
        SourceIdV::Registry { .. } => true,
        SourceIdV::Git { url, .. } => spec_find_char(url, '#', 0) is None,
        SourceIdV::Path { .. } => true,
        SourceIdV::Patched { inner, cksum } => wf_sid(*inner) && ((*inner) matches
            SourceIdV::Registry { .. } || (*inner) matches SourceIdV::Git { .. })
            && cksum.len() == 64 && is_hex_seq(cksum),
    }
}

/// The canonical URL text of an identifier.
pub open spec fn spec_to_url(v: SourceIdV) -> Seq<char>
    decreases v,
{
    match v {
        SourceIdV::Registry { url } => "registry+"@ + url,
        SourceIdV::Git { url, precise } => "git+"@ + url + (match precise {
            None => Seq::<char>::empty(),
            Some(r) => seq!['#'] + r,
        }),
        SourceIdV::Path { url } => "path+"@ + url,
        SourceIdV::Patched { inner, cksum } => "patched+"@ + spec_append_param(
            spec_to_url(*inner),
            "patch-cksum"@,
            cksum,
        ),
    }
}

/// Parses the canonical URL text back into an identifier.
pub open spec fn spec_from_url(s: Seq<char>) -> Option<SourceIdV>
    decreases s.len(),
{
    if is_prefix_of("patched+"@, s) {
        let n = s.len() as int;
        if n >= 85 && (s[n - 77] == '?' || s[n - 77] == '&') && s.subrange(n - 76, n - 64)
            == "patch-cksum="@ && is_hex_seq(s.subrange(n - 64, n)) {
            match spec_from_url(s.subrange(8, n - 77)) {
                Some(inner) => if inner matches SourceIdV::Registry { .. } || inner matches
                    SourceIdV::Git { .. } {
                    Some(
                        SourceIdV::Patched {
                            inner: Box::new(inner),
                            cksum: s.subrange(n - 64, n),
                        },
                    )
                } else {
                    None
                },
                None => None,
            }
        } else {
            None
        }
    } else if is_prefix_of("registry+"@, s) {
        Some(SourceIdV::Registry { url: s.skip(9) })
    } else if is_prefix_of("git+"@, s) {
        match spec_find_char(s, '#', 4) {
            Some(i) => Some(
                SourceIdV::Git { url: s.subrange(4, i), precise: Some(s.skip(i + 1)) },
            ),
            None => Some(SourceIdV::Git { url: s.skip(4), precise: None }),
        }
    } else if is_prefix_of("path+"@, s) {
        Some(SourceIdV::Path { url: s.skip(5) })
    } else {
        None
    }
}

impl SourceId {
    /// Whether this is a registry source.
    pub fn is_registry(&self) -> (r: bool)
        ensures
            r == (self@ matches SourceIdV::Registry { .. }),
    {
        match self {
            SourceId::Registry { .. } => true,
            _ => false,
        }
    }

    /// Whether this is a git source.
    pub fn is_git(&self) -> (r: bool)
        ensures
            r == (self@ matches SourceIdV::Git { .. }),
    {
        match self {
            SourceId::Git { .. } => true,
            _ => false,
        }
    }

    /// Whether this is a local path source.
    pub fn is_path(&self) -> (r: bool)
        ensures
            r == (self@ matches SourceIdV::Path { .. }),
    {
        match self {
            SourceId::Path { .. } => true,
            _ => false,
        }
    }

    /// Whether this is a patched source.
    pub fn is_patched(&self) -> (r: bool)
        ensures
            r == (self@ matches SourceIdV::Patched { .. }),
    {
        match self {
            SourceId::Patched { .. } => true,
            _ => false,
        }
    }

    /// An equal copy of the identifier.
    pub fn clone_id(&self) -> (r: SourceId)
        ensures
            r@ == self@,
        decreases self,
    {
        match self {
            SourceId::Registry { url } => SourceId::Registry {
                url: String::from_str(url.as_str()),
            },
            SourceId::Git { url, precise } => SourceId::Git {
                url: String::from_str(url.as_str()),
                precise: match precise {
                    Some(p) => Some(String::from_str(p.as_str())),
                    None => None,
                },
            },
            SourceId::Path { url } => SourceId::Path { url: String::from_str(url.as_str()) },
            SourceId::Patched { inner, cksum } => SourceId::Patched {
                inner: Box::new(inner.clone_id()),
                cksum: String::from_str(cksum.as_str()),
            },
        }
    }

    /// The identifier being patched.  Strips exactly one patched layer.
    pub fn inner_id(&self) -> (r: SourceId)
        requires
            self@ matches SourceIdV::Patched { .. },
        ensures
            self@ matches SourceIdV::Patched { inner, .. } && r@ == *inner,
    {
        match self {
            SourceId::Patched { inner, .. } => inner.clone_id(),
            _ => unreached(),
        }
    }

    /// The patch-set checksum of a patched identifier.
    pub fn patch_cksum(&self) -> (r: Option<&String>)
        ensures
            match r {
                Some(c) => self@ matches SourceIdV::Patched { cksum, .. } && c@ == cksum,
                None => !(self@ matches SourceIdV::Patched { .. }),
            },
    {
        match self {
            SourceId::Patched { cksum, .. } => Some(cksum),
            _ => None,
        }
    }

    /// Renders the canonical URL.
    pub fn to_url(&self) -> (r: String)
        ensures
            r@ == spec_to_url(self@),
        decreases self,
    {
        match self {
            SourceId::Registry { url } => {
                let mut out = String::from_str("registry+");
                out.append(url.as_str());
                out
            },
            SourceId::Git { url, precise } => {
                let mut out = String::from_str("git+");
                out.append(url.as_str());
                match precise {
                    Some(r) => {
                        proof {
                            reveal_strlit("#");
                        }
                        out.append("#");
                        out.append(r.as_str());
                        proof {
                            assert("#"@ =~= seq!['#']);
                            assert(out@ =~= spec_to_url(self@));
                        }
                    },
                    None => {
                        proof {
                            assert(out@ =~= spec_to_url(self@));
                        }
                    },
                }
                out
            },
            SourceId::Path { url } => {
                let mut out = String::from_str("path+");
                out.append(url.as_str());
                out
            },
            SourceId::Patched { inner, cksum } => {
                let iu = inner.to_url();
                let with_param = append_query_param(&iu, "patch-cksum", cksum.as_str());
                let mut out = String::from_str("patched+");
                out.append(with_param.as_str());
                out
            },
        }
    }

    /// Parses a canonical URL.
    pub fn from_url(s: &str) -> (r: Result<SourceId, Error>)
        ensures
            match r {
                Ok(id) => spec_from_url(s@) == Some(id@),
                Err(e) => spec_from_url(s@) is None && (e matches Error::InvalidUrl { url }
                    && url@ == s@),
            },
        decreases s@.len(),
    {
        let n = s.unicode_len();
        proof {
            reveal_strlit("patched+");
            reveal_strlit("registry+");
            reveal_strlit("git+");
            reveal_strlit("path+");
        }
        if starts_with(s, "patched+") {
            if n < 85 {
                return Err(Error::InvalidUrl { url: String::from_str(s) });
            }
            let sep = s.get_char(n - 77);
            if !(sep == '?' || sep == '&') {
                return Err(Error::InvalidUrl { url: String::from_str(s) });
            }
            let marker = s.substring_char(n - 76, n - 64);
            if !str_eq(marker, "patch-cksum=") {
                return Err(Error::InvalidUrl { url: String::from_str(s) });
            }
            if !hex_range(s, n - 64, n) {
                return Err(Error::InvalidUrl { url: String::from_str(s) });
            }
            let inner_str = s.substring_char(8, n - 77);
            match SourceId::from_url(inner_str) {
                Ok(inner) => {
                    if inner.is_registry() || inner.is_git() {
                        let cksum = String::from_str(s.substring_char(n - 64, n));
                        Ok(SourceId::Patched { inner: Box::new(inner), cksum })
                    } else {
                        Err(Error::InvalidUrl { url: String::from_str(s) })
                    }
                },
                Err(_) => Err(Error::InvalidUrl { url: String::from_str(s) }),
            }
        } else if starts_with(s, "registry+") {
            Ok(SourceId::Registry { url: String::from_str(s.substring_char(9, n)) })
        } else if starts_with(s, "git+") {
            proof {
                lemma_find_char_props(s@, '#', 4);
            }
            match find_char(s, '#', 4) {
                Some(i) => Ok(
                    SourceId::Git {
                        url: String::from_str(s.substring_char(4, i)),
                        precise: Some(String::from_str(s.substring_char(i + 1, n))),
                    },
                ),
                None => Ok(
                    SourceId::Git {
                        url: String::from_str(s.substring_char(4, n)),
                        precise: None,
                    },
                ),
            }
        } else if starts_with(s, "path+") {
            Ok(SourceId::Path { url: String::from_str(s.substring_char(5, n)) })
        } else {
            Err(Error::InvalidUrl { url: String::from_str(s) })
        }
    }

    /// A 16-character stable short hash of the identifier, derived from its
    /// canonical URL.
    pub fn short_hash(&self) -> (r: String)
        ensures
            r@ == digest_of(spec_to_url(self@)).subrange(0, 16),
    {
        let url = self.to_url();
        let digest = digest_hex(url.as_str());
        digest_prefix(digest.as_str(), 16)
    }
}

/// Wraps an inner identifier into a patched identifier carrying the
/// patch-set checksum.  A path source and an already patched source are
/// rejected: patching is only valid for registry and git sources.  Any
/// pre-existing `patch-cksum` query parameter is stripped from the inner
/// URL, which reserves that key for the patched layer itself.
pub fn make_patched(inner: &SourceId, cksum: &str) -> (r: Result<SourceId, Error>)
    requires
        cksum@.len() == 64,
        is_hex_seq(cksum@),
    ensures
        match r {
            Ok(id) => (inner@ matches SourceIdV::Registry { .. } || inner@ matches
                SourceIdV::Git { .. }) && id@ == spec_make_patched(inner@, cksum@),
            Err(e) => {
                &&& inner@ matches SourceIdV::Path { .. } ==> e == Error::PatchPathDep
                &&& inner@ matches SourceIdV::Patched { .. } ==> e == Error::NestedPatch
                &&& (inner@ matches SourceIdV::Path { .. } || inner@ matches
                    SourceIdV::Patched { .. })
            },
        },
{
    let mut keys: Vec<String> = Vec::new();
    keys.push(String::from_str("patch-cksum"));
    proof {
        assert(keys@.map_values(|k: String| k@) =~= seq!["patch-cksum"@]);
    }
    match inner {
        SourceId::Path { .. } => Err(Error::PatchPathDep),
        SourceId::Patched { .. } => Err(Error::NestedPatch),
        SourceId::Registry { url } => {
            let mut stripped = String::from_str(url.as_str());
            stripped.remove_query_params(&keys);
            let ghost stripped_view = stripped@;
            let boxed = Box::new(SourceId::Registry { url: stripped });
            proof {
                assert(boxed@ == SourceIdV::Registry { url: stripped_view });
            }
            let result = SourceId::Patched { inner: boxed, cksum: String::from_str(cksum) };
            proof {
                assert(result@ == spec_make_patched(inner@, cksum@));
            }
            Ok(result)
        },
        SourceId::Git { url, precise } => {
            let mut stripped = String::from_str(url.as_str());
            stripped.remove_query_params(&keys);
            let ghost stripped_view = stripped@;
            let boxed = Box::new(
                SourceId::Git {
                    url: stripped,
                    precise: match precise {
                        Some(p) => Some(String::from_str(p.as_str())),
                        None => None,
                    },
                },
            );
            proof {
                assert(boxed@->Git_url == stripped_view);
            }
            let result = SourceId::Patched { inner: boxed, cksum: String::from_str(cksum) };
            proof {
                assert(result@ == spec_make_patched(inner@, cksum@));
            }
            Ok(result)
        },
    }
}

/// Compares two identifiers.  Two patched identifiers are equal exactly when
/// their inner identifiers are equal and their patch checksums are equal.
pub fn id_eq(a: &SourceId, b: &SourceId) -> (r: bool)
    ensures
        r == (a@ == b@),
    decreases a,
{
    match (a, b) {
        (SourceId::Registry { url: ua }, SourceId::Registry { url: ub }) => str_eq(
            ua.as_str(),
            ub.as_str(),
        ),
        (
            SourceId::Git { url: ua, precise: pa },
            SourceId::Git { url: ub, precise: pb },
        ) => {
            let urls = str_eq(ua.as_str(), ub.as_str());
            let revs = match (pa, pb) {
                (None, None) => true,
                (Some(ra), Some(rb)) => str_eq(ra.as_str(), rb.as_str()),
                _ => false,
            };
            urls && revs
        },
        (SourceId::Path { url: ua }, SourceId::Path { url: ub }) => str_eq(
            ua.as_str(),
            ub.as_str(),
        ),
        (
            SourceId::Patched { inner: ia, cksum: ca },
            SourceId::Patched { inner: ib, cksum: cb },
        ) => {
            let inner_eq = id_eq(ia, ib);
            let cksum_eq = str_eq(ca.as_str(), cb.as_str());
            proof {
                if (**ia)@ == (**ib)@ {
                    assert(Box::new((**ia)@) == Box::new((**ib)@));
                }
                if a@ == b@ {
                    assert(*a@->Patched_inner == *b@->Patched_inner);
                }
            }
            inner_eq && cksum_eq
        },
        _ => false,
    }
}

/// Parsing the canonical URL of a well-formed identifier restores the
/// identifier exactly, for every variant.
pub proof fn lemma_url_round_trip(v: SourceIdV)
    requires
        wf_sid(v),
    ensures
        spec_from_url(spec_to_url(v)) == Some(v),
    decreases v,
{
    reveal_strlit("patched+");
    reveal_strlit("registry+");
    reveal_strlit("git+");
    reveal_strlit("path+");
    reveal_strlit("patch-cksum");
    reveal_strlit("patch-cksum=");
    let s = spec_to_url(v);
    match v {
        SourceIdV::Registry { url } => {
            assert(s[0] == 'r');
            lemma_not_prefix_diff_at("patched+"@, s, 0);
            assert(is_prefix_of("registry+"@, s)) by {
                assert(s.subrange(0, 9) =~= "registry+"@);
            }
            assert(s.skip(9) =~= url);
        },
        SourceIdV::Git { url, precise } => {
            assert(s[0] == 'g');
            lemma_not_prefix_diff_at("patched+"@, s, 0);
            lemma_not_prefix_diff_at("registry+"@, s, 0);
            assert(is_prefix_of("git+"@, s)) by {
                assert(s.subrange(0, 4) =~= "git+"@);
            }
            lemma_find_char_props(url, '#', 0);
            match precise {
                None => {
                    assert(spec_find_char(s, '#', 4) is None) by {
                        lemma_find_char_props(s, '#', 4);
                        match spec_find_char(s, '#', 4) {
                            Some(i) => {
                                assert(s[i] == '#');
                                assert(url[i - 4] == '#');
                            },
                            None => {},
                        }
                    }
                    assert(s.skip(4) =~= url);
                },
                Some(r) => {
                    let b = 4 + url.len() as int;
                    assert(s[b] == '#');
                    assert(spec_find_char(s, '#', 4) == Some(b)) by {
                        lemma_find_char_props(s, '#', 4);
                        match spec_find_char(s, '#', 4) {
                            Some(i) => {
                                if i < b {
                                    assert(s[i] == '#');
                                    assert(url[i - 4] == '#');
                                }
                                if i > b {
                                    assert(s[b] == '#');
                                }
                            },
                            None => {
                                assert(s[b] == '#');
                            },
                        }
                    }
                    assert(s.subrange(4, b) =~= url);
                    assert(s.skip(b + 1) =~= r);
                },
            }
        },
        SourceIdV::Path { url } => {
            assert(s[0] == 'p');
            assert(s[3] == 'h');
            lemma_not_prefix_diff_at("patched+"@, s, 3);
            lemma_not_prefix_diff_at("registry+"@, s, 0);
            lemma_not_prefix_diff_at("git+"@, s, 0);
            assert(is_prefix_of("path+"@, s)) by {
                assert(s.subrange(0, 5) =~= "path+"@);
            }
            assert(s.skip(5) =~= url);
        },
        SourceIdV::Patched { inner, cksum } => {
            lemma_url_round_trip(*inner);
            let iu = spec_to_url(*inner);
            let sep: char = if spec_find_char(iu, '?', 0) is Some {
                '&'
            } else {
                '?'
            };
            assert(s =~= "patched+"@ + iu + seq![sep] + "patch-cksum"@ + seq!['='] + cksum);
            let n = s.len() as int;
            assert(n == 85 + iu.len());
            assert(is_prefix_of("patched+"@, s)) by {
                assert(s.subrange(0, 8) =~= "patched+"@);
            }
            assert(s[n - 77] == sep);
            assert(s.subrange(n - 76, n - 64) =~= "patch-cksum"@ + seq!['=']);
            assert("patch-cksum="@ =~= "patch-cksum"@ + seq!['=']);
            assert(s.subrange(n - 64, n) =~= cksum);
            assert(s.subrange(8, n - 77) =~= iu);
            assert(spec_from_url(iu) == Some(*inner));
            assert(spec_from_url(s) == Some(SourceIdV::Patched { inner: Box::new(*inner), cksum }));
            assert(Box::new(*inner) == inner);
        },
    }
}

/// The patched identifier built from a registry or git inner identifier:
/// the inner URL loses any `patch-cksum` parameter and the checksum is
/// recorded beside it.
pub open spec fn spec_make_patched(inner: SourceIdV, cksum: Seq<char>) -> SourceIdV {
    let stripped = match inner {
        SourceIdV::Registry { url } => SourceIdV::Registry {
            url: spec_remove_params(url, seq!["patch-cksum"@]),
        },
        SourceIdV::Git { url, precise } => SourceIdV::Git {
            url: spec_remove_params(url, seq!["patch-cksum"@]),
            precise,
        },
        _ => inner,
    };
    SourceIdV::Patched { inner: Box::new(stripped), cksum }
}

} // verus!
