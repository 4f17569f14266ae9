//! Query-parameter handling on URL strings.
//!
//! A URL is modelled as its text.  The query part is everything after the
//! first `?`; parameters are separated by `&`; a parameter's key is the text
//! before its first `=` (or the whole parameter when it has none).

use vstd::prelude::*;

use crate::strutil::{
    find_char, join_char, lemma_find_char_props, spec_find_char, spec_join, spec_split, split_char,
    str_eq,
};

verus! {

/// The key of one query parameter.
pub open spec fn spec_param_key(p: Seq<char>) -> Seq<char> {
    match spec_find_char(p, '=', 0) {
        Some(i) => p.subrange(0, i),
        None => p,
    }
}

/// The parameters kept after removing those whose key is among `keys`.
pub open spec fn spec_kept_params(params: Seq<Seq<char>>, keys: Seq<Seq<char>>) -> Seq<Seq<char>>
    decreases params.len(),
{
    if params.len() == 0 {
        Seq::empty()
    } else {
        let rest = spec_kept_params(params.drop_last(), keys);
        if keys.contains(spec_param_key(params.last())) {
            rest
        } else {
            rest.push(params.last())
        }
    }
}

/// A fragment-free `url` with every query parameter named in `keys`
/// removed.  When no parameter is left the `?` disappears as well.
pub open spec fn spec_remove_params_nofrag(url: Seq<char>, keys: Seq<Seq<char>>) -> Seq<char> {
    match spec_find_char(url, '?', 0) {
        None => url,
        Some(q) => {
            let base = url.subrange(0, q);
            let kept = spec_kept_params(spec_split(url.skip(q + 1), '&'), keys);
            if kept.len() == 0 {
                base
            } else {
                base + seq!['?'] + spec_join(kept, '&')
            }
        },
    }
}

/// `url` with every query parameter named in `keys` removed.  The query
/// runs from the first `?` to the fragment, which starts at the first `#`
/// and is kept as it stands.
pub open spec fn spec_remove_params(url: Seq<char>, keys: Seq<Seq<char>>) -> Seq<char> {
    match spec_find_char(url, '#', 0) {
        None => spec_remove_params_nofrag(url, keys),
        Some(h) => spec_remove_params_nofrag(url.take(h), keys) + url.skip(h),
    }
}

/// Extends a URL with query parameters.
pub trait UrlExt {
    /// Removes the query parameters named in `keys` from the URL.
    fn remove_query_params(&mut self, keys: &Vec<String>)
        ensures
            final(self).view_as_url() == spec_remove_params(
                old(self).view_as_url(),
                keys@.map_values(|k: String| k@),
            ),
    ;

    /// The URL's text.
    spec fn view_as_url(&self) -> Seq<char>;
}

/// The key of one query parameter.
fn param_key(p: &String) -> (r: String)
    ensures
        r@ == spec_param_key(p@),
{
    match find_char(p.as_str(), '=', 0) {
        Some(i) => {
            proof {
                lemma_find_char_props(p@, '=', 0);
            }
            String::from_str(p.as_str().substring_char(0, i))
        },
        None => String::from_str(p.as_str()),
    }
}

/// Whether `keys` contains a string equal to `k`.
fn contains_key(keys: &Vec<String>, k: &String) -> (r: bool)
    ensures
        r == keys@.map_values(|x: String| x@).contains(k@),
{
    let ghost m = keys@.map_values(|x: String| x@);
    let mut i: usize = 0;
    while i < keys.len()
        invariant
            i <= keys@.len(),
            m == keys@.map_values(|x: String| x@),
            forall|j: int| 0 <= j < i ==> m[j] != k@,
        decreases keys@.len() - i,
    {
        if str_eq(keys[i].as_str(), k.as_str()) {
            assert(m[i as int] == k@);
            return true;
        }
        i = i + 1;
    }
    false
}

/// Removes the named parameters from a fragment-free URL text.
fn remove_params_str(url: &str, keys: &Vec<String>) -> (r: String)
    ensures
        r@ == spec_remove_params_nofrag(url@, keys@.map_values(|k: String| k@)),
{
    let ghost keyviews = keys@.map_values(|k: String| k@);
    let q = match find_char(url, '?', 0) {
        None => {
            return String::from_str(url);
        },
        Some(q) => q,
    };
    proof {
        lemma_find_char_props(url@, '?', 0);
    }
    let len = url.unicode_len();
    let base = String::from_str(url.substring_char(0, q));
    let query = String::from_str(url.substring_char(q + 1, len));
    proof {
        assert(query@ =~= url@.skip(q + 1));
    }
    let params = split_char(query.as_str(), '&');
    let ghost paramviews = params@.map_values(|p: String| p@);
    let mut kept: Vec<String> = Vec::new();
    let mut i: usize = 0;
    while i < params.len()
        invariant
            i <= params@.len(),
            paramviews == params@.map_values(|p: String| p@),
            keyviews == keys@.map_values(|k: String| k@),
            kept@.map_values(|p: String| p@) == spec_kept_params(
                paramviews.subrange(0, i as int),
                keyviews,
            ),
        decreases params@.len() - i,
    {
        let key = param_key(&params[i]);
        let ghost pre_kept = kept@.map_values(|p: String| p@);
        if !contains_key(keys, &key) {
            let item = String::from_str(params[i].as_str());
            kept.push(item);
            proof {
                assert(kept@.map_values(|p: String| p@) =~= pre_kept.push(paramviews[i as int]));
            }
        }
        proof {
            assert(paramviews.subrange(0, i + 1).drop_last() =~= paramviews.subrange(0, i as int));
            assert(paramviews.subrange(0, i + 1).last() == paramviews[i as int]);
        }
        i = i + 1;
    }
    proof {
        assert(paramviews.subrange(0, paramviews.len() as int) =~= paramviews);
    }
    if kept.len() == 0 {
        base
    } else {
        let mut out = base;
        proof {
            reveal_strlit("?");
            reveal_strlit("&");
        }
        out.append("?");
        let joined = join_char(&kept, "&");
        out.append(joined.as_str());
        proof {
            assert("?"@ =~= seq!['?']);
            assert("&"@[0] == '&');
        }
        out
    }
}

impl UrlExt for String {
    open spec fn view_as_url(&self) -> Seq<char> {
        self@
    }

    fn remove_query_params(&mut self, keys: &Vec<String>) {
        let len = self.as_str().unicode_len();
        match find_char(self.as_str(), '#', 0) {
            None => {
                *self = remove_params_str(self.as_str(), keys);
            },
            Some(h) => {
                proof {
                    lemma_find_char_props(self@, '#', 0);
                }
                let head = String::from_str(self.as_str().substring_char(0, h));
                let frag = String::from_str(self.as_str().substring_char(h, len));
                proof {
                    assert(head@ =~= old(self)@.take(h as int));
                    assert(frag@ =~= old(self)@.skip(h as int));
                }
                let mut out = remove_params_str(head.as_str(), keys);
                out.append(frag.as_str());
                *self = out;
            },
        }
    }
}

/// Appends `key=value` to a URL, introducing `?` or `&` as needed.
pub fn append_query_param(url: &String, key: &str, value: &str) -> (r: String)
    ensures
        r@ == spec_append_param(url@, key@, value@),
{
    let mut out = String::from_str(url.as_str());
    proof {
        reveal_strlit("?");
        reveal_strlit("&");
        reveal_strlit("=");
        lemma_find_char_props(url@, '?', 0);
        assert("?"@ =~= seq!['?']);
        assert("&"@ =~= seq!['&']);
        assert("="@ =~= seq!['=']);
    }
    match find_char(url.as_str(), '?', 0) {
        Some(_) => out.append("&"),
        None => out.append("?"),
    }
    out.append(key);
    out.append("=");
    out.append(value);
    out
}

/// `url` extended with one `key=value` query parameter: after `&` when the
/// URL already has a query, else after `?`.
pub open spec fn spec_append_param(url: Seq<char>, key: Seq<char>, value: Seq<char>) -> Seq<char> {
    let sep = if spec_find_char(url, '?', 0) is Some {
        seq!['&']
    } else {
        seq!['?']
    };
    url + sep + key + seq!['='] + value
}

} // verus!
