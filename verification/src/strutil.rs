//! Small executable helpers over `String` and `&str`, each with an exact
//! contract over the `Seq<char>` view.

use vstd::prelude::*;

verus! {

/// Compares two string slices character by character.
pub fn str_eq(a: &str, b: &str) -> (r: bool)
    ensures
        r == (a@ == b@),
{
    let alen = a.unicode_len();
    let blen = b.unicode_len();
    if alen != blen {
        assert(a@ != b@) by {
            assert(a@.len() != b@.len());
        }
        return false;
    }
    let mut i: usize = 0;
    while i < alen
        invariant
            alen == a@.len(),
            alen == b@.len(),
            i <= alen,
            forall|j: int| 0 <= j < i ==> a@[j] == b@[j],
        decreases alen - i,
    {
        if a.get_char(i) != b.get_char(i) {
            return false;
        }
        i = i + 1;
    }
    assert(a@ =~= b@);
    true
}

/// True iff `p` is a prefix of `s`.
pub open spec fn is_prefix_of(p: Seq<char>, s: Seq<char>) -> bool {
    p.len() <= s.len() && s.subrange(0, p.len() as int) == p
}

/// Tests whether `s` starts with `p`.
pub fn starts_with(s: &str, p: &str) -> (r: bool)
    ensures
        r == is_prefix_of(p@, s@),
{
    let slen = s.unicode_len();
    let plen = p.unicode_len();
    if plen > slen {
        return false;
    }
    let mut i: usize = 0;
    while i < plen
        invariant
            plen == p@.len(),
            slen == s@.len(),
            plen <= slen,
            i <= plen,
            forall|j: int| 0 <= j < i ==> s@[j] == p@[j],
        decreases plen - i,
    {
        if s.get_char(i) != p.get_char(i) {
            assert(!is_prefix_of(p@, s@)) by {
                assert(s@.subrange(0, p@.len() as int)[i as int] != p@[i as int]);
            }
            return false;
        }
        i = i + 1;
    }
    assert(s@.subrange(0, p@.len() as int) =~= p@);
    true
}

/// Tests whether `s` continues with `p` at position `pos`.
pub fn starts_with_at(s: &str, p: &str, pos: usize) -> (r: bool)
    requires
        pos <= s@.len(),
    ensures
        r == is_prefix_of(p@, s@.skip(pos as int)),
{
    let slen = s.unicode_len();
    let plen = p.unicode_len();
    let ghost tail = s@.skip(pos as int);
    if plen > slen - pos {
        return false;
    }
    let mut i: usize = 0;
    while i < plen
        invariant
            plen == p@.len(),
            slen == s@.len(),
            pos + plen <= slen,
            tail == s@.skip(pos as int),
            i <= plen,
            forall|j: int| 0 <= j < i ==> tail[j] == p@[j],
        decreases plen - i,
    {
        if s.get_char(pos + i) != p.get_char(i) {
            assert(!is_prefix_of(p@, tail)) by {
                assert(tail.subrange(0, p@.len() as int)[i as int] != p@[i as int]);
            }
            return false;
        }
        i = i + 1;
    }
    assert(tail.subrange(0, p@.len() as int) =~= p@);
    true
}

/// A sequence that differs from `p` at some position is not prefixed by it.
pub proof fn lemma_not_prefix_diff_at(p: Seq<char>, s: Seq<char>, i: int)
    requires
        0 <= i < p.len(),
        i < s.len(),
        p[i] != s[i],
    ensures
        !is_prefix_of(p, s),
{
    if is_prefix_of(p, s) {
        assert(s.subrange(0, p.len() as int)[i] == s[i]);
    }
}

/// Index of the first occurrence of `c` in `s` at or after `from`, if any.
pub open spec fn spec_find_char(s: Seq<char>, c: char, from: int) -> Option<int>
    decreases s.len() - from,
{
    if from < 0 || from >= s.len() {
        None
    } else if s[from] == c {
        Some(from)
    } else {
        spec_find_char(s, c, from + 1)
    }
}

pub proof fn lemma_find_char_props(s: Seq<char>, c: char, from: int)
    requires
        0 <= from <= s.len(),
    ensures
        match spec_find_char(s, c, from) {
            Some(i) => from <= i < s.len() && s[i] == c && forall|j: int|
                from <= j < i ==> s[j] != c,
            None => forall|j: int| from <= j < s.len() ==> s[j] != c,
        },
    decreases s.len() - from,
{
    if from < s.len() && s[from] != c {
        lemma_find_char_props(s, c, from + 1);
    }
}

/// Finds the first occurrence of `c` in `s` at or after `from`.
pub fn find_char(s: &str, c: char, from: usize) -> (r: Option<usize>)
    requires
        from <= s@.len(),
    ensures
        match r {
            Some(i) => Some(i as int) == spec_find_char(s@, c, from as int),
            None => spec_find_char(s@, c, from as int) is None,
        },
{
    let len = s.unicode_len();
    let mut i: usize = from;
    while i < len
        invariant
            len == s@.len(),
            from <= i <= len,
            spec_find_char(s@, c, from as int) == spec_find_char(s@, c, i as int),
        decreases len - i,
    {
        if s.get_char(i) == c {
            return Some(i);
        }
        i = i + 1;
    }
    None
}

/// True iff every character of `s` is an ASCII lowercase hex digit.
pub open spec fn is_hex_seq(s: Seq<char>) -> bool {
    forall|i: int| 0 <= i < s.len() ==> is_hex_char(s[i])
}

pub open spec fn is_hex_char(c: char) -> bool {
    ('0' <= c && c <= '9') || ('a' <= c && c <= 'f')
}

/// Tests whether `c` is an ASCII lowercase hex digit.
pub fn hex_char(c: char) -> (r: bool)
    ensures
        r == is_hex_char(c),
{
    let u = c as u32;
    (48 <= u && u <= 57) || (97 <= u && u <= 102)
}

/// Tests whether every character of `s` in `[from, to)` is a hex digit.
pub fn hex_range(s: &str, from: usize, to: usize) -> (r: bool)
    requires
        from <= to <= s@.len(),
    ensures
        r == is_hex_seq(s@.subrange(from as int, to as int)),
{
    let mut i: usize = from;
    while i < to
        invariant
            from <= i <= to <= s@.len(),
            forall|j: int| from <= j < i ==> is_hex_char(s@[j]),
        decreases to - i,
    {
        if !hex_char(s.get_char(i)) {
            assert(!is_hex_seq(s@.subrange(from as int, to as int))) by {
                assert(s@.subrange(from as int, to as int)[i - from] == s@[i as int]);
            }
            return false;
        }
        i = i + 1;
    }
    assert forall|k: int| 0 <= k < to - from implies is_hex_char(
        s@.subrange(from as int, to as int)[k],
    ) by {
        assert(s@.subrange(from as int, to as int)[k] == s@[k + from]);
    }
    true
}

/// The decimal digit characters of `n`, most significant first.
pub open spec fn spec_dec_of(n: nat) -> Seq<char>
    decreases n,
{
    if n < 10 {
        seq![dec_digit(n)]
    } else {
        spec_dec_of(n / 10) + seq![dec_digit(n % 10)]
    }
}

/// The parts of `s` between occurrences of the separator `c`.  Splitting the
/// empty sequence gives one empty part, so the result is never empty.
pub open spec fn spec_split(s: Seq<char>, c: char) -> Seq<Seq<char>>
    decreases s.len(),
{
    if s.len() == 0 {
        seq![Seq::empty()]
    } else if s[0] == c {
        seq![Seq::<char>::empty()] + spec_split(s.skip(1), c)
    } else {
        prepend_first(seq![s[0]], spec_split(s.skip(1), c))
    }
}

/// Prepends `x` to the first part of a non-empty part list.
pub open spec fn prepend_first(x: Seq<char>, parts: Seq<Seq<char>>) -> Seq<Seq<char>> {
    seq![x + parts[0]] + parts.skip(1)
}

pub proof fn lemma_split_len(s: Seq<char>, c: char)
    ensures
        spec_split(s, c).len() >= 1,
    decreases s.len(),
{
    if s.len() != 0 {
        lemma_split_len(s.skip(1), c);
    }
}

/// The parts joined back with the separator between them.
pub open spec fn spec_join(parts: Seq<Seq<char>>, c: char) -> Seq<char>
    decreases parts.len(),
{
    if parts.len() == 0 {
        Seq::empty()
    } else if parts.len() == 1 {
        parts[0]
    } else {
        parts[0] + seq![c] + spec_join(parts.skip(1), c)
    }
}

/// Splits `s` on the separator `c`.
pub fn split_char(s: &str, c: char) -> (r: Vec<String>)
    ensures
        r@.map_values(|p: String| p@) == spec_split(s@, c),
{
    let len = s.unicode_len();
    let mut done: Vec<String> = Vec::new();
    let mut cur = String::new();
    let mut i: usize = 0;
    proof {
        lemma_split_len(s@, c);
        assert(prepend_first(cur@, spec_split(s@.skip(0), c)) =~= spec_split(s@.skip(0), c)) by {
            assert(cur@ + spec_split(s@.skip(0), c)[0] =~= spec_split(s@.skip(0), c)[0]);
        }
        assert(s@.skip(0) =~= s@);
        assert(done@.map_values(|p: String| p@) =~= Seq::<Seq<char>>::empty());
    }
    while i < len
        invariant
            len == s@.len(),
            i <= len,
            spec_split(s@, c) =~= done@.map_values(|p: String| p@) + prepend_first(
                cur@,
                spec_split(s@.skip(i as int), c),
            ),
        decreases len - i,
    {
        let ghost old_done = done@;
        let ghost old_cur = cur@;
        let ghost tail = s@.skip(i as int);
        proof {
            assert(tail.len() > 0);
            assert(tail[0] == s@[i as int]);
            assert(tail.skip(1) =~= s@.skip(i + 1));
            lemma_split_len(s@.skip(i + 1), c);
        }
        if s.get_char(i) == c {
            done.push(cur);
            cur = String::new();
            proof {
                let rest = spec_split(s@.skip(i + 1), c);
                assert(spec_split(tail, c) =~= seq![Seq::<char>::empty()] + rest);
                assert(prepend_first(old_cur, seq![Seq::<char>::empty()] + rest) =~= seq![old_cur]
                    + rest);
                assert(done@.map_values(|p: String| p@) =~= old_done.map_values(|p: String| p@)
                    + seq![old_cur]);
                assert(prepend_first(cur@, rest) =~= rest) by {
                    assert(cur@ + rest[0] =~= rest[0]);
                }
                assert(spec_split(s@, c) =~= done@.map_values(|p: String| p@) + prepend_first(
                    cur@,
                    spec_split(s@.skip(i + 1), c),
                ));
            }
        } else {
            let piece = s.substring_char(i, i + 1);
            cur.append(piece);
            proof {
                let rest = spec_split(s@.skip(i + 1), c);
                assert(piece@ =~= seq![s@[i as int]]);
                assert(spec_split(tail, c) =~= prepend_first(seq![tail[0]], rest));
                assert(prepend_first(old_cur, prepend_first(seq![tail[0]], rest)) =~= prepend_first(
                    old_cur + seq![tail[0]],
                    rest,
                )) by {
                    assert(old_cur + (seq![tail[0]] + rest[0]) =~= (old_cur + seq![tail[0]])
                        + rest[0]);
                    assert(prepend_first(seq![tail[0]], rest).skip(1) =~= rest.skip(1));
                }
                assert(cur@ == old_cur + seq![tail[0]]);
            }
        }
        i = i + 1;
    }
    proof {
        assert(s@.skip(len as int) =~= Seq::<char>::empty());
        assert(spec_split(Seq::<char>::empty(), c) =~= seq![Seq::<char>::empty()]);
        assert(prepend_first(cur@, seq![Seq::<char>::empty()]) =~= seq![cur@]) by {
            assert(cur@ + Seq::<char>::empty() =~= cur@);
            assert(seq![cur@ + Seq::<char>::empty()].skip(0) =~= seq![cur@ + Seq::<char>::empty()]);
        }
    }
    let ghost pre_done = done@;
    let ghost last_cur = cur@;
    done.push(cur);
    proof {
        assert(done@.map_values(|p: String| p@) =~= pre_done.map_values(|p: String| p@) + seq![
            last_cur,
        ]);
        assert(done@.map_values(|p: String| p@) =~= spec_split(s@, c));
    }
    done
}

/// Joins parts with the separator `c` between them.
pub fn join_char(parts: &Vec<String>, c: &str) -> (r: String)
    requires
        c@.len() == 1,
        parts@.len() >= 1,
    ensures
        r@ == spec_join(parts@.map_values(|p: String| p@), c@[0]),
{
    let mut r = String::from_str(parts[0].as_str());
    let mut i: usize = 1;
    while i < parts.len()
        invariant
            1 <= i <= parts@.len(),
            c@.len() == 1,
            r@ == spec_join(parts@.map_values(|p: String| p@).subrange(0, i as int), c@[0]),
        decreases parts@.len() - i,
    {
        r.append(c);
        r.append(parts[i].as_str());
        proof {
            let m = parts@.map_values(|p: String| p@);
            lemma_join_snoc(m.subrange(0, i as int), m[i as int], c@[0]);
            assert(m.subrange(0, i + 1).drop_last() =~= m.subrange(0, i as int));
            assert(m.subrange(0, i + 1) =~= m.subrange(0, i as int).push(m[i as int]));
        }
        i = i + 1;
    }
    proof {
        let m = parts@.map_values(|p: String| p@);
        assert(m.subrange(0, m.len() as int) =~= m);
        assert(m.subrange(0, 1) =~= seq![m[0]]);
    }
    r
}

/// Joining after appending one more part appends a separator and the part.
pub proof fn lemma_join_snoc(parts: Seq<Seq<char>>, last: Seq<char>, c: char)
    requires
        parts.len() >= 1,
    ensures
        spec_join(parts.push(last), c) == spec_join(parts, c) + seq![c] + last,
    decreases parts.len(),
{
    if parts.len() == 1 {
        let p2 = parts.push(last);
        assert(p2.skip(1) =~= seq![last]);
        assert(spec_join(p2.skip(1), c) == p2.skip(1)[0]);
        assert(spec_join(p2, c) == p2[0] + seq![c] + spec_join(p2.skip(1), c));
        assert(spec_join(p2, c) == parts[0] + seq![c] + last);
        assert(spec_join(parts, c) == parts[0]);
    } else {
        lemma_join_snoc(parts.skip(1), last, c);
        assert(parts.push(last).skip(1) =~= parts.skip(1).push(last));
        assert(spec_join(parts.push(last), c) =~= parts[0] + seq![c] + spec_join(
            parts.skip(1).push(last),
            c,
        ));
        assert(spec_join(parts.push(last), c) =~= spec_join(parts, c) + seq![c] + last);
    }
}

/// The character for a single decimal digit.
pub open spec fn dec_digit(d: nat) -> char {
    if d == 0 {
        '0'
    } else if d == 1 {
        '1'
    } else if d == 2 {
        '2'
    } else if d == 3 {
        '3'
    } else if d == 4 {
        '4'
    } else if d == 5 {
        '5'
    } else if d == 6 {
        '6'
    } else if d == 7 {
        '7'
    } else if d == 8 {
        '8'
    } else {
        '9'
    }
}

/// Appends the character for a single decimal digit to `s`.
pub fn push_digit(s: &mut String, d: u64)
    requires
        d < 10,
    ensures
        final(s)@ == old(s)@ + seq![dec_digit(d as nat)],
{
    if d == 0 {
        proof {
            reveal_strlit("0");
        }
        s.append("0");
    } else if d == 1 {
        proof {
            reveal_strlit("1");
        }
        s.append("1");
    } else if d == 2 {
        proof {
            reveal_strlit("2");
        }
        s.append("2");
    } else if d == 3 {
        proof {
            reveal_strlit("3");
        }
        s.append("3");
    } else if d == 4 {
        proof {
            reveal_strlit("4");
        }
        s.append("4");
    } else if d == 5 {
        proof {
            reveal_strlit("5");
        }
        s.append("5");
    } else if d == 6 {
        proof {
            reveal_strlit("6");
        }
        s.append("6");
    } else if d == 7 {
        proof {
            reveal_strlit("7");
        }
        s.append("7");
    } else if d == 8 {
        proof {
            reveal_strlit("8");
        }
        s.append("8");
    } else {
        proof {
            reveal_strlit("9");
        }
        s.append("9");
    }
    assert(s@ =~= old(s)@ + seq![dec_digit(d as nat)]);
}

/// Renders `n` in decimal.
pub fn dec_of(n: u64) -> (r: String)
    ensures
        r@ == spec_dec_of(n as nat),
    decreases n,
{
    if n < 10 {
        let mut s = String::new();
        push_digit(&mut s, n);
        assert(s@ =~= spec_dec_of(n as nat));
        s
    } else {
        let mut s = dec_of(n / 10);
        push_digit(&mut s, n % 10);
        assert(s@ =~= spec_dec_of(n as nat));
        s
    }
}

} // verus!
