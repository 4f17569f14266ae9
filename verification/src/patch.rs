//! A unified-diff patch applier.
//!
//! A patch file is parsed into per-file hunks and applied to a directory of
//! a file tree.  Supported: multiple file patches in one file, modify,
//! rename, create (`--- /dev/null`) and delete (`+++ /dev/null`) operations,
//! CRLF line endings in the patch text, stripping the first path component
//! (like `patch -p1`), mail-style preambles, and a trailing mail signature
//! (`-- `) ending the patch.

use vstd::prelude::*;

use crate::errors::Error;
use crate::fstree::FsTree;
use crate::strutil::{
    find_char, is_prefix_of, lemma_find_char_props, spec_find_char, starts_with, starts_with_at,
    str_eq,
};

verus! {

/// One line of text: its characters without the newline, and whether a
/// newline terminated it.
pub struct Line {
    pub text: String,
    pub term: bool,
}

impl View for Line {
    type V = (Seq<char>, bool);

    open spec fn view(&self) -> (Seq<char>, bool) {
        (self.text@, self.term)
    }
}

/// The views of a list of lines.
pub open spec fn line_views(ls: Seq<Line>) -> Seq<(Seq<char>, bool)> {
    ls.map_values(|l: Line| l@)
}

/// The lines of `s` from position `pos` on: each up to the next newline,
/// the last one unterminated when the text does not end with a newline.
pub open spec fn spec_lines_from(s: Seq<char>, pos: int) -> Seq<(Seq<char>, bool)>
    decreases s.len() - pos,
{
    if pos < 0 || pos >= s.len() {
        Seq::empty()
    } else {
        match spec_find_char(s, '\n', pos) {
            Some(i) => if pos <= i < s.len() {
                seq![(s.subrange(pos, i), true)] + spec_lines_from(s, i + 1)
            } else {
                Seq::empty()
            },
            None => seq![(s.subrange(pos, s.len() as int), false)],
        }
    }
}

/// The lines of `s`.
pub open spec fn spec_lines(s: Seq<char>) -> Seq<(Seq<char>, bool)> {
    spec_lines_from(s, 0)
}

/// Splits text into lines.
pub fn split_lines(s: &str) -> (r: Vec<Line>)
    ensures
        line_views(r@) == spec_lines(s@),
{
    let len = s.unicode_len();
    let mut out: Vec<Line> = Vec::new();
    let mut pos: usize = 0;
    proof {
        assert(line_views(out@) =~= Seq::<(Seq<char>, bool)>::empty());
    }
    while pos < len
        invariant
            len == s@.len(),
            0 <= pos <= len,
            spec_lines(s@) =~= line_views(out@) + spec_lines_from(s@, pos as int),
        decreases len - pos,
    {
        let ghost pre = out@;
        proof {
            lemma_find_char_props(s@, '\n', pos as int);
        }
        match find_char(s, '\n', pos) {
            Some(i) => {
                let text = String::from_str(s.substring_char(pos, i));
                out.push(Line { text, term: true });
                proof {
                    assert(line_views(out@) =~= line_views(pre) + seq![
                        (s@.subrange(pos as int, i as int), true),
                    ]);
                }
                pos = i + 1;
            },
            None => {
                let text = String::from_str(s.substring_char(pos, len));
                out.push(Line { text, term: false });
                proof {
                    assert(line_views(out@) =~= line_views(pre) + seq![
                        (s@.subrange(pos as int, len as int), false),
                    ]);
                    assert(spec_lines_from(s@, len as int) =~= Seq::<(Seq<char>, bool)>::empty());
                }
                pos = len;
            },
        }
    }
    proof {
        assert(spec_lines_from(s@, pos as int) =~= Seq::<(Seq<char>, bool)>::empty());
    }
    out
}

/// A terminated line that ends with a carriage return loses it: this turns
/// CRLF endings in the patch text into plain LF.
pub open spec fn spec_norm_line(l: (Seq<char>, bool)) -> (Seq<char>, bool) {
    if l.1 && l.0.len() > 0 && l.0.last() == '\r' {
        (l.0.drop_last(), true)
    } else {
        l
    }
}

/// Normalizes the line endings of patch lines.
pub fn normalize_lines(ls: Vec<Line>) -> (r: Vec<Line>)
    ensures
        line_views(r@) == line_views(ls@).map_values(|l: (Seq<char>, bool)| spec_norm_line(l)),
{
    let mut out: Vec<Line> = Vec::new();
    let mut i: usize = 0;
    let ghost target = line_views(ls@).map_values(|l: (Seq<char>, bool)| spec_norm_line(l));
    while i < ls.len()
        invariant
            target == line_views(ls@).map_values(|l: (Seq<char>, bool)| spec_norm_line(l)),
            i <= ls@.len(),
            line_views(out@) =~= target.subrange(0, i as int),
        decreases ls@.len() - i,
    {
        let ghost pre = out@;
        let l = &ls[i];
        let tlen = l.text.as_str().unicode_len();
        if l.term && tlen > 0 && l.text.as_str().get_char(tlen - 1) == '\r' {
            let text = String::from_str(l.text.as_str().substring_char(0, tlen - 1));
            proof {
                assert(text@ =~= l.text@.drop_last());
            }
            out.push(Line { text, term: true });
        } else {
            let text = String::from_str(l.text.as_str());
            out.push(Line { text, term: l.term });
        }
        proof {
            assert(line_views(out@) =~= line_views(pre).push(spec_norm_line(ls@[i as int]@)));
            assert(line_views(out@) =~= target.subrange(0, i + 1));
        }
        i = i + 1;
    }
    proof {
        assert(target.subrange(0, target.len() as int) =~= target);
    }
    out
}

/// The first line, from `from` on, whose text is exactly `-- `: the start
/// of a mail signature.
pub open spec fn spec_find_sig(ls: Seq<(Seq<char>, bool)>, from: int) -> Option<int>
    decreases ls.len() - from,
{
    if from < 0 || from >= ls.len() {
        None
    } else if ls[from].0 == "-- "@ {
        Some(from)
    } else {
        spec_find_sig(ls, from + 1)
    }
}

/// Everything from the signature marker on is dropped; the cut also takes
/// the newline that preceded the marker, so the last kept line becomes
/// unterminated.
pub open spec fn spec_strip_sig(ls: Seq<(Seq<char>, bool)>) -> Seq<(Seq<char>, bool)> {
    match spec_find_sig(ls, 0) {
        None => ls,
        Some(k) => if k == 0 {
            Seq::empty()
        } else {
            ls.take(k).update(k - 1, (ls[k - 1].0, false))
        },
    }
}

/// Drops a trailing mail signature from patch lines.
pub fn strip_signature(ls: Vec<Line>) -> (r: Vec<Line>)
    ensures
        line_views(r@) == spec_strip_sig(line_views(ls@)),
{
    let ghost lv = line_views(ls@);
    let mut k: usize = 0;
    while k < ls.len()
        invariant
            lv == line_views(ls@),
            k <= lv.len(),
            spec_find_sig(lv, 0) == spec_find_sig(lv, k as int),
        decreases lv.len() - k,
    {
        if str_eq(ls[k].text.as_str(), "-- ") {
            // Keep the lines before the marker, the last one unterminated.
            let mut out: Vec<Line> = Vec::new();
            let mut i: usize = 0;
            while i < k
                invariant
                    lv == line_views(ls@),
                    k < lv.len(),
                    i <= k,
                    line_views(out@) =~= lv.take(k as int).update(
                        k - 1,
                        (lv[k as int - 1].0, false),
                    ).take(i as int),
                decreases k - i,
            {
                let ghost pre = out@;
                let term = if i + 1 < k {
                    ls[i].term
                } else {
                    false
                };
                let text = String::from_str(ls[i].text.as_str());
                out.push(Line { text, term });
                proof {
                    let ghost tgt = lv.take(k as int).update(k - 1, (lv[k as int - 1].0, false));
                    assert(line_views(out@) =~= line_views(pre).push((ls@[i as int].text@, term)));
                    assert(tgt[i as int] == (ls@[i as int].text@, term));
                    assert(line_views(out@) =~= tgt.take(i + 1));
                }
                i = i + 1;
            }
            proof {
                let ghost tgt = lv.take(k as int).update(k - 1, (lv[k as int - 1].0, false));
                assert(tgt.take(tgt.len() as int) =~= tgt);
                if k == 0 {
                    assert(line_views(out@) =~= spec_strip_sig(lv));
                } else {
                    assert(line_views(out@) =~= spec_strip_sig(lv));
                }
            }
            return out;
        }
        k = k + 1;
    }
    proof {
        assert(spec_find_sig(lv, lv.len() as int) is None);
    }
    ls
}

/// Whether `c` is a decimal digit.
pub open spec fn is_digit(c: char) -> bool {
    '0' <= c && c <= '9'
}

/// The numeric value of a digit.
pub open spec fn digit_val(c: char) -> int {
    c as int - '0' as int
}

/// The end of the digit run starting at `pos`.
pub open spec fn spec_num_run(t: Seq<char>, pos: int) -> int
    decreases t.len() - pos,
{
    if pos < 0 || pos >= t.len() || !is_digit(t[pos]) {
        pos
    } else {
        spec_num_run(t, pos + 1)
    }
}

/// The value of the digits in `[pos, end)`.
pub open spec fn spec_num_val(t: Seq<char>, pos: int, end: int) -> int
    decreases end - pos,
{
    if pos >= end {
        0
    } else {
        spec_num_val(t, pos, end - 1) * 10 + digit_val(t[end - 1])
    }
}

/// A decimal number at `pos`: its value and the position after it.  A run
/// of zero digits, or of more than nine, is rejected.
pub open spec fn spec_num(t: Seq<char>, pos: int) -> Option<(int, int)> {
    let end = spec_num_run(t, pos);
    if end == pos || end - pos > 9 {
        None
    } else {
        Some((spec_num_val(t, pos, end), end))
    }
}

pub proof fn lemma_num_run_props(t: Seq<char>, pos: int)
    requires
        0 <= pos <= t.len(),
    ensures
        pos <= spec_num_run(t, pos) <= t.len(),
        forall|j: int| pos <= j < spec_num_run(t, pos) ==> is_digit(t[j]),
        spec_num_run(t, pos) < t.len() ==> !is_digit(t[spec_num_run(t, pos)]),
    decreases t.len() - pos,
{
    if pos < t.len() && is_digit(t[pos]) {
        lemma_num_run_props(t, pos + 1);
    }
}

/// Ten to the `n`.
pub open spec fn pow10(n: int) -> int
    decreases n,
{
    if n <= 0 {
        1
    } else {
        10 * pow10(n - 1)
    }
}

pub proof fn lemma_num_val_bound(t: Seq<char>, pos: int, end: int)
    requires
        pos <= end,
        forall|j: int| pos <= j < end ==> is_digit(t[j]),
    ensures
        0 <= spec_num_val(t, pos, end) < pow10(end - pos),
    decreases end - pos,
{
    if pos < end {
        lemma_num_val_bound(t, pos, end - 1);
    }
}

/// Whether the character at `i` is a decimal digit.
fn digit_at(t: &str, i: usize) -> (r: bool)
    requires
        i < t@.len(),
    ensures
        r == is_digit(t@[i as int]),
{
    let c = t.get_char(i);
    let u = c as u32;
    48 <= u && u <= 57
}

/// Parses a decimal number at `pos`.
pub fn parse_num(t: &str, pos: usize) -> (r: Option<(u64, usize)>)
    requires
        pos <= t@.len(),
    ensures
        match r {
            Some((v, end)) => spec_num(t@, pos as int) == Some((v as int, end as int)) && pos < end
                <= t@.len(),
            None => spec_num(t@, pos as int) is None,
        },
{
    let len = t.unicode_len();
    proof {
        lemma_num_run_props(t@, pos as int);
    }
    let mut end: usize = pos;
    while end < len && digit_at(t, end)
        invariant
            len == t@.len(),
            pos <= end <= len,
            forall|j: int| pos <= j < end ==> is_digit(t@[j]),
            spec_num_run(t@, pos as int) == spec_num_run(t@, end as int),
        decreases len - end,
    {
        end = end + 1;
    }
    proof {
        assert(spec_num_run(t@, end as int) == end);
    }
    if end == pos || end - pos > 9 {
        return None;
    }
    proof {
        lemma_num_val_bound(t@, pos as int, end as int);
        reveal_with_fuel(pow10, 10);
        assert(pow10(9) == 1000000000);
        assert(pow10(end - pos) <= pow10(9)) by {
            assert forall|n: int| 0 <= n <= 9 implies #[trigger] pow10(n) <= pow10(9) by {
                reveal_with_fuel(pow10, 10);
            }
        }
    }
    let mut v: u64 = 0;
    let mut i: usize = pos;
    while i < end
        invariant
            len == t@.len(),
            pos <= i <= end <= len,
            end - pos <= 9,
            forall|j: int| pos <= j < end ==> is_digit(t@[j]),
            v == spec_num_val(t@, pos as int, i as int),
            0 <= v < pow10(i - pos),
            pow10(end - pos) <= 1000000000,
        decreases end - i,
    {
        let c = t.get_char(i);
        let d = (c as u32) - 48;
        proof {
            assert(pow10(i - pos) <= pow10(end - pos)) by {
                assert forall|a: int, b: int| 0 <= a <= b <= 9 implies #[trigger] pow10(a) <= #[trigger] pow10(b) by {
                    reveal_with_fuel(pow10, 10);
                }
            }
            assert(v * 10 + 9 < 10000000000);
        }
        v = v * 10 + (d as u64);
        i = i + 1;
    }
    Some((v, end))
}

/// One parsed hunk body line: its tag (context, removal or addition), its
/// text, and whether it was newline-terminated in the patch.
pub struct HunkLine {
    pub kind: char,
    pub text: String,
    pub term: bool,
}

impl View for HunkLine {
    type V = (char, Seq<char>, bool);

    open spec fn view(&self) -> (char, Seq<char>, bool) {
        (self.kind, self.text@, self.term)
    }
}

/// The mathematical value of one hunk.
pub struct HunkV {
    pub old_start: int,
    pub old_count: int,
    pub new_start: int,
    pub new_count: int,
    pub lines: Seq<(char, Seq<char>, bool)>,
}

/// One hunk: the line ranges from its header and its body lines.
pub struct Hunk {
    pub old_start: u64,
    pub old_count: u64,
    pub new_start: u64,
    pub new_count: u64,
    pub lines: Vec<HunkLine>,
}

impl View for Hunk {
    type V = HunkV;

    open spec fn view(&self) -> HunkV {
        HunkV {
            old_start: self.old_start as int,
            old_count: self.old_count as int,
            new_start: self.new_start as int,
            new_count: self.new_count as int,
            lines: self.lines@.map_values(|l: HunkLine| l@),
        }
    }
}

/// The mathematical value of one per-file patch.
pub struct FilePatchV {
    pub src: Seq<char>,
    pub dst: Seq<char>,
    pub hunks: Seq<HunkV>,
}

/// One per-file patch: the two header paths and the hunks.
pub struct FilePatch {
    pub src: String,
    pub dst: String,
    pub hunks: Vec<Hunk>,
}

impl View for FilePatch {
    type V = FilePatchV;

    open spec fn view(&self) -> FilePatchV {
        FilePatchV {
            src: self.src@,
            dst: self.dst@,
            hunks: self.hunks@.map_values(|h: Hunk| h@),
        }
    }
}

/// The optional `,count` after a line number; a missing count means one.
pub open spec fn spec_opt_count(t: Seq<char>, pos: int) -> Option<(int, int)> {
    if 0 <= pos < t.len() && t[pos] == ',' {
        spec_num(t, pos + 1)
    } else {
        Some((1, pos))
    }
}

/// Parses a hunk header line `@@ -A[,B] +C[,D] @@`.
pub open spec fn spec_parse_header(t: Seq<char>) -> Option<(int, int, int, int)> {
    if !is_prefix_of("@@ -"@, t) {
        None
    } else {
        match spec_num(t, 4) {
            None => None,
            Some((a, p1)) => match spec_opt_count(t, p1) {
                None => None,
                Some((b, p2)) => if is_prefix_of(" +"@, t.skip(p2)) {
                    match spec_num(t, p2 + 2) {
                        None => None,
                        Some((c, p3)) => match spec_opt_count(t, p3) {
                            None => None,
                            Some((d, p4)) => if is_prefix_of(" @@"@, t.skip(p4)) {
                                Some((a, b, c, d))
                            } else {
                                None
                            },
                        },
                    }
                } else {
                    None
                },
            },
        }
    }
}

/// Parses the optional `,count` of a hunk header.
fn parse_opt_count(t: &str, pos: usize) -> (r: Option<(u64, usize)>)
    requires
        pos <= t@.len(),
    ensures
        match r {
            Some((v, end)) => spec_opt_count(t@, pos as int) == Some((v as int, end as int)) && pos
                <= end <= t@.len(),
            None => spec_opt_count(t@, pos as int) is None,
        },
{
    let len = t.unicode_len();
    if pos < len && t.get_char(pos) == ',' {
        parse_num(t, pos + 1)
    } else {
        Some((1, pos))
    }
}

/// Parses a hunk header line.
pub fn parse_header(t: &str) -> (r: Option<(u64, u64, u64, u64)>)
    ensures
        match r {
            Some((a, b, c, d)) => spec_parse_header(t@) == Some(
                (a as int, b as int, c as int, d as int),
            ),
            None => spec_parse_header(t@) is None,
        },
{
    if !starts_with(t, "@@ -") {
        return None;
    }
    proof {
        reveal_strlit("@@ -");
    }
    let (a, p1) = match parse_num(t, 4) {
        None => {
            return None;
        },
        Some(x) => x,
    };
    let (b, p2) = match parse_opt_count(t, p1) {
        None => {
            return None;
        },
        Some(x) => x,
    };
    if !starts_with_at(t, " +", p2) {
        return None;
    }
    proof {
        reveal_strlit(" +");
    }
    let (c, p3) = match parse_num(t, p2 + 2) {
        None => {
            return None;
        },
        Some(x) => x,
    };
    let (d, p4) = match parse_opt_count(t, p3) {
        None => {
            return None;
        },
        Some(x) => x,
    };
    if !starts_with_at(t, " @@", p4) {
        return None;
    }
    Some((a, b, c, d))
}

/// The parsed body lines of a hunk with `oc` old and `nc` new lines left to
/// account for, and the position after them.
pub open spec fn spec_parse_body(
    ls: Seq<(Seq<char>, bool)>,
    pos: int,
    oc: int,
    nc: int,
) -> Option<(Seq<(char, Seq<char>, bool)>, int)>
    decreases oc + nc,
{
    if oc <= 0 && nc <= 0 {
        Some((Seq::empty(), pos))
    } else if oc < 0 || nc < 0 || pos < 0 || pos >= ls.len() {
        None
    } else {
        let l = ls[pos];
        let tag = if l.0.len() == 0 {
            ' '
        } else {
            l.0[0]
        };
        let body = if l.0.len() == 0 {
            Seq::<char>::empty()
        } else {
            l.0.skip(1)
        };
        if tag == ' ' {
            if oc > 0 && nc > 0 {
                match spec_parse_body(ls, pos + 1, oc - 1, nc - 1) {
                    None => None,
                    Some((rest, end)) => Some((seq![(' ', body, l.1)] + rest, end)),
                }
            } else {
                None
            }
        } else if tag == '-' {
            if oc > 0 {
                match spec_parse_body(ls, pos + 1, oc - 1, nc) {
                    None => None,
                    Some((rest, end)) => Some((seq![('-', body, l.1)] + rest, end)),
                }
            } else {
                None
            }
        } else if tag == '+' {
            if nc > 0 {
                match spec_parse_body(ls, pos + 1, oc, nc - 1) {
                    None => None,
                    Some((rest, end)) => Some((seq![('+', body, l.1)] + rest, end)),
                }
            } else {
                None
            }
        } else {
            None
        }
    }
}

/// The hunks starting at `pos`, and the position after them.
pub open spec fn spec_parse_hunks(ls: Seq<(Seq<char>, bool)>, pos: int) -> Option<
    (Seq<HunkV>, int),
>
    decreases ls.len() - pos,
{
    if pos < 0 || pos >= ls.len() || spec_parse_header(ls[pos].0) is None {
        Some((Seq::empty(), pos))
    } else {
        let (a, b, c, d) = spec_parse_header(ls[pos].0)->Some_0;
        match spec_parse_body(ls, pos + 1, b, d) {
            None => None,
            Some((body, p2)) => if pos + 1 <= p2 <= ls.len() {
                match spec_parse_hunks(ls, p2) {
                    None => None,
                    Some((rest, end)) => Some(
                        (
                            seq![
                                HunkV {
                                    old_start: a,
                                    old_count: b,
                                    new_start: c,
                                    new_count: d,
                                    lines: body,
                                },
                            ] + rest,
                            end,
                        ),
                    ),
                }
            } else {
                None
            },
        }
    }
}

/// The per-file patches of the whole patch file.  Lines that are not a
/// `--- ` header directly followed by a `+++ ` header are preamble or
/// padding and are skipped; a file entry whose hunk list is empty is
/// dropped.
pub open spec fn spec_parse_files(ls: Seq<(Seq<char>, bool)>, pos: int) -> Option<Seq<FilePatchV>>
    decreases ls.len() - pos,
{
    if pos < 0 || pos >= ls.len() {
        Some(Seq::empty())
    } else if is_prefix_of("--- "@, ls[pos].0) && pos + 1 < ls.len() && is_prefix_of(
        "+++ "@,
        ls[pos + 1].0,
    ) {
        let src = ls[pos].0.skip(4);
        let dst = ls[pos + 1].0.skip(4);
        match spec_parse_hunks(ls, pos + 2) {
            None => None,
            Some((hunks, p2)) => if pos + 2 <= p2 <= ls.len() {
                match spec_parse_files(ls, p2) {
                    None => None,
                    Some(rest) => if hunks.len() == 0 {
                        Some(rest)
                    } else {
                        Some(seq![FilePatchV { src, dst, hunks }] + rest)
                    },
                }
            } else {
                None
            },
        }
    } else {
        spec_parse_files(ls, pos + 1)
    }
}

/// A patch whose lines carry no hunk header at all — headers alone, a mail
/// preamble, anything without a single `@@` line — parses to zero file
/// patches, so applying it is rejected as an empty patch rather than
/// silently succeeding.
pub proof fn lemma_no_hunks_is_empty(ls: Seq<(Seq<char>, bool)>, pos: int)
    requires
        0 <= pos <= ls.len(),
        forall|j: int| 0 <= j < ls.len() ==> spec_parse_header(#[trigger] ls[j].0) is None,
    ensures
        spec_parse_files(ls, pos) == Some(Seq::<FilePatchV>::empty()),
    decreases ls.len() - pos,
{
    if pos < ls.len() {
        lemma_no_hunks_is_empty(ls, pos + 1);
        if is_prefix_of("--- "@, ls[pos].0) && pos + 1 < ls.len() && is_prefix_of(
            "+++ "@,
            ls[pos + 1].0,
        ) {
            if pos + 2 <= ls.len() {
                assert(spec_parse_hunks(ls, pos + 2) == Some(
                    (Seq::<HunkV>::empty(), pos + 2),
                ));
                lemma_no_hunks_is_empty(ls, pos + 2);
            }
        }
    }
}

/// Parses the body lines of one hunk.
fn parse_body(ls: &Vec<Line>, pos: usize, oc: u64, nc: u64) -> (r: Option<(Vec<HunkLine>, usize)>)
    requires
        pos <= ls@.len(),
    ensures
        match r {
            Some((body, end)) => spec_parse_body(line_views(ls@), pos as int, oc as int, nc as int)
                == Some((body@.map_values(|l: HunkLine| l@), end as int)) && pos <= end
                <= ls@.len(),
            None => spec_parse_body(line_views(ls@), pos as int, oc as int, nc as int) is None,
        },
    decreases oc + nc,
{
    let ghost lv = line_views(ls@);
    if oc == 0 && nc == 0 {
        let out: Vec<HunkLine> = Vec::new();
        proof {
            assert(out@.map_values(|l: HunkLine| l@) =~= Seq::<(char, Seq<char>, bool)>::empty());
        }
        return Some((out, pos));
    }
    if pos >= ls.len() {
        return None;
    }
    let l = &ls[pos];
    let tlen = l.text.as_str().unicode_len();
    let tag: char = if tlen == 0 {
        ' '
    } else {
        l.text.as_str().get_char(0)
    };
    let body_text: String = if tlen == 0 {
        String::new()
    } else {
        String::from_str(l.text.as_str().substring_char(1, tlen))
    };
    proof {
        assert(body_text@ =~= if lv[pos as int].0.len() == 0 {
            Seq::<char>::empty()
        } else {
            lv[pos as int].0.skip(1)
        });
    }
    let rec = if tag == ' ' {
        if oc > 0 && nc > 0 {
            parse_body(ls, pos + 1, oc - 1, nc - 1)
        } else {
            return None;
        }
    } else if tag == '-' {
        if oc > 0 {
            parse_body(ls, pos + 1, oc - 1, nc)
        } else {
            return None;
        }
    } else if tag == '+' {
        if nc > 0 {
            parse_body(ls, pos + 1, oc, nc - 1)
        } else {
            return None;
        }
    } else {
        return None;
    };
    match rec {
        None => None,
        Some((mut rest, end)) => {
            let ghost restv = rest@.map_values(|l: HunkLine| l@);
            let hl = HunkLine { kind: tag, text: body_text, term: l.term };
            let ghost hlv = hl@;
            rest.insert(0, hl);
            proof {
                assert(rest@.map_values(|l: HunkLine| l@) =~= seq![hlv] + restv);
            }
            Some((rest, end))
        },
    }
}

/// Parses the run of hunks starting at `pos`.
fn parse_hunks(ls: &Vec<Line>, pos: usize) -> (r: Option<(Vec<Hunk>, usize)>)
    requires
        pos <= ls@.len(),
    ensures
        match r {
            Some((hunks, end)) => spec_parse_hunks(line_views(ls@), pos as int) == Some(
                (hunks@.map_values(|h: Hunk| h@), end as int),
            ) && pos <= end <= ls@.len(),
            None => spec_parse_hunks(line_views(ls@), pos as int) is None,
        },
    decreases ls@.len() - pos,
{
    let ghost lv = line_views(ls@);
    if pos >= ls.len() {
        let out: Vec<Hunk> = Vec::new();
        proof {
            assert(out@.map_values(|h: Hunk| h@) =~= Seq::<HunkV>::empty());
        }
        return Some((out, pos));
    }
    let header = parse_header(ls[pos].text.as_str());
    match header {
        None => {
            let out: Vec<Hunk> = Vec::new();
            proof {
                assert(out@.map_values(|h: Hunk| h@) =~= Seq::<HunkV>::empty());
            }
            Some((out, pos))
        },
        Some((a, b, c, d)) => {
            match parse_body(ls, pos + 1, b, d) {
                None => None,
                Some((body, p2)) => {
                    match parse_hunks(ls, p2) {
                        None => None,
                        Some((mut rest, end)) => {
                            let ghost restv = rest@.map_values(|h: Hunk| h@);
                            let h = Hunk {
                                old_start: a,
                                old_count: b,
                                new_start: c,
                                new_count: d,
                                lines: body,
                            };
                            let ghost hv = h@;
                            rest.insert(0, h);
                            proof {
                                assert(rest@.map_values(|h: Hunk| h@) =~= seq![hv] + restv);
                            }
                            Some((rest, end))
                        },
                    }
                },
            }
        },
    }
}

/// Parses the per-file patches of a whole patch file.
fn parse_files(ls: &Vec<Line>, pos: usize) -> (r: Option<Vec<FilePatch>>)
    requires
        pos <= ls@.len(),
    ensures
        match r {
            Some(fps) => spec_parse_files(line_views(ls@), pos as int) == Some(
                fps@.map_values(|f: FilePatch| f@),
            ),
            None => spec_parse_files(line_views(ls@), pos as int) is None,
        },
    decreases ls@.len() - pos,
{
    let ghost lv = line_views(ls@);
    if pos >= ls.len() {
        let out: Vec<FilePatch> = Vec::new();
        proof {
            assert(out@.map_values(|f: FilePatch| f@) =~= Seq::<FilePatchV>::empty());
        }
        return Some(out);
    }
    if starts_with(ls[pos].text.as_str(), "--- ") && pos + 1 < ls.len() && starts_with(
        ls[pos + 1].text.as_str(),
        "+++ ",
    ) {
        proof {
            reveal_strlit("--- ");
            reveal_strlit("+++ ");
        }
        let srclen = ls[pos].text.as_str().unicode_len();
        let dstlen = ls[pos + 1].text.as_str().unicode_len();
        let src = String::from_str(ls[pos].text.as_str().substring_char(4, srclen));
        let dst = String::from_str(ls[pos + 1].text.as_str().substring_char(4, dstlen));
        proof {
            assert(src@ =~= lv[pos as int].0.skip(4));
            assert(dst@ =~= lv[pos as int + 1].0.skip(4));
        }
        match parse_hunks(ls, pos + 2) {
            None => None,
            Some((hunks, p2)) => {
                match parse_files(ls, p2) {
                    None => None,
                    Some(mut rest) => {
                        if hunks.len() == 0 {
                            Some(rest)
                        } else {
                            let ghost restv = rest@.map_values(|f: FilePatch| f@);
                            let fp = FilePatch { src, dst, hunks };
                            let ghost fv = fp@;
                            rest.insert(0, fp);
                            proof {
                                assert(rest@.map_values(|f: FilePatch| f@) =~= seq![fv] + restv);
                            }
                            Some(rest)
                        }
                    },
                }
            },
        }
    } else {
        parse_files(ls, pos + 1)
    }
}

/// The text joined back into file contents: each line, then a newline where
/// the line was terminated.
pub open spec fn spec_unlines(ls: Seq<(Seq<char>, bool)>) -> Seq<char>
    decreases ls.len(),
{
    if ls.len() == 0 {
        Seq::empty()
    } else {
        spec_unlines(ls.drop_last()) + ls.last().0 + (if ls.last().1 {
            seq!['\n']
        } else {
            Seq::<char>::empty()
        })
    }
}

/// Joins lines back into file contents.
pub fn unlines(ls: &Vec<Line>) -> (r: String)
    ensures
        r@ == spec_unlines(line_views(ls@)),
{
    let ghost lv = line_views(ls@);
    let mut out = String::new();
    let mut i: usize = 0;
    proof {
        reveal_strlit("\n");
        assert("\n"@ =~= seq!['\n']);
    }
    while i < ls.len()
        invariant
            lv == line_views(ls@),
            i <= lv.len(),
            out@ =~= spec_unlines(lv.take(i as int)),
            "\n"@ =~= seq!['\n'],
        decreases lv.len() - i,
    {
        out.append(ls[i].text.as_str());
        if ls[i].term {
            out.append("\n");
        }
        proof {
            assert(lv.take(i + 1).drop_last() =~= lv.take(i as int));
            assert(lv.take(i + 1).last() == lv[i as int]);
        }
        i = i + 1;
    }
    proof {
        assert(lv.take(lv.len() as int) =~= lv);
    }
    out
}

/// An equal copy of a line.
fn clone_line(l: &Line) -> (r: Line)
    ensures
        r@ == l@,
{
    Line { text: String::from_str(l.text.as_str()), term: l.term }
}

/// Copies the lines in `[from, to)`.
fn clone_lines(ls: &Vec<Line>, from: usize, to: usize) -> (r: Vec<Line>)
    requires
        from <= to <= ls@.len(),
    ensures
        line_views(r@) == line_views(ls@).subrange(from as int, to as int),
{
    let mut out: Vec<Line> = Vec::new();
    let mut i: usize = from;
    proof {
        assert(line_views(out@) =~= line_views(ls@).subrange(from as int, from as int));
    }
    while i < to
        invariant
            from <= i <= to <= ls@.len(),
            line_views(out@) =~= line_views(ls@).subrange(from as int, i as int),
        decreases to - i,
    {
        let ghost pre = out@;
        let l = clone_line(&ls[i]);
        let ghost lv = l@;
        out.push(l);
        proof {
            assert(line_views(out@) =~= line_views(pre).push(lv));
            assert(lv == line_views(ls@)[i as int]);
            assert(line_views(out@) =~= line_views(ls@).subrange(from as int, i + 1));
        }
        i = i + 1;
    }
    out
}

/// The lines produced by one hunk body applied at position `opos` of the
/// old lines, and the old position after it.  A context or removed line
/// whose text disagrees with the file is a mismatch.
pub open spec fn spec_apply_body(
    old: Seq<(Seq<char>, bool)>,
    opos: int,
    hl: Seq<(char, Seq<char>, bool)>,
    li: int,
) -> Option<(Seq<(Seq<char>, bool)>, int)>
    decreases hl.len() - li,
{
    if li < 0 || li >= hl.len() {
        Some((Seq::empty(), opos))
    } else {
        let l = hl[li];
        if l.0 == ' ' {
            if 0 <= opos < old.len() && old[opos].0 == l.1 {
                match spec_apply_body(old, opos + 1, hl, li + 1) {
                    None => None,
                    Some((rest, end)) => Some((seq![old[opos]] + rest, end)),
                }
            } else {
                None
            }
        } else if l.0 == '-' {
            if 0 <= opos < old.len() && old[opos].0 == l.1 {
                spec_apply_body(old, opos + 1, hl, li + 1)
            } else {
                None
            }
        } else if l.0 == '+' {
            match spec_apply_body(old, opos, hl, li + 1) {
                None => None,
                Some((rest, end)) => Some((seq![(l.1, l.2)] + rest, end)),
            }
        } else {
            None
        }
    }
}

/// The old lines transformed by the hunks from `hi` on, starting with the
/// cursor at old position `opos`.
pub open spec fn spec_apply_from(
    old: Seq<(Seq<char>, bool)>,
    hunks: Seq<HunkV>,
    hi: int,
    opos: int,
) -> Option<Seq<(Seq<char>, bool)>>
    decreases hunks.len() - hi,
{
    if hi < 0 || hi >= hunks.len() {
        if 0 <= opos <= old.len() {
            Some(old.skip(opos))
        } else {
            None
        }
    } else {
        let h = hunks[hi];
        let start = if h.old_count == 0 {
            h.old_start
        } else {
            h.old_start - 1
        };
        if opos <= start <= old.len() && 0 <= opos {
            match spec_apply_body(old, start, h.lines, 0) {
                None => None,
                Some((emitted, opos2)) => match spec_apply_from(old, hunks, hi + 1, opos2) {
                    None => None,
                    Some(rest) => Some(old.subrange(opos, start) + emitted + rest),
                },
            }
        } else {
            None
        }
    }
}

/// The old lines transformed by a list of hunks.
pub open spec fn spec_apply_hunks(
    old: Seq<(Seq<char>, bool)>,
    hunks: Seq<HunkV>,
) -> Option<Seq<(Seq<char>, bool)>> {
    spec_apply_from(old, hunks, 0, 0)
}

/// Applies one hunk body at `opos`.
fn apply_body(old: &Vec<Line>, opos: usize, hl: &Vec<HunkLine>, li: usize) -> (r: Option<
    (Vec<Line>, usize),
>)
    requires
        li <= hl@.len(),
        opos <= old@.len(),
    ensures
        match r {
            Some((emitted, end)) => spec_apply_body(
                line_views(old@),
                opos as int,
                hl@.map_values(|l: HunkLine| l@),
                li as int,
            ) == Some((line_views(emitted@), end as int)) && end <= old@.len(),
            None => spec_apply_body(
                line_views(old@),
                opos as int,
                hl@.map_values(|l: HunkLine| l@),
                li as int,
            ) is None,
        },
    decreases hl@.len() - li,
{
    let ghost hv = hl@.map_values(|l: HunkLine| l@);
    if li >= hl.len() {
        let out: Vec<Line> = Vec::new();
        proof {
            assert(line_views(out@) =~= Seq::<(Seq<char>, bool)>::empty());
        }
        return Some((out, opos));
    }
    let l = &hl[li];
    if l.kind == ' ' {
        if opos < old.len() && str_eq(old[opos].text.as_str(), l.text.as_str()) {
            match apply_body(old, opos + 1, hl, li + 1) {
                None => None,
                Some((mut rest, end)) => {
                    let ghost restv = line_views(rest@);
                    let kept = clone_line(&old[opos]);
                    let ghost keptv = kept@;
                    rest.insert(0, kept);
                    proof {
                        assert(line_views(rest@) =~= seq![keptv] + restv);
                    }
                    Some((rest, end))
                },
            }
        } else {
            None
        }
    } else if l.kind == '-' {
        if opos < old.len() && str_eq(old[opos].text.as_str(), l.text.as_str()) {
            apply_body(old, opos + 1, hl, li + 1)
        } else {
            None
        }
    } else if l.kind == '+' {
        match apply_body(old, opos, hl, li + 1) {
            None => None,
            Some((mut rest, end)) => {
                let ghost restv = line_views(rest@);
                let added = Line { text: String::from_str(l.text.as_str()), term: l.term };
                let ghost addedv = added@;
                rest.insert(0, added);
                proof {
                    assert(line_views(rest@) =~= seq![addedv] + restv);
                }
                Some((rest, end))
            },
        }
    } else {
        None
    }
}

/// Applies the hunks from `hi` on, with the old cursor at `opos`.
fn apply_from(old: &Vec<Line>, hunks: &Vec<Hunk>, hi: usize, opos: usize) -> (r: Option<Vec<Line>>)
    requires
        hi <= hunks@.len(),
        opos <= old@.len(),
    ensures
        match r {
            Some(out) => spec_apply_from(
                line_views(old@),
                hunks@.map_values(|h: Hunk| h@),
                hi as int,
                opos as int,
            ) == Some(line_views(out@)),
            None => spec_apply_from(
                line_views(old@),
                hunks@.map_values(|h: Hunk| h@),
                hi as int,
                opos as int,
            ) is None,
        },
    decreases hunks@.len() - hi,
{
    let ghost hv = hunks@.map_values(|h: Hunk| h@);
    if hi >= hunks.len() {
        return Some(clone_lines(old, opos, old.len()));
    }
    let h = &hunks[hi];
    if h.old_count > 0 && h.old_start == 0 {
        return None;
    }
    let start: u64 = if h.old_count == 0 {
        h.old_start
    } else {
        h.old_start - 1
    };
    if start < opos as u64 || start > old.len() as u64 {
        return None;
    }
    let start = start as usize;
    match apply_body(old, start, &h.lines, 0) {
        None => None,
        Some((mut emitted, opos2)) => {
            match apply_from(old, hunks, hi + 1, opos2) {
                None => None,
                Some(mut rest) => {
                    let mut out = clone_lines(old, opos, start);
                    let ghost headv = line_views(out@);
                    let ghost emittedv = line_views(emitted@);
                    let ghost restv = line_views(rest@);
                    out.append(&mut emitted);
                    out.append(&mut rest);
                    proof {
                        assert(line_views(out@) =~= headv + emittedv + restv);
                    }
                    Some(out)
                },
            }
        },
    }
}

/// A header path with its first component stripped, like `patch -p1`: the
/// part after the first slash, or the path itself when it has none.
pub open spec fn spec_strip_first(p: Seq<char>) -> Seq<char> {
    match spec_find_char(p, '/', 0) {
        Some(i) => p.skip(i + 1),
        None => p,
    }
}

/// Strips the first path component.
pub fn strip_first(p: &str) -> (r: String)
    ensures
        r@ == spec_strip_first(p@),
{
    proof {
        lemma_find_char_props(p@, '/', 0);
    }
    let len = p.unicode_len();
    match find_char(p, '/', 0) {
        Some(i) => String::from_str(p.substring_char(i + 1, len)),
        None => String::from_str(p),
    }
}

/// What the applier can report about one file patch.
pub enum ApplyErr {
    /// A modify, rename or delete named an absent file.
    MissingSource { path: Seq<char> },
    /// A context or removed line disagreed with the file.
    HunkMismatch { path: Seq<char> },
}

/// One file patch applied to the tree `m`, under the directory `dstroot`:
/// the tree afterwards, and the error if the patch did not apply.  A failing
/// file patch leaves the tree as it was.
pub open spec fn spec_apply_one(
    m: Map<Seq<char>, Seq<char>>,
    fp: FilePatchV,
    dstroot: Seq<char>,
) -> (Map<Seq<char>, Seq<char>>, Option<ApplyErr>) {
    if fp.src == "/dev/null"@ {
        let path = spec_strip_first(fp.dst);
        let key = crate::fstree::spec_path_join(dstroot, path);
        match spec_apply_hunks(Seq::empty(), fp.hunks) {
            None => (m, Some(ApplyErr::HunkMismatch { path })),
            Some(ls) => (m.insert(key, spec_unlines(ls)), None),
        }
    } else if fp.dst == "/dev/null"@ {
        let path = spec_strip_first(fp.src);
        let key = crate::fstree::spec_path_join(dstroot, path);
        if m.contains_key(key) {
            (m.remove(key), None)
        } else {
            (m, Some(ApplyErr::MissingSource { path }))
        }
    } else {
        let sp = spec_strip_first(fp.src);
        let dp = spec_strip_first(fp.dst);
        let skey = crate::fstree::spec_path_join(dstroot, sp);
        let dkey = crate::fstree::spec_path_join(dstroot, dp);
        if !m.contains_key(skey) {
            (m, Some(ApplyErr::MissingSource { path: sp }))
        } else {
            match spec_apply_hunks(spec_lines(m[skey]), fp.hunks) {
                None => (m, Some(ApplyErr::HunkMismatch { path: sp })),
                Some(ls) => if sp == dp {
                    (m.insert(dkey, spec_unlines(ls)), None)
                } else {
                    (m.insert(dkey, spec_unlines(ls)).remove(skey), None)
                },
            }
        }
    }
}

/// All file patches applied in order; the first failure stops the run and
/// reports its error, with the earlier patches' effects kept.
pub open spec fn spec_apply_ops(
    m: Map<Seq<char>, Seq<char>>,
    fps: Seq<FilePatchV>,
    dstroot: Seq<char>,
) -> (Map<Seq<char>, Seq<char>>, Option<ApplyErr>)
    decreases fps.len(),
{
    if fps.len() == 0 {
        (m, None)
    } else {
        let (m2, err) = spec_apply_one(m, fps[0], dstroot);
        match err {
            Some(e) => (m2, Some(e)),
            None => spec_apply_ops(m2, fps.skip(1), dstroot),
        }
    }
}

/// The lines of a patch file's text, ready to parse: split, ending-
/// normalized, signature-stripped.
pub open spec fn spec_patch_lines(text: Seq<char>) -> Seq<(Seq<char>, bool)> {
    spec_strip_sig(spec_lines(text).map_values(|l: (Seq<char>, bool)| spec_norm_line(l)))
}

/// The file patches parsed out of a patch file's text.
pub open spec fn spec_patch_files(text: Seq<char>) -> Option<Seq<FilePatchV>> {
    spec_parse_files(spec_patch_lines(text), 0)
}

/// Applies one file patch to the tree.
fn apply_one(fs: &mut FsTree, fp: &FilePatch, dstroot: &str) -> (r: Result<(), Error>)
    requires
        old(fs).inv(),
    ensures
        final(fs).inv(),
        final(fs)@ == spec_apply_one(old(fs)@, fp@, dstroot@).0,
        match r {
            Ok(()) => spec_apply_one(old(fs)@, fp@, dstroot@).1 is None,
            Err(e) => match spec_apply_one(old(fs)@, fp@, dstroot@).1 {
                Some(ApplyErr::MissingSource { path }) => e matches Error::MissingSource {
                    path: p,
                } && p@ == path,
                Some(ApplyErr::HunkMismatch { path }) => e matches Error::HunkMismatch {
                    path: p,
                } && p@ == path,
                None => false,
            },
        },
{
    if str_eq(fp.src.as_str(), "/dev/null") {
        let path = strip_first(fp.dst.as_str());
        let key = crate::fstree::path_join(dstroot, path.as_str());
        let empty_lines: Vec<Line> = Vec::new();
        proof {
            assert(line_views(empty_lines@) =~= Seq::<(Seq<char>, bool)>::empty());
        }
        match apply_from(&empty_lines, &fp.hunks, 0, 0) {
            None => Err(Error::HunkMismatch { path }),
            Some(ls) => {
                let data = unlines(&ls);
                fs.write(key.as_str(), data.as_str());
                Ok(())
            },
        }
    } else if str_eq(fp.dst.as_str(), "/dev/null") {
        let path = strip_first(fp.src.as_str());
        let key = crate::fstree::path_join(dstroot, path.as_str());
        if fs.remove_file(key.as_str()) {
            Ok(())
        } else {
            Err(Error::MissingSource { path })
        }
    } else {
        let sp = strip_first(fp.src.as_str());
        let dp = strip_first(fp.dst.as_str());
        let skey = crate::fstree::path_join(dstroot, sp.as_str());
        let dkey = crate::fstree::path_join(dstroot, dp.as_str());
        let content = match fs.read(skey.as_str()) {
            None => {
                return Err(Error::MissingSource { path: sp });
            },
            Some(c) => String::from_str(c.as_str()),
        };
        let old_lines = split_lines(content.as_str());
        match apply_from(&old_lines, &fp.hunks, 0, 0) {
            None => Err(Error::HunkMismatch { path: sp }),
            Some(ls) => {
                let data = unlines(&ls);
                fs.write(dkey.as_str(), data.as_str());
                if !str_eq(sp.as_str(), dp.as_str()) {
                    fs.remove_file(skey.as_str());
                }
                Ok(())
            },
        }
    }
}

/// Applies a unified-diff patch file, itself a file of the tree, to the
/// directory `dst` of the tree.
///
/// The patch text is read from `patch_path`; its file patches are applied
/// in order, each against the state the previous ones left.  An unreadable
/// patch file, an unparsable one, and one with no file hunks at all are
/// rejected before anything is touched; a file patch that fails leaves the
/// effects of the earlier ones in place, exactly as a run of the operations
/// would on disk.
pub fn apply_patch_file(fs: &mut FsTree, patch_path: &str, dst: &str) -> (r: Result<(), Error>)
    requires
        old(fs).inv(),
    ensures
        final(fs).inv(),
        !old(fs)@.contains_key(patch_path@) ==> final(fs)@ == old(fs)@ && (r matches Err(
            Error::IoError { path },
        ) && path@ == patch_path@),
        old(fs)@.contains_key(patch_path@) && spec_patch_files(old(fs)@[patch_path@]) is None
            ==> final(fs)@ == old(fs)@ && (r matches Err(Error::MalformedPatch { path })
            && path@ == patch_path@),
        (old(fs)@.contains_key(patch_path@) && spec_patch_files(old(fs)@[patch_path@]) is Some)
            ==> {
            let fps = spec_patch_files(old(fs)@[patch_path@])->Some_0;
            if fps.len() == 0 {
                final(fs)@ == old(fs)@ && (r matches Err(Error::EmptyPatch { path }) && path@
                    == patch_path@)
            } else {
                final(fs)@ == spec_apply_ops(old(fs)@, fps, dst@).0 && (match spec_apply_ops(
                    old(fs)@,
                    fps,
                    dst@,
                ).1 {
                    None => r is Ok,
                    Some(ApplyErr::MissingSource { path }) => r matches Err(
                        Error::MissingSource { path: p },
                    ) && p@ == path,
                    Some(ApplyErr::HunkMismatch { path }) => r matches Err(
                        Error::HunkMismatch { path: p },
                    ) && p@ == path,
                })
            }
        },
{
    let content = match fs.read(patch_path) {
        None => {
            return Err(Error::IoError { path: String::from_str(patch_path) });
        },
        Some(c) => String::from_str(c.as_str()),
    };
    let lines = strip_signature(normalize_lines(split_lines(content.as_str())));
    let fps = match parse_files(&lines, 0) {
        None => {
            return Err(Error::MalformedPatch { path: String::from_str(patch_path) });
        },
        Some(fps) => fps,
    };
    if fps.len() == 0 {
        return Err(Error::EmptyPatch { path: String::from_str(patch_path) });
    }
    let ghost fpv = fps@.map_values(|f: FilePatch| f@);
    let ghost m0 = fs@;
    proof {
        assert(fpv.skip(0) =~= fpv);
    }
    let mut i: usize = 0;
    while i < fps.len()
        invariant
            fs.inv(),
            fpv == fps@.map_values(|f: FilePatch| f@),
            m0 == old(fs)@,
            m0.contains_key(patch_path@),
            spec_patch_files(m0[patch_path@]) == Some(fpv),
            fpv.len() > 0,
            i <= fpv.len(),
            spec_apply_ops(m0, fpv, dst@) == spec_apply_ops(fs@, fpv.skip(i as int), dst@),
        decreases fpv.len() - i,
    {
        let ghost mpre = fs@;
        match apply_one(fs, &fps[i], dst) {
            Ok(()) => {
                proof {
                    assert(fpv.skip(i as int)[0] == fpv[i as int]);
                    assert(fpv.skip(i as int).skip(1) =~= fpv.skip(i + 1));
                }
            },
            Err(e) => {
                proof {
                    assert(fpv.skip(i as int)[0] == fpv[i as int]);
                }
                return Err(e);
            },
        }
        i = i + 1;
    }
    proof {
        assert(fpv.skip(fpv.len() as int) =~= Seq::<FilePatchV>::empty());
    }
    Ok(())
}

} // verus!
