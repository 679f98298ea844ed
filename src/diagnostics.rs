//! Failure detection for the engine of family B, which often exits non-zero
//! for benign reasons: its combined output is scanned for error lines instead.
use vstd::prelude::*;
use crate::text::{
    chars_of, contains, contains_lower, join, join_lines, lines, lower, same_chars, split_lines,
    string_of, trim, trim_vec, views,
};

verus! {

/// What `char::is_numeric` answers for `c` (Unicode general categories Nd, Nl
/// and No).
pub uninterp spec fn numeric_char(c: char) -> bool;

/// Relies on `char::is_numeric`, whose answer depends on the character alone.
#[verifier::external_body]
fn is_numeric(c: char) -> (r: bool)
    ensures
        r == numeric_char(c),
{
    c.is_numeric()
}

/// The line holds a numeric character.
pub open spec fn has_numeric(l: Seq<char>) -> bool {
    exists|i: int| 0 <= i < l.len() && numeric_char(l[i])
}

/// Notes, warnings and an explicit zero-error summary never count as errors.
pub open spec fn is_benign(l: Seq<char>) -> bool {
    contains(lower(l), "note:"@) || contains(lower(l), "warning:"@) || contains(lower(l), "0 error"@)
}

/// A line that reports an error.
pub open spec fn is_error_line(l: Seq<char>) -> bool {
    !is_benign(l) && contains(lower(l), "error"@)
}

/// A line that refers to a line number of the input.
pub open spec fn is_line_ref(l: Seq<char>) -> bool {
    contains(lower(l), "line"@) && has_numeric(l)
}

/// A line that continues the one before it: it starts with a space or a tab.
pub open spec fn is_continuation(l: Seq<char>) -> bool {
    l.len() > 0 && (l[0] == ' ' || l[0] == '\t')
}

/// What line `i` adds to the report: an error line, with the line-number
/// reference before it and the continuation after it.
pub open spec fn contribution(ls: Seq<Seq<char>>, i: int) -> Seq<Seq<char>> {
    if is_error_line(ls[i]) {
        let before: Seq<Seq<char>> = if i > 0 && is_line_ref(ls[i - 1]) {
            seq![trim(ls[i - 1])]
        } else {
            seq![]
        };
        let after: Seq<Seq<char>> = if i + 1 < ls.len() && is_continuation(ls[i + 1]) {
            seq![trim(ls[i + 1])]
        } else {
            seq![]
        };
        before + seq![trim(ls[i])] + after
    } else {
        seq![]
    }
}

/// The report lines of the first `k` lines, in order, repeats included.
pub open spec fn collected(ls: Seq<Seq<char>>, k: int) -> Seq<Seq<char>>
    decreases k,
{
    if k <= 0 {
        seq![]
    } else {
        collected(ls, k - 1) + contribution(ls, k - 1)
    }
}

/// `s` with each element kept at its first occurrence only.
pub open spec fn dedup(s: Seq<Seq<char>>) -> Seq<Seq<char>>
    decreases s.len(),
{
    if s.len() == 0 {
        seq![]
    } else if dedup(s.drop_last()).contains(s.last()) {
        dedup(s.drop_last())
    } else {
        dedup(s.drop_last()).push(s.last())
    }
}

/// The error report of an engine output: the distinct report lines joined by
/// line feeds, or none where no line reports an error.
pub open spec fn error_report(output: Seq<char>) -> Option<Seq<char>> {
    let ls = lines(output);
    let c = collected(ls, ls.len() as int);
    if c.len() == 0 {
        None
    } else {
        Some(join(dedup(c), "\n"@))
    }
}

/// Some of the first `k` lines reports an error exactly when they add to the
/// report.
proof fn lemma_collected_nonempty(ls: Seq<Seq<char>>, k: int)
    requires
        0 <= k <= ls.len(),
    ensures
        collected(ls, k).len() > 0 <==> exists|j: int| 0 <= j < k && is_error_line(#[trigger] ls[j]),
    decreases k,
{
    if k > 0 {
        lemma_collected_nonempty(ls, k - 1);
        if is_error_line(ls[k - 1]) {
            assert(contribution(ls, k - 1).len() > 0);
        } else {
            assert(contribution(ls, k - 1).len() == 0);
            assert forall|j: int| 0 <= j < k && is_error_line(#[trigger] ls[j]) implies j < k - 1 by {}
        }
    }
}

fn has_numeric_exec(l: &[char]) -> (r: bool)
    ensures
        r == has_numeric(l@),
{
    let mut i: usize = 0;
    while i < l.len()
        invariant
            i <= l@.len(),
            forall|m: int| 0 <= m < i ==> !numeric_char(l@[m]),
        decreases l@.len() - i,
    {
        if is_numeric(l[i]) {
            return true;
        }
        i = i + 1;
    }
    false
}

fn is_benign_exec(l: &[char]) -> (r: bool)
    ensures
        r == is_benign(l@),
{
    contains_lower(l, chars_of("note:").as_slice()) || contains_lower(l, chars_of("warning:").as_slice())
        || contains_lower(l, chars_of("0 error").as_slice())
}

fn is_line_ref_exec(l: &[char]) -> (r: bool)
    ensures
        r == is_line_ref(l@),
{
    contains_lower(l, chars_of("line").as_slice()) && has_numeric_exec(l)
}

fn push_lines(dst: &mut Vec<Vec<char>>, src: Vec<Vec<char>>)
    ensures
        views(final(dst)@) == views(old(dst)@) + views(src@),
{
    let ghost before = dst@;
    let mut s = src;
    dst.append(&mut s);
    assert(views(dst@) =~= views(before) + views(src@));
}

/// What line `i` adds to the report.
fn contribution_exec(ls: &Vec<Vec<char>>, i: usize) -> (r: Vec<Vec<char>>)
    requires
        i < ls@.len(),
    ensures
        views(r@) == contribution(views(ls@), i as int),
{
    let ghost v = views(ls@);
    let mut r: Vec<Vec<char>> = Vec::new();
    let line = ls[i].as_slice();
    let benign = is_benign_exec(line);
    let has_error = contains_lower(line, chars_of("error").as_slice());
    if !benign && has_error {
        if i > 0 && is_line_ref_exec(ls[i - 1].as_slice()) {
            r.push(trim_vec(ls[i - 1].as_slice()));
        }
        r.push(trim_vec(line));
        if i < ls.len() - 1 {
            let next = ls[i + 1].as_slice();
            if next.len() > 0 && (next[0] == ' ' || next[0] == '\t') {
                r.push(trim_vec(next));
            }
        }
        assert(views(r@) =~= contribution(v, i as int));
    } else {
        assert(views(r@) =~= contribution(v, i as int));
    }
    r
}

/// Whether `ls` holds a line equal to `l`.
fn holds_line(ls: &Vec<Vec<char>>, l: &[char]) -> (r: bool)
    ensures
        r == views(ls@).contains(l@),
{
    let mut i: usize = 0;
    while i < ls.len()
        invariant
            i <= ls@.len(),
            forall|m: int| 0 <= m < i ==> views(ls@)[m] != l@,
        decreases ls@.len() - i,
    {
        if same_chars(ls[i].as_slice(), l) {
            assert(views(ls@)[i as int] == l@);
            return true;
        }
        i = i + 1;
    }
    false
}

/// Extracts the error report from the combined standard output and standard
/// error of an engine run of family B. Lines that mention `error` (compared
/// without regard to ASCII case) count, except notes, warnings and a `0 error`
/// summary; each is reported trimmed, after the line before it where that one
/// refers to a line number, and before the line after it where that one is an
/// indented continuation. Repeated report lines are kept once, in order.
/// `None` means that no line reports an error.
pub fn extract_ngspice_error(output: &str) -> (r: Option<String>)
    ensures
        r is Some <==> exists|j: int| 0 <= j < lines(output@).len() && is_error_line(#[trigger] lines(output@)[j]),
        match r {
            Some(s) => error_report(output@) == Some(s@),
            None => error_report(output@) is None,
        },
{
    let text = chars_of(output);
    let ls = split_lines(text.as_slice());
    let ghost v = views(ls@);
    let mut found: Vec<Vec<char>> = Vec::new();
    let mut i: usize = 0;
    while i < ls.len()
        invariant
            v == views(ls@),
            v == lines(output@),
            i <= ls@.len(),
            views(found@) == collected(v, i as int),
        decreases ls@.len() - i,
    {
        let c = contribution_exec(&ls, i);
        push_lines(&mut found, c);
        i = i + 1;
    }
    proof {
        lemma_collected_nonempty(v, v.len() as int);
    }
    if found.len() == 0 {
        return None;
    }
    let mut unique: Vec<Vec<char>> = Vec::new();
    let mut k: usize = 0;
    while k < found.len()
        invariant
            k <= found@.len(),
            views(unique@) == dedup(views(found@).take(k as int)),
        decreases found@.len() - k,
    {
        let ghost t = views(found@).take(k as int + 1);
        assert(t.drop_last() =~= views(found@).take(k as int));
        assert(t.last() == found@[k as int]@);
        if !holds_line(&unique, found[k].as_slice()) {
            let ghost before = unique@;
            unique.push(found[k].clone());
            assert(views(unique@) =~= views(before).push(found@[k as int]@));
        }
        k = k + 1;
    }
    assert(views(found@).take(found@.len() as int) =~= views(found@));
    let out = join_lines(&unique);
    proof {
        reveal_strlit("\n");
        assert("\n"@ =~= seq!['\n']);
    }
    Some(string_of(out.as_slice()))
}

} // verus!
