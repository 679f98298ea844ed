//! The `.include` / `.lib` directives of a netlist, and the rewrite that
//! points resolved ones at the copies placed beside the job's files.
use vstd::prelude::*;
use crate::text::{chars_of, push_all, string_of};

verus! {

/// A directive line: `.include` or `.lib` (any case), then the referenced path.
pub const INCLUDE_PATTERN: &'static str = "(?im)^\\s*\\.(?:include|lib)\\s+(.+?)\\s*$";

/// Whether `regex` compiles `pattern`.
pub uninterp spec fn pattern_compiles(pattern: Seq<char>) -> bool;

/// The successive non-overlapping matches of `pattern` in `text`, as `regex`
/// finds them: each whole match, and its first group where that took part.
pub uninterp spec fn regex_captures(pattern: Seq<char>, text: Seq<char>) -> Seq<(Seq<char>, Option<Seq<char>>)>;

pub open spec fn capture_views(v: Seq<(String, Option<String>)>) -> Seq<(Seq<char>, Option<Seq<char>>)> {
    v.map_values(|c: (String, Option<String>)| (c.0@, match c.1 { Some(g) => Some(g@), None => None }))
}

/// Relies on `regex::Regex::new`, which compiles a pattern or reports that it
/// cannot, and on `Regex::captures_iter`, which yields the successive
/// non-overlapping matches with their groups; group 0 is the whole match.
#[verifier::external_body]
fn captures(pattern: &str, text: &str) -> (r: Option<Vec<(String, Option<String>)>>)
    ensures
        r is Some <==> pattern_compiles(pattern@),
        r matches Some(v) ==> capture_views(v@) == regex_captures(pattern@, text@),
{
    let re = regex::Regex::new(pattern).ok()?;
    Some(
        re.captures_iter(text).map(|c| (c[0].to_string(), c.get(1).map(|m| m.as_str().to_string()))).collect(),
    )
}

/// An include directive: the whole directive text and the referenced path.
pub struct IncludeDirective {
    pub directive: String,
    pub path: String,
}

pub open spec fn is_quote(c: char) -> bool {
    c == '"' || c == '\''
}

/// `s` without leading and trailing quote characters.
pub open spec fn trim_quotes(s: Seq<char>) -> Seq<char>
    decreases s.len(),
{
    if s.len() > 0 && is_quote(s[0]) {
        trim_quotes(s.drop_first())
    } else if s.len() > 0 && is_quote(s.last()) {
        trim_quotes(s.drop_last())
    } else {
        s
    }
}

fn trim_quotes_exec(s: &[char]) -> (r: Vec<char>)
    ensures
        r@ == trim_quotes(s@),
{
    let mut a: usize = 0;
    let mut b: usize = s.len();
    assert(s@.subrange(0, s@.len() as int) =~= s@);
    while a < b && (s[a] == '"' || s[a] == '\'')
        invariant
            a <= b == s@.len(),
            trim_quotes(s@) == trim_quotes(s@.subrange(a as int, b as int)),
        decreases b - a,
    {
        assert(s@.subrange(a as int, b as int).drop_first() =~= s@.subrange(a + 1, b as int));
        a = a + 1;
    }
    while a < b && (s[b - 1] == '"' || s[b - 1] == '\'')
        invariant
            a <= b <= s@.len(),
            trim_quotes(s@) == trim_quotes(s@.subrange(a as int, b as int)),
            a < b ==> !is_quote(s@[a as int]),
        decreases b - a,
    {
        assert(s@.subrange(a as int, b as int).drop_last() =~= s@.subrange(a as int, b - 1));
        b = b - 1;
    }
    assert(trim_quotes(s@.subrange(a as int, b as int)) == s@.subrange(a as int, b as int));
    crate::text::slice_vec(s, a, b)
}

/// The directives of a netlist, in order; the path loses surrounding quotes.
pub open spec fn directives_of(netlist: Seq<char>) -> Seq<(Seq<char>, Seq<char>)> {
    regex_captures(INCLUDE_PATTERN@, netlist).map_values(
        |c: (Seq<char>, Option<Seq<char>>)| (c.0, trim_quotes(match c.1 { Some(g) => g, None => seq![] })),
    )
}

/// The `.include` / `.lib` directives of a netlist, matched line by line
/// without regard to case; `None` only where the directive pattern does not
/// compile.
pub fn include_directives(netlist: &str) -> (r: Option<Vec<IncludeDirective>>)
    ensures
        r is Some <==> pattern_compiles(INCLUDE_PATTERN@),
        r matches Some(v) ==> v@.map_values(|d: IncludeDirective| (d.directive@, d.path@)) == directives_of(netlist@),
{
    let caps = match captures(INCLUDE_PATTERN, netlist) {
        Some(c) => c,
        None => {
            return None;
        },
    };
    let ghost want = directives_of(netlist@);
    let mut r: Vec<IncludeDirective> = Vec::new();
    let mut k: usize = 0;
    while k < caps.len()
        invariant
            k <= caps@.len(),
            capture_views(caps@) == regex_captures(INCLUDE_PATTERN@, netlist@),
            want == directives_of(netlist@),
            r@.map_values(|d: IncludeDirective| (d.directive@, d.path@)) == want.take(k as int),
        decreases caps@.len() - k,
    {
        let group: Vec<char> = match &caps[k].1 {
            Some(g) => chars_of(g.as_str()),
            None => Vec::new(),
        };
        let path = trim_quotes_exec(group.as_slice());
        let directive = string_of(chars_of(caps[k].0.as_str()).as_slice());
        let ghost before = r@;
        let d = IncludeDirective { directive, path: string_of(path.as_slice()) };
        assert(capture_views(caps@)[k as int] == (caps@[k as int].0@, match caps@[k as int].1 { Some(g) => Some(g@), None => None }));
        assert(group@ == match caps@[k as int].1 { Some(g) => g@, None => Seq::<char>::empty() });
        assert(want[k as int] == (d.directive@, d.path@));
        r.push(d);
        assert(r@.map_values(|d: IncludeDirective| (d.directive@, d.path@)) =~= before.map_values(
            |d: IncludeDirective| (d.directive@, d.path@),
        ).push((r@[k as int].directive@, r@[k as int].path@)));
        assert(want.take(k + 1) =~= want.take(k as int).push(want[k as int]));
        assert(r@.map_values(|d: IncludeDirective| (d.directive@, d.path@)) =~= want.take(k + 1));
        k = k + 1;
    }
    assert(want.take(caps@.len() as int) =~= want);
    Some(r)
}

/// `s` with each non-overlapping occurrence of the non-empty `from`, left to
/// right, replaced by `to` (`str::replace`).
pub open spec fn replace_all(s: Seq<char>, from: Seq<char>, to: Seq<char>) -> Seq<char>
    decreases s.len(),
{
    if from.len() == 0 || s.len() < from.len() {
        s
    } else if s.take(from.len() as int) == from {
        to + replace_all(s.skip(from.len() as int), from, to)
    } else {
        seq![s[0]] + replace_all(s.drop_first(), from, to)
    }
}

fn replace_all_exec(s: &[char], from: &[char], to: &[char]) -> (r: Vec<char>)
    ensures
        r@ == replace_all(s@, from@, to@),
{
    let mut out: Vec<char> = Vec::new();
    let mut i: usize = 0;
    let n = s.len();
    assert(s@.skip(0) =~= s@);
    while i < n
        invariant
            n == s@.len(),
            i <= n,
            out@ + replace_all(s@.skip(i as int), from@, to@) == replace_all(s@, from@, to@),
        decreases n - i,
    {
        let ghost rest = s@.skip(i as int);
        if from.len() == 0 || n - i < from.len() {
            assert(replace_all(rest, from@, to@) == rest);
            push_all(&mut out, crate::text::slice_vec(s, i, n).as_slice());
            assert(s@.subrange(i as int, n as int) =~= rest);
            assert(s@.skip(n as int).len() == 0);
            assert(replace_all(s@.skip(n as int), from@, to@) =~= Seq::<char>::empty());
            assert(out@ + Seq::<char>::empty() =~= out@);
            i = n;
        } else {
            let head = crate::text::slice_vec(s, i, i + from.len());
            assert(head@ =~= rest.take(from@.len() as int));
            if crate::text::same_chars(head.as_slice(), from) {
                let ghost before = out@;
                push_all(&mut out, to);
                assert(rest.skip(from@.len() as int) =~= s@.skip(i + from@.len()));
                assert(out@ + replace_all(s@.skip(i + from@.len()), from@, to@) =~= before + replace_all(rest, from@, to@));
                i = i + from.len();
            } else {
                let ghost before = out@;
                out.push(s[i]);
                assert(rest.drop_first() =~= s@.skip(i + 1));
                assert(out@ + replace_all(s@.skip(i + 1), from@, to@) =~= before + replace_all(rest, from@, to@));
                i = i + 1;
            }
        }
    }
    assert(s@.skip(n as int).len() == 0);
    assert(replace_all(s@.skip(n as int), from@, to@) =~= Seq::<char>::empty());
    assert(out@ + Seq::<char>::empty() =~= out@);
    out
}

/// The netlist after each resolved directive, in turn, is replaced everywhere
/// by `.include <name>`.
pub open spec fn rewritten(netlist: Seq<char>, resolved: Seq<(Seq<char>, Seq<char>)>) -> Seq<char>
    decreases resolved.len(),
{
    if resolved.len() == 0 {
        netlist
    } else {
        let last = resolved.last();
        replace_all(rewritten(netlist, resolved.drop_last()), last.0, ".include "@ + last.1)
    }
}

/// Points each resolved directive (its text, and the bare name of the copy
/// placed beside the netlist) at that copy.
pub fn rewrite_includes(netlist: &str, resolved: &Vec<(String, String)>) -> (r: String)
    ensures
        r@ == rewritten(netlist@, resolved@.map_values(|p: (String, String)| (p.0@, p.1@))),
{
    let ghost rv = resolved@.map_values(|p: (String, String)| (p.0@, p.1@));
    let mut text = chars_of(netlist);
    let mut k: usize = 0;
    while k < resolved.len()
        invariant
            k <= resolved@.len(),
            rv == resolved@.map_values(|p: (String, String)| (p.0@, p.1@)),
            text@ == rewritten(netlist@, rv.take(k as int)),
        decreases resolved@.len() - k,
    {
        let mut to = chars_of(".include ");
        push_all(&mut to, chars_of(resolved[k].1.as_str()).as_slice());
        let from = chars_of(resolved[k].0.as_str());
        text = replace_all_exec(text.as_slice(), from.as_slice(), to.as_slice());
        assert(rv.take(k + 1).drop_last() =~= rv.take(k as int));
        k = k + 1;
    }
    assert(rv.take(resolved@.len() as int) =~= rv);
    string_of(text.as_slice())
}

/// The standard libraries that ship with the agent, used where the engine's
/// own library tree lacks a referenced file.
pub const STANDARD_LIBRARIES: [&'static str; 1] = ["LTC3.lib"];

pub open spec fn standard_libraries() -> Seq<Seq<char>> {
    seq!["LTC3.lib"@]
}

/// Whether a referenced file name is one of the bundled standard libraries
/// (exact match).
pub fn is_bundled_library(file_name: &str) -> (r: bool)
    ensures
        r == standard_libraries().contains(file_name@),
{
    let f = chars_of(file_name);
    let mut i: usize = 0;
    while i < 1
        invariant
            i <= 1,
            f@ == file_name@,
            forall|m: int| 0 <= m < i ==> standard_libraries()[m] != file_name@,
        decreases 1 - i,
    {
        let lib = chars_of(STANDARD_LIBRARIES[i]);
        assert(STANDARD_LIBRARIES[i as int]@ == standard_libraries()[i as int]);
        if crate::text::same_chars(lib.as_slice(), f.as_slice()) {
            assert(standard_libraries()[i as int] == file_name@);
            return true;
        }
        i = i + 1;
    }
    false
}

} // verus!
