//! Netlist preparation: the directives each engine family needs so that its
//! run leaves an output artifact that the result decoders can read.
use vstd::prelude::*;
use crate::text::{
    chars_of, contains, contains_lower, equals_lower, has_char, join, join_lines,
    lemma_contains_strip_cr, lemma_lines_no_newline, lemma_lines_of_join, lemma_trim_strip_cr,
    lines, lower, occurs_at, push_all, split_lines, string_of, strip_cr, trim, trim_end,
    trim_start, trim_vec, views,
};

verus! {

/// A line that, trimmed and folded to lower case, is the terminal directive.
pub open spec fn is_end_line(l: Seq<char>) -> bool {
    lower(trim(l)) == ".end"@
}

/// Index of the first terminal directive among `ls`.
pub open spec fn first_end(ls: Seq<Seq<char>>) -> Option<int>
    decreases ls.len(),
{
    if ls.len() == 0 {
        None
    } else if is_end_line(ls[0]) {
        Some(0)
    } else {
        match first_end(ls.drop_first()) {
            Some(i) => Some(i + 1),
            None => None,
        }
    }
}

/// `ls` with `d` inserted just before its first terminal directive.
pub open spec fn insert_before_end(ls: Seq<Seq<char>>, d: Seq<char>) -> Seq<Seq<char>> {
    match first_end(ls) {
        Some(i) => ls.insert(i, d),
        None => ls,
    }
}

/// `ls`, with a terminal directive appended where it has none.
pub open spec fn with_end(ls: Seq<Seq<char>>) -> Seq<Seq<char>> {
    if first_end(ls) is Some {
        ls
    } else {
        ls.push(".end"@)
    }
}

/// The plot-window size chosen by a waveform-quality hint.
pub open spec fn plot_size(quality: Seq<char>) -> u32 {
    if quality == "fast"@ {
        128
    } else {
        0
    }
}

/// The plot-window option line for a quality hint.
pub open spec fn options_directive(quality: Seq<char>) -> Seq<char> {
    if quality == "fast"@ {
        ".options plotwinsize=128"@
    } else {
        ".options plotwinsize=0"@
    }
}

/// Some line, folded to lower case, holds `pat`.
pub open spec fn has_line_with(ls: Seq<Seq<char>>, pat: Seq<char>) -> bool {
    exists|j: int| 0 <= j < ls.len() && contains(lower(#[trigger] ls[j]), pat)
}

/// The lines of a netlist prepared for the engine of family A: back-annotation,
/// save-all and plot-window directives added before the terminal directive
/// where no line (case-insensitively) has them already.
pub open spec fn prepared_lines(netlist: Seq<char>, quality: Seq<char>) -> Seq<Seq<char>> {
    let ls = lines(netlist);
    let l0 = with_end(ls);
    let l1 = if has_line_with(ls, ".backanno"@) { l0 } else { insert_before_end(l0, ".backanno"@) };
    let l2 = if has_line_with(ls, ".save"@) { l1 } else { insert_before_end(l1, ".save all"@) };
    if has_line_with(ls, ".options plotwinsize"@) {
        l2
    } else {
        insert_before_end(l2, options_directive(quality))
    }
}

pub open spec fn prepared(netlist: Seq<char>, quality: Seq<char>) -> Seq<char> {
    join(prepared_lines(netlist, quality), "\n"@)
}

proof fn lemma_first_end(ls: Seq<Seq<char>>)
    ensures
        match first_end(ls) {
            Some(k) => 0 <= k < ls.len() && is_end_line(ls[k]) && forall|i: int|
                0 <= i < k ==> !is_end_line(#[trigger] ls[i]),
            None => forall|i: int| 0 <= i < ls.len() ==> !is_end_line(#[trigger] ls[i]),
        },
    decreases ls.len(),
{
    if ls.len() > 0 && !is_end_line(ls[0]) {
        lemma_first_end(ls.drop_first());
        assert forall|i: int| 0 < i < ls.len() implies ls[i] == ls.drop_first()[i - 1] by {}
    }
}

proof fn lemma_first_end_is(ls: Seq<Seq<char>>, k: int)
    requires
        0 <= k < ls.len(),
        is_end_line(ls[k]),
        forall|i: int| 0 <= i < k ==> !is_end_line(#[trigger] ls[i]),
    ensures
        first_end(ls) == Some(k),
{
    lemma_first_end(ls);
    match first_end(ls) {
        Some(j) => {
            if j < k {
                assert(!is_end_line(ls[j]));
            }
            if j > k {
                assert(!is_end_line(ls[k]));
            }
        },
        None => {
            assert(!is_end_line(ls[k]));
        },
    }
}

/// Whether a line is the terminal directive.
fn is_end_line_exec(l: &[char]) -> (r: bool)
    ensures
        r == is_end_line(l@),
{
    let t = trim_vec(l);
    let end = chars_of(".end");
    equals_lower(t.as_slice(), end.as_slice())
}

/// Whether some line, folded to lower case, holds `pat`.
fn any_line_contains(ls: &Vec<Vec<char>>, pat: &[char]) -> (r: bool)
    ensures
        r == has_line_with(views(ls@), pat@),
{
    let ghost v = views(ls@);
    let mut i: usize = 0;
    while i < ls.len()
        invariant
            v == views(ls@),
            i <= ls@.len(),
            forall|m: int| 0 <= m < i ==> !contains(lower(#[trigger] v[m]), pat@),
        decreases ls@.len() - i,
    {
        if contains_lower(ls[i].as_slice(), pat) {
            assert(contains(lower(v[i as int]), pat@));
            return true;
        }
        i = i + 1;
    }
    false
}

/// Index of the first terminal directive among the lines.
fn find_end(ls: &Vec<Vec<char>>) -> (r: Option<usize>)
    ensures
        match r {
            Some(i) => i < ls@.len() && first_end(views(ls@)) == Some(i as int),
            None => first_end(views(ls@)) is None,
        },
{
    let ghost v = views(ls@);
    let mut i: usize = 0;
    while i < ls.len()
        invariant
            v == views(ls@),
            i <= ls@.len(),
            forall|m: int| 0 <= m < i ==> !is_end_line(#[trigger] v[m]),
        decreases ls@.len() - i,
    {
        if is_end_line_exec(ls[i].as_slice()) {
            proof {
                lemma_first_end_is(v, i as int);
            }
            return Some(i);
        }
        i = i + 1;
    }
    proof {
        lemma_first_end(v);
        match first_end(v) {
            Some(k) => {
                assert(!is_end_line(v[k]));
            },
            None => {},
        }
    }
    None
}

/// Inserts `d` before the first terminal directive, if there is one.
fn insert_before_end_exec(ls: &mut Vec<Vec<char>>, d: Vec<char>)
    ensures
        views(final(ls)@) == insert_before_end(views(old(ls)@), d@),
{
    match find_end(ls) {
        Some(i) => {
            let ghost before = ls@;
            ls.insert(i, d);
            assert(views(ls@) =~= views(before).insert(i as int, d@));
        },
        None => {},
    }
}

/// The plot-window size for a waveform-quality hint: `fast` gives 128, any
/// other hint 0.
pub fn plot_window_size(quality: &str) -> (r: u32)
    ensures
        r == plot_size(quality@),
{
    let q = chars_of(quality);
    let fast = chars_of("fast");
    if crate::text::same_chars(q.as_slice(), fast.as_slice()) {
        128
    } else {
        0
    }
}

/// Prepares a netlist for the engine of family A. Each of the back-annotation,
/// save and plot-window directives that no line of the netlist holds (compared
/// without regard to case) is inserted just before the terminal `.end` line, in that
/// order; a netlist without `.end` gets one appended first. Everything else is
/// kept line by line.
pub fn prepare_netlist(netlist: &str, waveform_quality: &str) -> (r: String)
    ensures
        r@ == prepared(netlist@, waveform_quality@),
{
    let text = chars_of(netlist);
    let mut ls = split_lines(text.as_slice());
    let has_backanno = any_line_contains(&ls, chars_of(".backanno").as_slice());
    let has_save = any_line_contains(&ls, chars_of(".save").as_slice());
    let has_options = any_line_contains(&ls, chars_of(".options plotwinsize").as_slice());
    if find_end(&ls).is_none() {
        let ghost before = ls@;
        ls.push(chars_of(".end"));
        assert(views(ls@) =~= views(before).push(".end"@));
    }
    if !has_backanno {
        insert_before_end_exec(&mut ls, chars_of(".backanno"));
    }
    if !has_save {
        insert_before_end_exec(&mut ls, chars_of(".save all"));
    }
    if !has_options {
        let q = chars_of(waveform_quality);
        let fast = chars_of("fast");
        let d = if crate::text::same_chars(q.as_slice(), fast.as_slice()) {
            chars_of(".options plotwinsize=128")
        } else {
            chars_of(".options plotwinsize=0")
        };
        insert_before_end_exec(&mut ls, d);
    }
    let out = join_lines(&ls);
    proof {
        reveal_strlit("\n");
        assert("\n"@ =~= seq!['\n']);
    }
    string_of(out.as_slice())
}

/// Inserting before the terminal directive keeps every line, and adds `d`
/// where there is a terminal directive; every line after is an old one or `d`.
proof fn lemma_insert_keeps(ls: Seq<Seq<char>>, d: Seq<char>)
    ensures
        forall|e: Seq<char>| ls.contains(e) ==> insert_before_end(ls, d).contains(e),
        first_end(ls) is Some ==> insert_before_end(ls, d).contains(d),
        forall|k: int| 0 <= k < insert_before_end(ls, d).len() ==> ls.contains(
            #[trigger] insert_before_end(ls, d)[k],
        ) || insert_before_end(ls, d)[k] == d,
{
    lemma_first_end(ls);
    match first_end(ls) {
        Some(i) => {
            ls.insert_ensures(i, d);
            let r = ls.insert(i, d);
            assert forall|e: Seq<char>| ls.contains(e) implies r.contains(e) by {
                let j = choose|j: int| 0 <= j < ls.len() && ls[j] == e;
                if j < i {
                    assert(r[j] == e);
                } else {
                    assert(r[j + 1] == e);
                }
            }
            assert(r[i] == d);
            assert forall|k: int| 0 <= k < r.len() implies ls.contains(#[trigger] r[k]) || r[k] == d by {
                if k < i {
                    assert(ls[k] == r[k]);
                } else if k > i {
                    assert(ls[k - 1] == r[k]);
                }
            }
        },
        None => {},
    }
}

/// Lines that include a terminal directive have a first one.
proof fn lemma_has_end(ls: Seq<Seq<char>>, e: Seq<char>)
    requires
        ls.contains(e),
        is_end_line(e),
    ensures
        first_end(ls) is Some,
{
    lemma_first_end(ls);
    if first_end(ls) is None {
        let j = choose|j: int| 0 <= j < ls.len() && ls[j] == e;
        assert(!is_end_line(ls[j]));
    }
}

/// A line of `ls` that holds `pat` is found again among the lines of their join.
proof fn lemma_found_again(ls: Seq<Seq<char>>, e: Seq<char>, pat: Seq<char>)
    requires
        forall|i: int| 0 <= i < ls.len() ==> !(#[trigger] ls[i]).contains('\n'),
        ls.contains(e),
        contains(lower(e), pat),
        pat.len() > 0,
        !pat.contains('\r'),
    ensures
        has_line_with(lines(join(ls, seq!['\n'])), pat),
{
    let k = choose|k: int| 0 <= k < ls.len() && ls[k] == e;
    let i = choose|i: int| occurs_at(lower(e), pat, i);
    assert(e.len() > 0);
    lemma_lines_of_join(ls, k);
    let out = lines(join(ls, seq!['\n']));
    lemma_contains_strip_cr(e, pat);
    if out.contains(strip_cr(e)) {
        let j = choose|j: int| 0 <= j < out.len() && out[j] == strip_cr(e);
        assert(contains(lower(out[j]), pat));
    } else {
        let j = choose|j: int| 0 <= j < out.len() && out[j] == e;
        assert(contains(lower(out[j]), pat));
    }
}

/// Some line of the lines handed in holds `pat`, or `d` holds it and is added.
proof fn lemma_pattern_kept(ls: Seq<Seq<char>>, l: Seq<Seq<char>>, out: Seq<Seq<char>>, pat: Seq<char>, d: Seq<char>)
    requires
        forall|e: Seq<char>| ls.contains(e) ==> l.contains(e),
        first_end(l) is Some,
        out == (if has_line_with(ls, pat) { l } else { insert_before_end(l, d) }),
        contains(lower(d), pat),
    ensures
        exists|e: Seq<char>| out.contains(e) && contains(lower(e), pat),
        forall|e: Seq<char>| l.contains(e) ==> out.contains(e),
{
    lemma_insert_keeps(l, d);
    if has_line_with(ls, pat) {
        let j = choose|j: int| 0 <= j < ls.len() && contains(lower(#[trigger] ls[j]), pat);
        assert(ls.contains(ls[j]));
        assert(out.contains(ls[j]));
    } else {
        assert(out.contains(d));
    }
}

/// The directive literals hold no line feed and no carriage return, and each
/// holds what it is tested by.
proof fn lemma_directive_literals(quality: Seq<char>)
    ensures
        !".end"@.contains('\n'),
        !".backanno"@.contains('\n'),
        !".save all"@.contains('\n'),
        !options_directive(quality).contains('\n'),
        !".backanno"@.contains('\r'),
        !".save"@.contains('\r'),
        !".options plotwinsize"@.contains('\r'),
        ".backanno"@.len() > 0,
        ".save"@.len() > 0,
        ".options plotwinsize"@.len() > 0,
        contains(lower(".backanno"@), ".backanno"@),
        contains(lower(".save all"@), ".save"@),
        contains(lower(options_directive(quality)), ".options plotwinsize"@),
        is_end_line(".end"@),
        ".end"@.len() == 4,
        "\n"@ == seq!['\n'],
{
    reveal_strlit(".end");
    reveal_strlit(".backanno");
    reveal_strlit(".save all");
    reveal_strlit(".save");
    reveal_strlit(".options plotwinsize");
    reveal_strlit(".options plotwinsize=128");
    reveal_strlit(".options plotwinsize=0");
    reveal_strlit("\n");
    assert("\n"@ =~= seq!['\n']);
    assert(lower(".backanno"@) =~= ".backanno"@);
    assert(lower(".backanno"@).subrange(0, 9) =~= ".backanno"@);
    assert(occurs_at(lower(".backanno"@), ".backanno"@, 0));
    assert(lower(".save all"@).subrange(0, 5) =~= ".save"@);
    assert(occurs_at(lower(".save all"@), ".save"@, 0));
    let o = options_directive(quality);
    assert(lower(o).subrange(0, 20) =~= ".options plotwinsize"@);
    assert(occurs_at(lower(o), ".options plotwinsize"@, 0));
    assert(trim_start(".end"@) == ".end"@);
    assert(trim_end(".end"@) == ".end"@);
    assert(lower(".end"@) =~= ".end"@);
}

/// Preparing is idempotent: on a netlist it has already prepared, a second run
/// adds no back-annotation, save, plot-window or terminal directive, so that
/// each directive it added occurs once.
pub proof fn lemma_prepare_idempotent(netlist: Seq<char>, quality: Seq<char>)
    ensures
        prepared_lines(prepared(netlist, quality), quality) == lines(prepared(netlist, quality)),
{
    lemma_directive_literals(quality);
    let ls = lines(netlist);
    let l0 = with_end(ls);
    let l1 = if has_line_with(ls, ".backanno"@) { l0 } else { insert_before_end(l0, ".backanno"@) };
    let l2 = if has_line_with(ls, ".save"@) { l1 } else { insert_before_end(l1, ".save all"@) };
    let l3 = prepared_lines(netlist, quality);
    assert(l3 == (if has_line_with(ls, ".options plotwinsize"@) { l2 } else { insert_before_end(l2, options_directive(quality)) }));
    let p = prepared(netlist, quality);
    assert(p == join(l3, seq!['\n']));
    // the terminal directive
    lemma_first_end(ls);
    let end_line: Seq<char> = match first_end(ls) {
        Some(i) => ls[i],
        None => ".end"@,
    };
    assert(l0.contains(end_line)) by {
        match first_end(ls) {
            Some(i) => {
                assert(l0[i] == end_line);
            },
            None => {
                assert(l0[ls.len() as int] == end_line);
            },
        }
    }
    assert(forall|e: Seq<char>| ls.contains(e) ==> l0.contains(e)) by {
        assert forall|e: Seq<char>| ls.contains(e) implies l0.contains(e) by {
            let j = choose|j: int| 0 <= j < ls.len() && ls[j] == e;
            assert(l0[j] == e);
        }
    }
    lemma_has_end(l0, end_line);
    lemma_pattern_kept(ls, l0, l1, ".backanno"@, ".backanno"@);
    lemma_has_end(l1, end_line);
    lemma_pattern_kept(ls, l1, l2, ".save"@, ".save all"@);
    lemma_has_end(l2, end_line);
    lemma_pattern_kept(ls, l2, l3, ".options plotwinsize"@, options_directive(quality));
    // no prepared line holds a line feed
    lemma_lines_no_newline(netlist);
    assert forall|i: int| 0 <= i < l3.len() implies !(#[trigger] l3[i]).contains('\n') by {
        lemma_insert_keeps(l2, options_directive(quality));
        lemma_insert_keeps(l1, ".save all"@);
        lemma_insert_keeps(l0, ".backanno"@);
        let e3 = l3[i];
        assert(l2.contains(e3) || e3 == options_directive(quality));
        if l2.contains(e3) {
            let k2 = choose|k: int| 0 <= k < l2.len() && l2[k] == e3;
            assert(l1.contains(l2[k2]) || l2[k2] == ".save all"@);
            if l1.contains(e3) {
                let k1 = choose|k: int| 0 <= k < l1.len() && l1[k] == e3;
                assert(l0.contains(l1[k1]) || l1[k1] == ".backanno"@);
                if l0.contains(e3) {
                    let k0 = choose|k: int| 0 <= k < l0.len() && l0[k] == e3;
                    if k0 < ls.len() {
                        assert(ls[k0] == l0[k0]);
                    }
                }
            }
        }
    }
    // what the second run looks for is all there
    let e1 = choose|e: Seq<char>| l1.contains(e) && contains(lower(e), ".backanno"@);
    let e2 = choose|e: Seq<char>| l2.contains(e) && contains(lower(e), ".save"@);
    let e3 = choose|e: Seq<char>| l3.contains(e) && contains(lower(e), ".options plotwinsize"@);
    lemma_found_again(l3, e1, ".backanno"@);
    lemma_found_again(l3, e2, ".save"@);
    lemma_found_again(l3, e3, ".options plotwinsize"@);
    let out = lines(p);
    assert(l3.contains(end_line));
    let k = choose|k: int| 0 <= k < l3.len() && l3[k] == end_line;
    assert(is_end_line(end_line));
    assert(end_line.len() > 0) by {
        if end_line.len() == 0 {
            assert(trim(end_line) == end_line);
            assert(lower(end_line).len() == 0);
        }
    }
    lemma_lines_of_join(l3, k);
    lemma_trim_strip_cr(end_line);
    if out.contains(strip_cr(end_line)) {
        lemma_has_end(out, strip_cr(end_line));
    } else {
        lemma_has_end(out, end_line);
    }
}

/// The number of lines that, folded to lower case, hold `pat`.
pub open spec fn count_with(ls: Seq<Seq<char>>, pat: Seq<char>) -> nat
    decreases ls.len(),
{
    if ls.len() == 0 {
        0
    } else {
        count_with(ls.drop_last(), pat) + if contains(lower(ls.last()), pat) { 1nat } else { 0nat }
    }
}

/// The lines that a join of `ls` splits back into: every line but the last
/// loses a final carriage return, and an empty last line disappears.
pub open spec fn relined(ls: Seq<Seq<char>>) -> Seq<Seq<char>> {
    if ls.len() == 0 {
        seq![]
    } else {
        let init = ls.drop_last().map_values(|l: Seq<char>| strip_cr(l));
        if ls.last().len() == 0 { init } else { init.push(ls.last()) }
    }
}

proof fn lemma_lines_join_exact(ls: Seq<Seq<char>>)
    requires
        forall|i: int| 0 <= i < ls.len() ==> !(#[trigger] ls[i]).contains('\n'),
    ensures
        lines(join(ls, seq!['\n'])) == relined(ls),
    decreases ls.len(),
{
    if ls.len() == 1 {
        if ls[0].len() > 0 {
            crate::text::lemma_lines_single(ls[0]);
        }
        assert(relined(ls) =~= lines(join(ls, seq!['\n'])));
    } else if ls.len() >= 2 {
        let rest = ls.drop_first();
        crate::text::lemma_join_front(ls, seq!['\n']);
        assert(!ls[0].contains('\n'));
        crate::text::lemma_lines_split(ls[0], join(rest, seq!['\n']));
        assert forall|i: int| 0 <= i < rest.len() implies !(#[trigger] rest[i]).contains('\n') by {
            assert(rest[i] == ls[i + 1]);
        }
        lemma_lines_join_exact(rest);
        assert(rest.last() == ls.last());
        assert(rest.drop_last().map_values(|l: Seq<char>| strip_cr(l)) =~= ls.drop_last().map_values(
            |l: Seq<char>| strip_cr(l),
        ).drop_first());
        assert(relined(ls) =~= seq![strip_cr(ls[0])] + relined(rest));
    }
}

proof fn lemma_contains_of_strip_cr(x: Seq<char>, pat: Seq<char>)
    requires
        pat.len() > 0,
        !pat.contains('\r'),
    ensures
        contains(lower(strip_cr(x)), pat) == contains(lower(x), pat),
{
    if contains(lower(x), pat) {
        lemma_contains_strip_cr(x, pat);
    }
    if contains(lower(strip_cr(x)), pat) && x.len() > 0 && x.last() == '\r' {
        let i = choose|i: int| occurs_at(lower(strip_cr(x)), pat, i);
        assert(lower(x).subrange(i, i + pat.len()) =~= lower(strip_cr(x)).subrange(i, i + pat.len()));
        assert(occurs_at(lower(x), pat, i));
    }
}

proof fn lemma_count_strip_cr(ls: Seq<Seq<char>>, pat: Seq<char>)
    requires
        pat.len() > 0,
        !pat.contains('\r'),
    ensures
        count_with(ls.map_values(|l: Seq<char>| strip_cr(l)), pat) == count_with(ls, pat),
    decreases ls.len(),
{
    if ls.len() > 0 {
        let m = ls.map_values(|l: Seq<char>| strip_cr(l));
        assert(m.drop_last() =~= ls.drop_last().map_values(|l: Seq<char>| strip_cr(l)));
        lemma_count_strip_cr(ls.drop_last(), pat);
        lemma_contains_of_strip_cr(ls.last(), pat);
    }
}

proof fn lemma_count_relined(ls: Seq<Seq<char>>, pat: Seq<char>)
    requires
        pat.len() > 0,
        !pat.contains('\r'),
    ensures
        count_with(relined(ls), pat) == count_with(ls, pat),
{
    if ls.len() > 0 {
        lemma_count_strip_cr(ls.drop_last(), pat);
        let init = ls.drop_last().map_values(|l: Seq<char>| strip_cr(l));
        if ls.last().len() > 0 {
            assert(init.push(ls.last()).drop_last() =~= init);
        } else {
            assert(!contains(lower(ls.last()), pat));
        }
    }
}

proof fn lemma_count_insert(ls: Seq<Seq<char>>, i: int, d: Seq<char>, pat: Seq<char>)
    requires
        0 <= i <= ls.len(),
    ensures
        count_with(ls.insert(i, d), pat) == count_with(ls, pat) + if contains(lower(d), pat) { 1nat } else { 0nat },
    decreases ls.len(),
{
    if i == ls.len() {
        assert(ls.insert(i, d).drop_last() =~= ls);
    } else {
        lemma_count_insert(ls.drop_last(), i, d, pat);
        assert(ls.insert(i, d).drop_last() =~= ls.drop_last().insert(i, d));
        assert(ls.insert(i, d).last() == ls.last());
    }
}

proof fn lemma_count_positive(ls: Seq<Seq<char>>, pat: Seq<char>)
    ensures
        count_with(ls, pat) > 0 <==> has_line_with(ls, pat),
    decreases ls.len(),
{
    if ls.len() > 0 {
        lemma_count_positive(ls.drop_last(), pat);
        if has_line_with(ls.drop_last(), pat) {
            let j = choose|j: int| 0 <= j < ls.drop_last().len() && contains(lower(#[trigger] ls.drop_last()[j]), pat);
            assert(ls[j] == ls.drop_last()[j]);
        }
        if has_line_with(ls, pat) {
            let j = choose|j: int| 0 <= j < ls.len() && contains(lower(#[trigger] ls[j]), pat);
            if j < ls.len() - 1 {
                assert(ls.drop_last()[j] == ls[j]);
            }
        }
        if contains(lower(ls.last()), pat) {
            assert(ls[ls.len() - 1] == ls.last());
        }
    }
}

/// A text whose only `.` is its first character holds no `.`-led pattern
/// that differs from it in the second character.
proof fn lemma_dot_led(s: Seq<char>, pat: Seq<char>)
    requires
        pat.len() >= 2,
        pat[0] == '.',
        s.len() >= 2,
        s[1] != pat[1],
        forall|k: int| 1 <= k < s.len() ==> s[k] != '.',
    ensures
        !contains(s, pat),
{
    if contains(s, pat) {
        let i = choose|i: int| occurs_at(s, pat, i);
        assert(s.subrange(i, i + pat.len())[0] == s[i]);
        assert(s.subrange(i, i + pat.len())[1] == s[i + 1]);
    }
}

/// How the three added directives stand to the three patterns.
proof fn lemma_directive_counts(quality: Seq<char>)
    ensures
        !contains(lower(".save all"@), ".backanno"@),
        !contains(lower(options_directive(quality)), ".backanno"@),
        !contains(lower(".backanno"@), ".save"@),
        !contains(lower(options_directive(quality)), ".save"@),
        !contains(lower(".backanno"@), ".options plotwinsize"@),
        !contains(lower(".save all"@), ".options plotwinsize"@),
        lower(options_directive(quality)) == options_directive(quality),
{
    reveal_strlit(".backanno");
    reveal_strlit(".save all");
    reveal_strlit(".save");
    reveal_strlit(".options plotwinsize");
    reveal_strlit(".options plotwinsize=128");
    reveal_strlit(".options plotwinsize=0");
    let b = ".backanno"@;
    let sa = ".save all"@;
    let o = options_directive(quality);
    assert(lower(b) =~= b);
    assert(lower(sa) =~= sa);
    assert(lower(o) =~= o);
    assert forall|k: int| 1 <= k < b.len() implies b[k] != '.' by {}
    assert forall|k: int| 1 <= k < sa.len() implies sa[k] != '.' by {}
    assert forall|k: int| 1 <= k < o.len() implies o[k] != '.' by {}
    lemma_dot_led(sa, ".backanno"@);
    lemma_dot_led(o, ".backanno"@);
    lemma_dot_led(b, ".save"@);
    lemma_dot_led(o, ".save"@);
    lemma_dot_led(b, ".options plotwinsize"@);
    lemma_dot_led(sa, ".options plotwinsize"@);
}

/// For a netlist with a terminal directive, preparing leaves the number of
/// back-annotation, save and plot-window lines as it was, or makes it one
/// where there was none: the inserted directives add exactly one each.
pub proof fn lemma_prepared_counts(netlist: Seq<char>, quality: Seq<char>)
    requires
        first_end(lines(netlist)) is Some,
    ensures
        forall|pat: Seq<char>|
            pat == ".backanno"@ || pat == ".save"@ || pat == ".options plotwinsize"@ ==> count_with(
                #[trigger] lines(prepared(netlist, quality)),
                pat,
            ) == count_with(prepared_lines(netlist, quality), pat) && count_with(
                prepared_lines(netlist, quality),
                pat,
            ) == if count_with(lines(netlist), pat) == 0 {
                1
            } else {
                count_with(lines(netlist), pat)
            },
{
    lemma_directive_literals(quality);
    lemma_directive_counts(quality);
    let ls = lines(netlist);
    let b = ".backanno"@;
    let sv = ".save"@;
    let op = ".options plotwinsize"@;
    let o = options_directive(quality);
    let l1 = if has_line_with(ls, b) { ls } else { insert_before_end(ls, b) };
    let l2 = if has_line_with(ls, sv) { l1 } else { insert_before_end(l1, ".save all"@) };
    let l3 = prepared_lines(netlist, quality);
    assert(with_end(ls) == ls);
    lemma_first_end(ls);
    let e = ls[first_end(ls)->0];
    assert(ls.contains(e));
    lemma_insert_keeps(ls, b);
    lemma_has_end(l1, e);
    lemma_insert_keeps(l1, ".save all"@);
    lemma_has_end(l2, e);
    assert(l3 == if has_line_with(ls, op) { l2 } else { insert_before_end(l2, o) });
    lemma_first_end(l1);
    lemma_first_end(l2);
    lemma_count_positive(ls, b);
    lemma_count_positive(ls, sv);
    lemma_count_positive(ls, op);
    assert forall|pat: Seq<char>| pat == b || pat == sv || pat == op implies count_with(l3, pat) == if count_with(ls, pat) == 0 {
        1
    } else {
        count_with(ls, pat)
    } by {
        if !has_line_with(ls, b) {
            lemma_count_insert(ls, first_end(ls)->0, b, pat);
        }
        if !has_line_with(ls, sv) {
            lemma_count_insert(l1, first_end(l1)->0, ".save all"@, pat);
        }
        if !has_line_with(ls, op) {
            lemma_count_insert(l2, first_end(l2)->0, o, pat);
        }
    }
    // the lines of the joined text count alike
    lemma_lines_no_newline(netlist);
    assert forall|i: int| 0 <= i < l3.len() implies !(#[trigger] l3[i]).contains('\n') by {
        lemma_insert_keeps(l2, o);
        let x = l3[i];
        if l2.contains(x) {
            let k2 = choose|k: int| 0 <= k < l2.len() && l2[k] == x;
            assert(l1.contains(l2[k2]) || l2[k2] == ".save all"@);
            if l1.contains(x) {
                let k1 = choose|k: int| 0 <= k < l1.len() && l1[k] == x;
                assert(ls.contains(l1[k1]) || l1[k1] == b);
                if ls.contains(x) {
                    let k0 = choose|k: int| 0 <= k < ls.len() && ls[k] == x;
                    assert(ls[k0] == x);
                }
            }
        }
    }
    lemma_lines_join_exact(l3);
    assert(prepared(netlist, quality) == join(l3, seq!['\n']));
    assert forall|pat: Seq<char>| pat == b || pat == sv || pat == op implies count_with(
        #[trigger] lines(prepared(netlist, quality)),
        pat,
    ) == count_with(l3, pat) by {
        reveal_strlit(".backanno");
        reveal_strlit(".save");
        reveal_strlit(".options plotwinsize");
        lemma_count_relined(l3, pat);
    }
}

/// Preparing twice counts each of the back-annotation, save and plot-window
/// lines as one run does; a netlist with at most one of each ends with exactly
/// one of each.
pub proof fn lemma_prepared_twice_counts(netlist: Seq<char>, quality: Seq<char>)
    requires
        first_end(lines(netlist)) is Some,
    ensures
        forall|pat: Seq<char>|
            pat == ".backanno"@ || pat == ".save"@ || pat == ".options plotwinsize"@ ==> {
                &&& count_with(#[trigger] lines(prepared(prepared(netlist, quality), quality)), pat)
                    == count_with(lines(prepared(netlist, quality)), pat)
                &&& count_with(lines(netlist), pat) <= 1 ==> count_with(
                    lines(prepared(prepared(netlist, quality), quality)),
                    pat,
                ) == 1
            },
{
    let p = prepared(netlist, quality);
    lemma_prepare_idempotent(netlist, quality);
    lemma_prepared_counts(netlist, quality);
    lemma_directive_literals(quality);
    lemma_lines_no_newline(p);
    lemma_lines_join_exact(lines(p));
    assert(prepared(p, quality) == join(lines(p), seq!['\n']));
    assert forall|pat: Seq<char>| pat == ".backanno"@ || pat == ".save"@ || pat == ".options plotwinsize"@ implies count_with(
        #[trigger] lines(prepared(p, quality)),
        pat,
    ) == count_with(lines(p), pat) by {
        reveal_strlit(".backanno");
        reveal_strlit(".save");
        reveal_strlit(".options plotwinsize");
        lemma_count_relined(lines(p), pat);
    }
}

/// Where no line sets the plot-window size, preparing adds exactly one such
/// line, with the size the quality hint selects (`fast` 128, anything else 0),
/// just before the first terminal directive.
pub proof fn lemma_plot_window_directive(netlist: Seq<char>, quality: Seq<char>)
    requires
        first_end(lines(netlist)) is Some,
        !has_line_with(lines(netlist), ".options plotwinsize"@),
    ensures
        count_with(lines(prepared(netlist, quality)), ".options plotwinsize"@) == 1,
        exists|i: int|
            0 <= i && i + 1 < lines(prepared(netlist, quality)).len() && lines(prepared(netlist, quality))[i]
                == options_directive(quality) && first_end(lines(prepared(netlist, quality))) == Some(i + 1),
        options_directive(quality) == (if quality == "fast"@ {
            ".options plotwinsize=128"@
        } else {
            ".options plotwinsize=0"@
        }),
{
    lemma_prepared_counts(netlist, quality);
    lemma_count_positive(lines(netlist), ".options plotwinsize"@);
    lemma_directive_literals(quality);
    lemma_directive_counts(quality);
    let ls = lines(netlist);
    let l1 = if has_line_with(ls, ".backanno"@) { ls } else { insert_before_end(ls, ".backanno"@) };
    let l2 = if has_line_with(ls, ".save"@) { l1 } else { insert_before_end(l1, ".save all"@) };
    let o = options_directive(quality);
    let l3 = prepared_lines(netlist, quality);
    assert(with_end(ls) == ls);
    lemma_first_end(ls);
    let e = ls[first_end(ls)->0];
    assert(ls.contains(e));
    lemma_insert_keeps(ls, ".backanno"@);
    lemma_has_end(l1, e);
    lemma_insert_keeps(l1, ".save all"@);
    lemma_has_end(l2, e);
    lemma_first_end(l2);
    let i = first_end(l2)->0;
    assert(l3 == l2.insert(i, o));
    l2.insert_ensures(i, o);
    // the option line is no terminal directive
    reveal_strlit(".options plotwinsize=128");
    reveal_strlit(".options plotwinsize=0");
    assert(o.len() > 4);
    assert(trim_start(o) == o);
    assert(trim_end(o) == o);
    assert(!is_end_line(o));
    assert forall|j: int| 0 <= j < i + 1 implies !is_end_line(#[trigger] l3[j]) by {
        if j < i {
            assert(l3[j] == l2[j]);
        }
    }
    assert(l3[i + 1] == l2[i]);
    lemma_first_end_is(l3, i + 1);
    // and the same holds of the lines of the joined text
    lemma_lines_no_newline(netlist);
    assert forall|k: int| 0 <= k < l3.len() implies !(#[trigger] l3[k]).contains('\n') by {
        lemma_insert_keeps(l2, o);
        let x = l3[k];
        if l2.contains(x) {
            let k2 = choose|m: int| 0 <= m < l2.len() && l2[m] == x;
            assert(l1.contains(l2[k2]) || l2[k2] == ".save all"@);
            if l1.contains(x) {
                let k1 = choose|m: int| 0 <= m < l1.len() && l1[m] == x;
                assert(ls.contains(l1[k1]) || l1[k1] == ".backanno"@);
                if ls.contains(x) {
                    let k0 = choose|m: int| 0 <= m < ls.len() && ls[m] == x;
                    assert(ls[k0] == x);
                }
            }
        }
    }
    lemma_lines_join_exact(l3);
    let out = lines(prepared(netlist, quality));
    assert(out == relined(l3));
    let end_line = l3[i + 1];
    assert(end_line.len() > 0) by {
        if end_line.len() == 0 {
            assert(trim(end_line) == end_line);
            assert(lower(end_line).len() == 0);
        }
    }
    assert(out.len() > i + 1);
    assert(out[i] == strip_cr(o));
    assert(strip_cr(o) == o);
    assert forall|j: int| 0 <= j < i + 1 implies !is_end_line(#[trigger] out[j]) by {
        lemma_trim_strip_cr(l3[j]);
        assert(out[j] == strip_cr(l3[j]));
    }
    lemma_trim_strip_cr(end_line);
    assert(is_end_line(out[i + 1]));
    lemma_first_end_is(out, i + 1);
}

/// The raw-output path as the engine of family B reads it: back slashes made
/// forward slashes.
pub open spec fn slashed(p: Seq<char>) -> Seq<char> {
    p.map_values(|c: char| if c == '\\' { '/' } else { c })
}

/// The command that writes every vector to `path`, quoted when it holds a space.
pub open spec fn write_command(path: Seq<char>) -> Seq<char> {
    let p = slashed(path);
    if p.contains(' ') {
        "write '"@ + p + "' all"@
    } else {
        "write "@ + p + " all"@
    }
}

/// The control block that runs the simulation, writes the artifact and quits.
pub open spec fn control_block(path: Seq<char>) -> Seq<Seq<char>> {
    seq![".control"@, "run"@, write_command(path), "quit"@, ".endc"@]
}

/// The lines of a netlist prepared for the engine of family B: unless it already
/// has a control block, one is inserted before the terminal directive, or
/// appended together with a terminal directive where there is none.
pub open spec fn ngspice_lines(netlist: Seq<char>, raw_path: Seq<char>) -> Seq<Seq<char>> {
    let ls = lines(netlist);
    if contains(lower(netlist), ".control"@) {
        ls
    } else {
        match first_end(ls) {
            Some(i) => ls.take(i) + control_block(raw_path) + ls.skip(i),
            None => ls + control_block(raw_path) + seq![".end"@],
        }
    }
}

/// Prepares a netlist for the engine of family B, which writes its output to
/// `raw_path`.
pub fn prepare_ngspice_netlist(netlist: &str, raw_path: &str) -> (r: String)
    ensures
        r@ == join(ngspice_lines(netlist@, raw_path@), "\n"@),
{
    let text = chars_of(netlist);
    let mut ls = split_lines(text.as_slice());
    let end_idx = find_end(&ls);
    if !contains_lower(text.as_slice(), chars_of(".control").as_slice()) {
        let raw = chars_of(raw_path);
        let mut p: Vec<char> = Vec::new();
        let mut i: usize = 0;
        while i < raw.len()
            invariant
                i <= raw@.len(),
                p@ == slashed(raw@.take(i as int)),
            decreases raw@.len() - i,
        {
            let c = raw[i];
            p.push(if c == '\\' { '/' } else { c });
            assert(raw@.take(i + 1) =~= raw@.take(i as int).push(c));
            assert(p@ =~= slashed(raw@.take(i + 1)));
            i = i + 1;
        }
        assert(raw@.take(raw@.len() as int) =~= raw@);
        let quoted = has_char(p.as_slice(), ' ');
        let mut cmd: Vec<char> = if quoted { chars_of("write '") } else { chars_of("write ") };
        push_all(&mut cmd, p.as_slice());
        if quoted {
            push_all(&mut cmd, chars_of("' all").as_slice());
        } else {
            push_all(&mut cmd, chars_of(" all").as_slice());
        }
        assert(cmd@ == write_command(raw_path@));
        let mut block: Vec<Vec<char>> = Vec::new();
        block.push(chars_of(".control"));
        block.push(chars_of("run"));
        block.push(cmd);
        block.push(chars_of("quit"));
        block.push(chars_of(".endc"));
        assert(views(block@) =~= control_block(raw_path@));
        let ghost before = views(ls@);
        match end_idx {
            Some(idx) => {
                let mut tail = ls.split_off(idx);
                let ghost t = tail@;
                let mut b = block;
                ls.append(&mut b);
                ls.append(&mut tail);
                assert(views(ls@) =~= before.take(idx as int) + control_block(raw_path@) + before.skip(idx as int));
            },
            None => {
                let mut b = block;
                ls.append(&mut b);
                ls.push(chars_of(".end"));
                assert(views(ls@) =~= before + control_block(raw_path@) + seq![".end"@]);
            },
        }
    }
    let out = join_lines(&ls);
    proof {
        reveal_strlit("\n");
        assert("\n"@ =~= seq!['\n']);
    }
    string_of(out.as_slice())
}

} // verus!
