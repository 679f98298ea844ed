//! Which of the files found in an engine's library directories are libraries
//! the user can include, listed once each in order.
use vstd::prelude::*;
use crate::text::{chars_of, lower, same_chars, slice_vec, starts_with, string_of};
use crate::fields::lower_vec;
use crate::text::has_prefix;

verus! {

/// Index of the last `c` in `s`.
pub open spec fn last_index(s: Seq<char>, c: char) -> Option<int>
    decreases s.len(),
{
    if s.len() == 0 {
        None
    } else if s.last() == c {
        Some(s.len() - 1)
    } else {
        last_index(s.drop_last(), c)
    }
}

/// The extension of a file name, as `Path::extension` gives it: what follows
/// the last `.`, unless there is none or it is the name's first character.
pub open spec fn extension(name: Seq<char>) -> Option<Seq<char>> {
    match last_index(name, '.') {
        Some(i) => if 0 < i < name.len() { Some(name.skip(i + 1)) } else { None },
        None => None,
    }
}

pub open spec fn ends_with(s: Seq<char>, p: Seq<char>) -> bool {
    p.len() <= s.len() && s.skip(s.len() - p.len()) == p
}

/// A library file of the engine of family A: `.lib`, `.sub`, `.mod` or `.inc`
/// in any case.
pub open spec fn is_ltspice_library(name: Seq<char>) -> bool {
    match extension(name) {
        Some(e) => {
            let l = lower(e);
            l == "lib"@ || l == "sub"@ || l == "mod"@ || l == "inc"@
        },
        None => false,
    }
}

/// A library or script file of the engine of family B: one of its include
/// extensions in any case, or, without extension, a `spinit…` or `…rc` script.
pub open spec fn is_ngspice_library(name: Seq<char>) -> bool {
    match extension(name) {
        Some(e) => {
            let l = lower(e);
            l == "lib"@ || l == "mod"@ || l == "inc"@ || l == "sub"@ || l == "cir"@ || l == "spi"@
                || l == "sp"@
        },
        None => starts_with(name, "spinit"@) || ends_with(name, "rc"@),
    }
}

/// Strict lexicographic order by character code (the order of `str`).
pub open spec fn lex_lt(a: Seq<char>, b: Seq<char>) -> bool
    decreases a.len(),
{
    if a.len() == 0 {
        b.len() > 0
    } else if b.len() == 0 {
        false
    } else if a[0] != b[0] {
        a[0] < b[0]
    } else {
        lex_lt(a.drop_first(), b.drop_first())
    }
}

pub open spec fn strictly_sorted(s: Seq<Seq<char>>) -> bool {
    forall|i: int, j: int| 0 <= i < j < s.len() ==> lex_lt(#[trigger] s[i], #[trigger] s[j])
}

pub open spec fn string_views(v: Seq<String>) -> Seq<Seq<char>> {
    v.map_values(|s: String| s@)
}

/// `r` lists, in strictly increasing order, exactly the names of `names` that
/// `keep` accepts.
pub open spec fn lists(r: Seq<String>, names: Seq<String>, keep: spec_fn(Seq<char>) -> bool) -> bool {
    &&& strictly_sorted(string_views(r))
    &&& forall|k: int| 0 <= k < r.len() ==> string_views(names).contains(#[trigger] r[k]@) && keep(r[k]@)
    &&& forall|j: int| 0 <= j < names.len() && keep(#[trigger] names[j]@) ==> string_views(r).contains(names[j]@)
}

proof fn lemma_lex_irreflexive(a: Seq<char>)
    ensures
        !lex_lt(a, a),
    decreases a.len(),
{
    if a.len() > 0 {
        lemma_lex_irreflexive(a.drop_first());
    }
}

proof fn lemma_lex_total(a: Seq<char>, b: Seq<char>)
    ensures
        a != b ==> lex_lt(a, b) || lex_lt(b, a),
        !(lex_lt(a, b) && lex_lt(b, a)),
    decreases a.len(),
{
    if a.len() > 0 && b.len() > 0 && a[0] == b[0] {
        lemma_lex_total(a.drop_first(), b.drop_first());
        if a != b {
            assert(a =~= seq![a[0]] + a.drop_first());
            assert(b =~= seq![b[0]] + b.drop_first());
        }
    } else if a.len() == 0 && b.len() == 0 {
        assert(a =~= b);
    }
}

proof fn lemma_lex_transitive(a: Seq<char>, b: Seq<char>, c: Seq<char>)
    requires
        lex_lt(a, b),
        lex_lt(b, c),
    ensures
        lex_lt(a, c),
    decreases a.len(),
{
    if a.len() > 0 && b.len() > 0 && c.len() > 0 && a[0] == b[0] && b[0] == c[0] {
        lemma_lex_transitive(a.drop_first(), b.drop_first(), c.drop_first());
    }
}

fn lex_less(a: &[char], b: &[char]) -> (r: bool)
    ensures
        r == lex_lt(a@, b@),
{
    let mut i: usize = 0;
    assert(a@.skip(0) =~= a@);
    assert(b@.skip(0) =~= b@);
    assert(a@.take(0) =~= b@.take(0));
    while i < a.len() && i < b.len() && a[i] == b[i]
        invariant
            i <= a@.len(),
            i <= b@.len(),
            a@.take(i as int) == b@.take(i as int),
            lex_lt(a@, b@) == lex_lt(a@.skip(i as int), b@.skip(i as int)),
        decreases a@.len() - i,
    {
        proof {
            let (x, y) = (a@.skip(i as int), b@.skip(i as int));
            assert(x.drop_first() =~= a@.skip(i + 1));
            assert(y.drop_first() =~= b@.skip(i + 1));
            assert(a@.take(i + 1) =~= a@.take(i as int).push(a@[i as int]));
            assert(b@.take(i + 1) =~= b@.take(i as int).push(b@[i as int]));
        }
        i = i + 1;
    }
    proof {
        let (x, y) = (a@.skip(i as int), b@.skip(i as int));
        if i < a@.len() {
            assert(x[0] == a@[i as int]);
        }
        if i < b@.len() {
            assert(y[0] == b@[i as int]);
        }
    }
    if i == a.len() {
        i < b.len()
    } else if i == b.len() {
        false
    } else {
        a[i] < b[i]
    }
}

/// Inserts `x` into the strictly sorted `r` unless it is there already.
fn insert_sorted(r: &mut Vec<String>, x: String)
    requires
        strictly_sorted(string_views(old(r)@)),
    ensures
        strictly_sorted(string_views(final(r)@)),
        forall|y: Seq<char>| string_views(final(r)@).contains(y) <==> (string_views(old(r)@).contains(y) || y == x@),
{
    let ghost v = string_views(r@);
    let xc = chars_of(x.as_str());
    let mut k: usize = 0;
    while k < r.len()
        invariant
            k <= r@.len(),
            v == string_views(r@),
            strictly_sorted(v),
            xc@ == x@,
            forall|i: int| 0 <= i < k ==> lex_lt(#[trigger] v[i], x@),
        ensures
            k <= r@.len(),
            forall|i: int| 0 <= i < k ==> lex_lt(#[trigger] v[i], x@),
            k < r@.len() ==> !lex_lt(v[k as int], x@),
        decreases r@.len() - k,
    {
        let rc = chars_of(r[k].as_str());
        assert(rc@ == v[k as int]);
        if !lex_less(rc.as_slice(), xc.as_slice()) {
            break;
        }
        k = k + 1;
    }
    if k < r.len() && same_chars(chars_of(r[k].as_str()).as_slice(), xc.as_slice()) {
        assert(v[k as int] == x@);
        assert forall|y: Seq<char>| v.contains(y) <==> (v.contains(y) || y == x@) by {
            if y == x@ {
                assert(v[k as int] == y);
            }
        }
        return;
    }
    proof {
        if k < v.len() {
            lemma_lex_total(v[k as int], x@);
            assert(lex_lt(x@, v[k as int]));
        }
    }
    let ghost before = r@;
    r.insert(k, x);
    let ghost w = string_views(r@);
    assert(w =~= v.insert(k as int, x@));
    assert forall|i: int, j: int| 0 <= i < j < w.len() implies lex_lt(#[trigger] w[i], #[trigger] w[j]) by {
        if j < k {
            assert(w[i] == v[i] && w[j] == v[j]);
        } else if j == k {
            assert(w[i] == v[i] && w[j] == x@);
        } else {
            assert(w[j] == v[j - 1]);
            if j - 1 > k {
                lemma_lex_transitive(x@, v[k as int], v[j - 1]);
            }
            assert(lex_lt(x@, v[j - 1]));
            if i < k {
                assert(w[i] == v[i]);
                lemma_lex_transitive(w[i], x@, w[j]);
            } else if i == k {
                assert(w[i] == x@);
            } else {
                assert(w[i] == v[i - 1]);
            }
        }
    }
    assert forall|y: Seq<char>| w.contains(y) <==> (v.contains(y) || y == x@) by {
        if v.contains(y) {
            let i = choose|i: int| 0 <= i < v.len() && v[i] == y;
            if i < k {
                assert(w[i] == y);
            } else {
                assert(w[i + 1] == y);
            }
        }
        if y == x@ {
            assert(w[k as int] == y);
        }
        if w.contains(y) {
            let i = choose|i: int| 0 <= i < w.len() && w[i] == y;
            if i < k {
                assert(v[i] == y);
            } else if i > k {
                assert(v[i - 1] == y);
            }
        }
    }
}

fn extension_of(name: &[char]) -> (r: Option<Vec<char>>)
    ensures
        match r {
            Some(e) => extension(name@) == Some(e@),
            None => extension(name@) is None,
        },
{
    let mut i = name.len();
    assert(name@.take(i as int) =~= name@);
    while i > 0 && name[i - 1] != '.'
        invariant
            i <= name@.len(),
            last_index(name@, '.') == last_index(name@.take(i as int), '.'),
        decreases i,
    {
        assert(name@.take(i as int).drop_last() =~= name@.take(i - 1));
        i = i - 1;
    }
    if i == 0 {
        assert(name@.take(0).len() == 0);
        return None;
    }
    assert(name@.take(i as int).last() == '.');
    if i - 1 == 0 {
        return None;
    }
    let e = slice_vec(name, i, name.len());
    assert(e@ =~= name@.skip(i as int));
    Some(e)
}

fn ext_in(e: &[char], choices: &Vec<&str>) -> (r: bool)
    ensures
        r == exists|k: int| 0 <= k < choices@.len() && lower(e@) == choices@[k]@,
{
    let l = lower_vec(e);
    let mut k: usize = 0;
    while k < choices.len()
        invariant
            k <= choices@.len(),
            l@ == lower(e@),
            forall|m: int| 0 <= m < k ==> lower(e@) != choices@[m]@,
        decreases choices@.len() - k,
    {
        if same_chars(l.as_slice(), chars_of(choices[k]).as_slice()) {
            return true;
        }
        k = k + 1;
    }
    false
}

fn is_ltspice_library_exec(name: &[char]) -> (r: bool)
    ensures
        r == is_ltspice_library(name@),
{
    match extension_of(name) {
        Some(e) => {
            let choices = vec!["lib", "sub", "mod", "inc"];
            let r = ext_in(e.as_slice(), &choices);
            proof {
                if lower(e@) == "lib"@ { assert(choices@[0]@ == "lib"@); }
                if lower(e@) == "sub"@ { assert(choices@[1]@ == "sub"@); }
                if lower(e@) == "mod"@ { assert(choices@[2]@ == "mod"@); }
                if lower(e@) == "inc"@ { assert(choices@[3]@ == "inc"@); }
            }
            r
        },
        None => false,
    }
}

fn is_ngspice_library_exec(name: &[char]) -> (r: bool)
    ensures
        r == is_ngspice_library(name@),
{
    match extension_of(name) {
        Some(e) => {
            let choices = vec!["lib", "mod", "inc", "sub", "cir", "spi", "sp"];
            let r = ext_in(e.as_slice(), &choices);
            proof {
                if lower(e@) == "lib"@ { assert(choices@[0]@ == "lib"@); }
                if lower(e@) == "mod"@ { assert(choices@[1]@ == "mod"@); }
                if lower(e@) == "inc"@ { assert(choices@[2]@ == "inc"@); }
                if lower(e@) == "sub"@ { assert(choices@[3]@ == "sub"@); }
                if lower(e@) == "cir"@ { assert(choices@[4]@ == "cir"@); }
                if lower(e@) == "spi"@ { assert(choices@[5]@ == "spi"@); }
                if lower(e@) == "sp"@ { assert(choices@[6]@ == "sp"@); }
            }
            r
        },
        None => {
            let rc = chars_of("rc");
            let ends = if rc.len() <= name.len() {
                let tail = slice_vec(name, name.len() - rc.len(), name.len());
                assert(tail@ =~= name@.skip(name@.len() - rc@.len()));
                same_chars(tail.as_slice(), rc.as_slice())
            } else {
                false
            };
            has_prefix(name, chars_of("spinit").as_slice()) || ends
        },
    }
}

/// Lists the family-A library files among the names of the files found in
/// its library directories: sorted, each name once.
pub fn list_ltspice_libraries(file_names: Vec<String>) -> (r: Vec<String>)
    ensures
        lists(r@, file_names@, |x: Seq<char>| is_ltspice_library(x)),
{
    let mut r: Vec<String> = Vec::new();
    let mut i: usize = 0;
    while i < file_names.len()
        invariant
            i <= file_names@.len(),
            strictly_sorted(string_views(r@)),
            forall|k: int| 0 <= k < r@.len() ==> string_views(file_names@).contains(#[trigger] r@[k]@) && is_ltspice_library(r@[k]@),
            forall|j: int| 0 <= j < i && is_ltspice_library(#[trigger] file_names@[j]@) ==> string_views(r@).contains(file_names@[j]@),
        decreases file_names@.len() - i,
    {
        let name = chars_of(file_names[i].as_str());
        let ghost old_r = string_views(r@);
        let ghost old_rv = r@;
        assert(name@ == file_names@[i as int]@);
        assert(string_views(file_names@)[i as int] == name@);
        if is_ltspice_library_exec(name.as_slice()) {
            insert_sorted(&mut r, string_of(name.as_slice()));
            proof {
                assert forall|k: int| 0 <= k < r@.len() implies string_views(file_names@).contains(#[trigger] r@[k]@) && is_ltspice_library(r@[k]@) by {
                    assert(string_views(r@)[k] == r@[k]@);
                    assert(string_views(r@).contains(r@[k]@));
                    if r@[k]@ != name@ {
                        let m = choose|m: int| 0 <= m < old_r.len() && old_r[m] == r@[k]@;
                        assert(old_rv[m]@ == old_r[m]);
                    }
                }
                assert forall|j: int| 0 <= j < i + 1 && is_ltspice_library(#[trigger] file_names@[j]@) implies string_views(r@).contains(file_names@[j]@) by {
                    if j < i {
                        assert(old_r.contains(file_names@[j]@));
                    }
                }
            }
        }
        i = i + 1;
    }
    r
}

/// Lists the family-B library and script files among the names of the files
/// found in its library directories: sorted, each name once.
pub fn list_ngspice_libraries(file_names: Vec<String>) -> (r: Vec<String>)
    ensures
        lists(r@, file_names@, |x: Seq<char>| is_ngspice_library(x)),
{
    let mut r: Vec<String> = Vec::new();
    let mut i: usize = 0;
    while i < file_names.len()
        invariant
            i <= file_names@.len(),
            strictly_sorted(string_views(r@)),
            forall|k: int| 0 <= k < r@.len() ==> string_views(file_names@).contains(#[trigger] r@[k]@) && is_ngspice_library(r@[k]@),
            forall|j: int| 0 <= j < i && is_ngspice_library(#[trigger] file_names@[j]@) ==> string_views(r@).contains(file_names@[j]@),
        decreases file_names@.len() - i,
    {
        let name = chars_of(file_names[i].as_str());
        let ghost old_r = string_views(r@);
        let ghost old_rv = r@;
        assert(name@ == file_names@[i as int]@);
        assert(string_views(file_names@)[i as int] == name@);
        if is_ngspice_library_exec(name.as_slice()) {
            insert_sorted(&mut r, string_of(name.as_slice()));
            proof {
                assert forall|k: int| 0 <= k < r@.len() implies string_views(file_names@).contains(#[trigger] r@[k]@) && is_ngspice_library(r@[k]@) by {
                    assert(string_views(r@)[k] == r@[k]@);
                    assert(string_views(r@).contains(r@[k]@));
                    if r@[k]@ != name@ {
                        let m = choose|m: int| 0 <= m < old_r.len() && old_r[m] == r@[k]@;
                        assert(old_rv[m]@ == old_r[m]);
                    }
                }
                assert forall|j: int| 0 <= j < i + 1 && is_ngspice_library(#[trigger] file_names@[j]@) implies string_views(r@).contains(file_names@[j]@) by {
                    if j < i {
                        assert(old_r.contains(file_names@[j]@));
                    }
                }
            }
        }
        i = i + 1;
    }
    r
}

/// Lists the library files of the engine of family A.
pub fn list_available_libraries(file_names: Vec<String>) -> (r: Vec<String>)
    ensures
        lists(r@, file_names@, |x: Seq<char>| is_ltspice_library(x)),
{
    list_ltspice_libraries(file_names)
}

} // verus!
