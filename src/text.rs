//! Character-sequence helpers: the pieces of `str` behaviour that the
//! netlist, diagnostic and result-file logic reads text through.
use vstd::prelude::*;
use vstd::std_specs::iter::IteratorSpec;

verus! {

/// Unicode `White_Space`, as `char::is_whitespace` classifies it.
pub open spec fn is_ws(c: char) -> bool {
    c == ' ' || c == '\t' || c == '\n' || c == '\x0B' || c == '\x0C' || c == '\r'
        || c == '\u{85}' || c == '\u{A0}' || c == '\u{1680}'
        || ('\u{2000}' <= c && c <= '\u{200A}') || c == '\u{2028}' || c == '\u{2029}'
        || c == '\u{202F}' || c == '\u{205F}' || c == '\u{3000}'
}

pub fn is_whitespace(c: char) -> (r: bool)
    ensures
        r == is_ws(c),
{
    c == ' ' || c == '\t' || c == '\n' || c == '\x0B' || c == '\x0C' || c == '\r'
        || c == '\u{85}' || c == '\u{A0}' || c == '\u{1680}'
        || ('\u{2000}' <= c && c <= '\u{200A}') || c == '\u{2028}' || c == '\u{2029}'
        || c == '\u{202F}' || c == '\u{205F}' || c == '\u{3000}'
}

/// The sequence without leading white space.
pub open spec fn trim_start(s: Seq<char>) -> Seq<char>
    decreases s.len(),
{
    if s.len() > 0 && is_ws(s[0]) {
        trim_start(s.drop_first())
    } else {
        s
    }
}

/// The sequence without trailing white space.
pub open spec fn trim_end(s: Seq<char>) -> Seq<char>
    decreases s.len(),
{
    if s.len() > 0 && is_ws(s.last()) {
        trim_end(s.drop_last())
    } else {
        s
    }
}

/// The sequence without leading and trailing white space (`str::trim`).
pub open spec fn trim(s: Seq<char>) -> Seq<char> {
    trim_end(trim_start(s))
}

/// ASCII letters folded to lower case, every other character kept.
pub open spec fn lower_char(c: char) -> char {
    if 'A' <= c && c <= 'Z' {
        ((c as u8) + 32u8) as char
    } else {
        c
    }
}

pub open spec fn lower(s: Seq<char>) -> Seq<char> {
    s.map_values(|c: char| lower_char(c))
}

/// `p` occurs in `s` starting at `i`.
pub open spec fn occurs_at(s: Seq<char>, p: Seq<char>, i: int) -> bool {
    0 <= i && i + p.len() <= s.len() && s.subrange(i, i + p.len()) == p
}

/// `p` occurs somewhere in `s` (`str::contains`).
pub open spec fn contains(s: Seq<char>, p: Seq<char>) -> bool {
    exists|i: int| occurs_at(s, p, i)
}

/// `p` is a prefix of `s`.
pub open spec fn starts_with(s: Seq<char>, p: Seq<char>) -> bool {
    p.len() <= s.len() && s.subrange(0, p.len() as int) == p
}

/// Index of the first `c` in `s`, if any.
pub open spec fn first_index(s: Seq<char>, c: char) -> Option<int>
    decreases s.len(),
{
    if s.len() == 0 {
        None
    } else if s[0] == c {
        Some(0)
    } else {
        match first_index(s.drop_first(), c) {
            Some(i) => Some(i + 1),
            None => None,
        }
    }
}

/// A line of `str::lines` loses a carriage return that preceded its line feed.
pub open spec fn strip_cr(s: Seq<char>) -> Seq<char> {
    if s.len() > 0 && s.last() == '\r' {
        s.drop_last()
    } else {
        s
    }
}

/// The lines of `s` as `str::lines` yields them: split at each `\n`, a `\r`
/// before it dropped, and no empty line after a final `\n`.
pub open spec fn lines(s: Seq<char>) -> Seq<Seq<char>>
    decreases s.len(),
{
    if s.len() == 0 {
        seq![]
    } else {
        match first_index(s, '\n') {
            Some(i) => if 0 <= i < s.len() {
                seq![strip_cr(s.subrange(0, i))] + lines(s.subrange(i + 1, s.len() as int))
            } else {
                seq![]
            },
            None => seq![s],
        }
    }
}

/// The lines joined with `sep` between each two (`[String]::join`).
pub open spec fn join(ls: Seq<Seq<char>>, sep: Seq<char>) -> Seq<char>
    decreases ls.len(),
{
    if ls.len() == 0 {
        seq![]
    } else if ls.len() == 1 {
        ls[0]
    } else {
        join(ls.drop_last(), sep) + sep + ls.last()
    }
}

/// The views of a vector of character vectors.
pub open spec fn views(ls: Seq<Vec<char>>) -> Seq<Seq<char>> {
    ls.map_values(|l: Vec<char>| l@)
}

/// Relies on `FromIterator<char>` for `String`: the characters in order.
#[verifier::external_body]
pub fn string_of(v: &[char]) -> (r: String)
    ensures
        r@ == v@,
{
    v.iter().collect()
}

/// What `str::to_lowercase` makes of `s` (full Unicode lower-casing).
pub uninterp spec fn lowercase_of(s: Seq<char>) -> Seq<char>;

/// Relies on `str::to_lowercase`, whose result depends on the characters alone.
#[verifier::external_body]
pub fn to_lowercase(s: &str) -> (r: String)
    ensures
        r@ == lowercase_of(s@),
{
    s.to_lowercase()
}

/// The characters of `s`, in order.
pub fn chars_of(s: &str) -> (r: Vec<char>)
    ensures
        r@ == s@,
{
    broadcast use vstd::string::group_string_axioms;
    let mut r: Vec<char> = Vec::new();
    let n = s.unicode_len();
    let mut it = s.chars();
    let mut i: usize = 0;
    while i < n
        invariant
            n == s@.len(),
            i <= n,
            r@.len() == i,
            r@ + it.remaining() == s@,
        ensures
            r@ + it.remaining() == s@,
            it.remaining().len() == 0,
        decreases n - i,
    {
        match it.next() {
            Some(c) => {
                r.push(c);
            },
            None => {
                assert(it.remaining().len() == 0);
                break;
            },
        }
        i = i + 1;
    }
    assert(it.remaining().len() == 0);
    assert(r@ + it.remaining() =~= r@);
    r
}


pub fn lower_char_exec(c: char) -> (r: char)
    ensures
        r == lower_char(c),
{
    if 'A' <= c && c <= 'Z' {
        ((c as u8) + 32u8) as char
    } else {
        c
    }
}

pub proof fn lemma_first_index(s: Seq<char>, c: char)
    ensures
        match first_index(s, c) {
            Some(k) => 0 <= k < s.len() && s[k] == c && forall|i: int| 0 <= i < k ==> s[i] != c,
            None => forall|i: int| 0 <= i < s.len() ==> s[i] != c,
        },
    decreases s.len(),
{
    if s.len() > 0 && s[0] != c {
        lemma_first_index(s.drop_first(), c);
        match first_index(s.drop_first(), c) {
            Some(k) => {
                assert forall|i: int| 0 <= i < k + 1 implies s[i] != c by {
                    if i > 0 {
                        assert(s[i] == s.drop_first()[i - 1]);
                    }
                }
            },
            None => {
                assert forall|i: int| 0 <= i < s.len() implies s[i] != c by {
                    if i > 0 {
                        assert(s[i] == s.drop_first()[i - 1]);
                    }
                }
            },
        }
    }
}

/// Position of the first `c` at or after `from`, relative to `from`.
pub fn find_char(v: &[char], c: char, from: usize) -> (r: Option<usize>)
    requires
        from <= v@.len(),
    ensures
        match r {
            Some(j) => from <= j < v@.len() && first_index(v@.subrange(from as int, v@.len() as int), c)
                == Some((j - from) as int),
            None => first_index(v@.subrange(from as int, v@.len() as int), c) is None,
        },
{
    let ghost t = v@.subrange(from as int, v@.len() as int);
    let mut j = from;
    while j < v.len()
        invariant
            t == v@.subrange(from as int, v@.len() as int),
            from <= j <= v@.len(),
            forall|i: int| from <= i < j ==> v@[i] != c,
        decreases v@.len() - j,
    {
        if v[j] == c {
            proof {
                lemma_first_index(t, c);
                match first_index(t, c) {
                    Some(k) => {
                        assert(t[(j - from) as int] == c);
                        assert(!(k > j - from));
                        assert(t[k] == v@[k + from]);
                    },
                    None => {
                        assert(t[(j - from) as int] == c);
                    },
                }
            }
            return Some(j);
        }
        j = j + 1;
    }
    proof {
        lemma_first_index(t, c);
        match first_index(t, c) {
            Some(k) => {
                assert(t[k] == v@[k + from]);
            },
            None => {},
        }
    }
    None
}

pub proof fn lemma_trim_start_at(s: Seq<char>, k: int)
    requires
        0 <= k <= s.len(),
        forall|i: int| 0 <= i < k ==> is_ws(s[i]),
        k == s.len() || !is_ws(s[k]),
    ensures
        trim_start(s) == s.subrange(k, s.len() as int),
    decreases k,
{
    if k == 0 {
        assert(s.subrange(0, s.len() as int) =~= s);
    } else {
        let t = s.drop_first();
        assert forall|i: int| 0 <= i < k - 1 implies is_ws(t[i]) by {
            assert(t[i] == s[i + 1]);
        }
        lemma_trim_start_at(t, k - 1);
        assert(t.subrange(k - 1, t.len() as int) =~= s.subrange(k, s.len() as int));
    }
}

proof fn lemma_trim_end_at(s: Seq<char>, k: int)
    requires
        0 <= k <= s.len(),
        forall|i: int| k <= i < s.len() ==> is_ws(s[i]),
        k == 0 || !is_ws(s[k - 1]),
    ensures
        trim_end(s) == s.subrange(0, k),
    decreases s.len() - k,
{
    if k == s.len() {
        assert(s.subrange(0, s.len() as int) =~= s);
    } else {
        let t = s.drop_last();
        assert forall|i: int| k <= i < t.len() implies is_ws(t[i]) by {
            assert(t[i] == s[i]);
        }
        lemma_trim_end_at(t, k);
        assert(t.subrange(0, k) =~= s.subrange(0, k));
    }
}

/// Bounds `(a, b)` with `v[a..b]` the trimmed form of `v[lo..hi]`.
pub fn trim_bounds(v: &[char], lo: usize, hi: usize) -> (r: (usize, usize))
    requires
        lo <= hi <= v@.len(),
    ensures
        lo <= r.0 <= r.1 <= hi,
        v@.subrange(r.0 as int, r.1 as int) == trim(v@.subrange(lo as int, hi as int)),
{
    let mut a = lo;
    while a < hi && is_whitespace(v[a])
        invariant
            lo <= a <= hi <= v@.len(),
            forall|i: int| lo <= i < a ==> is_ws(v@[i]),
        decreases hi - a,
    {
        a = a + 1;
    }
    let mut b = hi;
    while b > a && is_whitespace(v[b - 1])
        invariant
            lo <= a <= b <= hi <= v@.len(),
            forall|i: int| b <= i < hi ==> is_ws(v@[i]),
        decreases b - a,
    {
        b = b - 1;
    }
    proof {
        let s = v@.subrange(lo as int, hi as int);
        assert forall|i: int| 0 <= i < a - lo implies is_ws(s[i]) by {
            assert(s[i] == v@[i + lo]);
        }
        lemma_trim_start_at(s, a - lo);
        let t = s.subrange(a - lo, s.len() as int);
        assert(t =~= v@.subrange(a as int, hi as int));
        assert forall|i: int| b - a <= i < t.len() implies is_ws(t[i]) by {
            assert(t[i] == v@[i + a]);
        }
        lemma_trim_end_at(t, b - a);
        assert(t.subrange(0, b - a) =~= v@.subrange(a as int, b as int));
    }
    (a, b)
}

/// A copy of `v[lo..hi]`.
pub fn slice_vec(v: &[char], lo: usize, hi: usize) -> (r: Vec<char>)
    requires
        lo <= hi <= v@.len(),
    ensures
        r@ == v@.subrange(lo as int, hi as int),
{
    let mut r: Vec<char> = Vec::new();
    let mut i = lo;
    while i < hi
        invariant
            lo <= i <= hi <= v@.len(),
            r@ == v@.subrange(lo as int, i as int),
        decreases hi - i,
    {
        r.push(v[i]);
        proof {
            assert(v@.subrange(lo as int, i + 1) =~= v@.subrange(lo as int, i as int).push(v@[i as int]));
        }
        i = i + 1;
    }
    r
}

/// The trimmed copy of `v` (`str::trim`).
pub fn trim_vec(v: &[char]) -> (r: Vec<char>)
    ensures
        r@ == trim(v@),
{
    let (a, b) = trim_bounds(v, 0, v.len());
    assert(v@.subrange(0, v@.len() as int) =~= v@);
    slice_vec(v, a, b)
}

/// The lines of `v`, as `str::lines` gives them.
pub fn split_lines(v: &[char]) -> (r: Vec<Vec<char>>)
    ensures
        views(r@) == lines(v@),
{
    let mut r: Vec<Vec<char>> = Vec::new();
    let mut start: usize = 0;
    let n = v.len();
    proof {
        assert(v@.subrange(0, n as int) =~= v@);
        assert(views(r@) =~= Seq::<Seq<char>>::empty());
        assert(Seq::<Seq<char>>::empty() + lines(v@) =~= lines(v@));
    }
    while start < n
        invariant
            n == v@.len(),
            start <= n,
            views(r@) + lines(v@.subrange(start as int, n as int)) == lines(v@),
        decreases n - start,
    {
        let ghost rest = v@.subrange(start as int, n as int);
        match find_char(v, '\n', start) {
            Some(j) => {
                let mut line = slice_vec(v, start, j);
                if j > start && v[j - 1] == '\r' {
                    line = slice_vec(v, start, j - 1);
                }
                proof {
                    let k = (j - start) as int;
                    assert(rest.subrange(0, k) =~= v@.subrange(start as int, j as int));
                    assert(rest.subrange(k + 1, rest.len() as int) =~= v@.subrange(j + 1, n as int));
                    assert(lines(rest) == seq![strip_cr(rest.subrange(0, k))] + lines(rest.subrange(k + 1, rest.len() as int)));
                    assert(line@ == strip_cr(rest.subrange(0, k)));
                }
                let ghost before = r@;
                r.push(line);
                proof {
                    assert(views(r@) =~= views(before).push(line@));
                    assert(views(r@) + lines(v@.subrange(j + 1, n as int))
                        =~= views(before) + lines(rest));
                }
                start = j + 1;
            },
            None => {
                let line = slice_vec(v, start, n);
                let ghost before = r@;
                r.push(line);
                proof {
                    assert(lines(rest) == seq![rest]);
                    assert(views(r@) =~= views(before).push(line@));
                    assert(lines(v@.subrange(n as int, n as int)) =~= Seq::<Seq<char>>::empty());
                    assert(views(r@) + lines(v@.subrange(n as int, n as int))
                        =~= views(before) + lines(rest));
                }
                start = n;
            },
        }
    }
    proof {
        assert(lines(v@.subrange(n as int, n as int)) =~= Seq::<Seq<char>>::empty());
        assert(views(r@) + Seq::<Seq<char>>::empty() =~= views(r@));
    }
    r
}

/// Whether `p` occurs in `v` at `i`, letters of `v` folded to lower case.
fn occurs_lower_at(v: &[char], p: &[char], i: usize) -> (r: bool)
    requires
        i + p@.len() <= v@.len(),
    ensures
        r == occurs_at(lower(v@), p@, i as int),
{
    let n = v.len();
    let mut k: usize = 0;
    while k < p.len()
        invariant
            n == v@.len(),
            i + p@.len() <= v@.len(),
            k <= p@.len(),
            forall|m: int| 0 <= m < k ==> lower_char(v@[i + m]) == p@[m],
        decreases p@.len() - k,
    {
        if lower_char_exec(v[i + k]) != p[k] {
            proof {
                assert(lower(v@).subrange(i as int, i + p@.len())[k as int] == lower_char(v@[i + k]));
            }
            return false;
        }
        k = k + 1;
    }
    proof {
        assert(lower(v@).subrange(i as int, i + p@.len()) =~= p@);
    }
    true
}

/// Whether `p` occurs in `v` with the letters of `v` folded to lower case:
/// a case-insensitive search for a lower-case ASCII pattern.
pub fn contains_lower(v: &[char], p: &[char]) -> (r: bool)
    ensures
        r == contains(lower(v@), p@),
{
    if p.len() > v.len() {
        proof {
            assert forall|i: int| !occurs_at(lower(v@), p@, i) by {}
        }
        return false;
    }
    let mut i: usize = 0;
    let last = v.len() - p.len();
    loop
        invariant
            last == v@.len() - p@.len(),
            p@.len() <= v@.len(),
            i <= last,
            forall|m: int| 0 <= m < i ==> !occurs_at(lower(v@), p@, m),
        ensures
            forall|m: int| 0 <= m <= last ==> !occurs_at(lower(v@), p@, m),
        decreases last - i,
    {
        if occurs_lower_at(v, p, i) {
            return true;
        }
        if i == last {
            break;
        }
        i = i + 1;
    }
    proof {
        assert forall|m: int| !occurs_at(lower(v@), p@, m) by {
            if 0 <= m <= last {
            }
        }
    }
    false
}

/// Appends the characters of `src` to `dst`.
pub fn push_all(dst: &mut Vec<char>, src: &[char])
    ensures
        final(dst)@ == old(dst)@ + src@,
{
    let mut i: usize = 0;
    while i < src.len()
        invariant
            i <= src@.len(),
            dst@ == old(dst)@ + src@.subrange(0, i as int),
        decreases src@.len() - i,
    {
        dst.push(src[i]);
        proof {
            assert(src@.subrange(0, i + 1) =~= src@.subrange(0, i as int).push(src@[i as int]));
        }
        i = i + 1;
    }
    assert(src@.subrange(0, src@.len() as int) =~= src@);
}

/// The lines joined with line feeds.
pub fn join_lines(ls: &Vec<Vec<char>>) -> (r: Vec<char>)
    ensures
        r@ == join(views(ls@), seq!['\n']),
{
    let mut r: Vec<char> = Vec::new();
    let mut k: usize = 0;
    while k < ls.len()
        invariant
            k <= ls@.len(),
            r@ == join(views(ls@).take(k as int), seq!['\n']),
        decreases ls@.len() - k,
    {
        proof {
            let t = views(ls@).take(k as int + 1);
            assert(t.drop_last() =~= views(ls@).take(k as int));
            if k == 0 {
                assert(views(ls@).take(0) =~= Seq::<Seq<char>>::empty());
            }
        }
        if k > 0 {
            r.push('\n');
        }
        push_all(&mut r, ls[k].as_slice());
        proof {
            let t = views(ls@).take(k as int + 1);
            assert(t.last() == ls@[k as int]@);
            if k == 0 {
                assert(r@ =~= t[0]);
            } else {
                assert(r@ =~= join(t.drop_last(), seq!['\n']) + seq!['\n'] + t.last());
            }
        }
        k = k + 1;
    }
    assert(views(ls@).take(ls@.len() as int) =~= views(ls@));
    r
}

/// Whether `p` is a prefix of `v`.
pub fn has_prefix(v: &[char], p: &[char]) -> (r: bool)
    ensures
        r == starts_with(v@, p@),
{
    if p.len() > v.len() {
        return false;
    }
    let head = slice_vec(v, 0, p.len());
    same_chars(head.as_slice(), p)
}

/// Whether `v`, letters folded to lower case, equals `p`.
pub fn equals_lower(v: &[char], p: &[char]) -> (r: bool)
    ensures
        r == (lower(v@) == p@),
{
    if v.len() != p.len() {
        return false;
    }
    let r = occurs_lower_at(v, p, 0);
    assert(lower(v@).subrange(0, p@.len() as int) =~= lower(v@));
    r
}

/// Whether `a` and `b` hold the same characters.
pub fn same_chars(a: &[char], b: &[char]) -> (r: bool)
    ensures
        r == (a@ == b@),
{
    if a.len() != b.len() {
        return false;
    }
    let mut i: usize = 0;
    while i < a.len()
        invariant
            a@.len() == b@.len(),
            i <= a@.len(),
            forall|m: int| 0 <= m < i ==> a@[m] == b@[m],
        decreases a@.len() - i,
    {
        if a[i] != b[i] {
            return false;
        }
        i = i + 1;
    }
    assert(a@ =~= b@);
    true
}

/// Whether `c` occurs in `v`.
pub fn has_char(v: &[char], c: char) -> (r: bool)
    ensures
        r == (exists|i: int| 0 <= i < v@.len() && v@[i] == c),
{
    let mut i: usize = 0;
    while i < v.len()
        invariant
            i <= v@.len(),
            forall|m: int| 0 <= m < i ==> v@[m] != c,
        decreases v@.len() - i,
    {
        if v[i] == c {
            return true;
        }
        i = i + 1;
    }
    false
}

/// A join of two or more lines is its first line, the separator, and the join
/// of the rest.
pub proof fn lemma_join_front(ls: Seq<Seq<char>>, sep: Seq<char>)
    requires
        ls.len() >= 2,
    ensures
        join(ls, sep) == ls[0] + sep + join(ls.drop_first(), sep),
    decreases ls.len(),
{
    if ls.len() == 2 {
        assert(ls.drop_last().len() == 1);
        assert(ls.drop_first().len() == 1);
        assert(ls.drop_first()[0] == ls.last());
        assert(join(ls.drop_last(), sep) == ls.drop_last()[0]);
        assert(ls.drop_last()[0] == ls[0]);
        assert(join(ls.drop_first(), sep) == ls.drop_first()[0]);
    } else {
        let dl = ls.drop_last();
        lemma_join_front(dl, sep);
        assert(dl.drop_first() =~= ls.drop_first().drop_last());
        assert(ls.drop_first().last() == ls.last());
        assert(dl[0] == ls[0]);
        assert(join(ls.drop_first(), sep) == join(ls.drop_first().drop_last(), sep) + sep + ls.drop_first().last());
        assert(join(ls, sep) =~= ls[0] + sep + join(ls.drop_first(), sep));
    }
}

/// A line without a line feed, then a line feed, then more text.
pub proof fn lemma_lines_split(a: Seq<char>, b: Seq<char>)
    requires
        !a.contains('\n'),
    ensures
        lines(a + seq!['\n'] + b) == seq![strip_cr(a)] + lines(b),
{
    let s = a + seq!['\n'] + b;
    lemma_first_index(s, '\n');
    assert(s[a.len() as int] == '\n');
    match first_index(s, '\n') {
        Some(k) => {
            if k < a.len() {
                assert(s[k] == a[k]);
                assert(a.contains('\n'));
            }
            assert(k == a.len());
        },
        None => {
            assert(s[a.len() as int] != '\n');
        },
    }
    assert(s.subrange(0, a.len() as int) =~= a);
    assert(s.subrange(a.len() as int + 1, s.len() as int) =~= b);
}

/// A non-empty line without a line feed is one line.
pub proof fn lemma_lines_single(a: Seq<char>)
    requires
        !a.contains('\n'),
        a.len() > 0,
    ensures
        lines(a) == seq![a],
{
    lemma_first_index(a, '\n');
    match first_index(a, '\n') {
        Some(k) => {
            assert(a.contains('\n'));
        },
        None => {},
    }
}

/// Each non-empty line of `ls` is again a line of their join, perhaps without a
/// final carriage return.
pub proof fn lemma_lines_of_join(ls: Seq<Seq<char>>, k: int)
    requires
        forall|i: int| 0 <= i < ls.len() ==> !(#[trigger] ls[i]).contains('\n'),
        0 <= k < ls.len(),
        ls[k].len() > 0,
    ensures
        lines(join(ls, seq!['\n'])).contains(strip_cr(ls[k])) || lines(join(ls, seq!['\n'])).contains(ls[k]),
    decreases ls.len(),
{
    let sep = seq!['\n'];
    if ls.len() == 1 {
        lemma_lines_single(ls[0]);
        assert(lines(join(ls, sep))[0] == ls[k]);
    } else {
        let rest = ls.drop_first();
        lemma_join_front(ls, sep);
        assert(!ls[0].contains('\n'));
        lemma_lines_split(ls[0], join(rest, sep));
        let whole = lines(join(ls, sep));
        assert(whole == seq![strip_cr(ls[0])] + lines(join(rest, sep)));
        if k == 0 {
            assert(whole[0] == strip_cr(ls[0]));
        } else {
            assert forall|i: int| 0 <= i < rest.len() implies !(#[trigger] rest[i]).contains('\n') by {
                assert(rest[i] == ls[i + 1]);
            }
            assert(rest[k - 1] == ls[k]);
            lemma_lines_of_join(rest, k - 1);
            let inner = lines(join(rest, sep));
            if inner.contains(strip_cr(ls[k])) {
                let j = choose|j: int| 0 <= j < inner.len() && inner[j] == strip_cr(ls[k]);
                assert(whole[j + 1] == inner[j]);
            } else {
                let j = choose|j: int| 0 <= j < inner.len() && inner[j] == ls[k];
                assert(whole[j + 1] == inner[j]);
            }
        }
    }
}

/// No line of `lines(s)` holds a line feed.
pub proof fn lemma_lines_no_newline(s: Seq<char>)
    ensures
        forall|j: int| 0 <= j < lines(s).len() ==> !(#[trigger] lines(s)[j]).contains('\n'),
    decreases s.len(),
{
    if s.len() > 0 {
        lemma_first_index(s, '\n');
        match first_index(s, '\n') {
            Some(i) => {
                let head = s.subrange(0, i);
                let rest = s.subrange(i + 1, s.len() as int);
                lemma_lines_no_newline(rest);
                assert(!head.contains('\n')) by {
                    if head.contains('\n') {
                        let m = choose|m: int| 0 <= m < head.len() && head[m] == '\n';
                        assert(s[m] == '\n');
                    }
                }
                assert(!strip_cr(head).contains('\n')) by {
                    if strip_cr(head).contains('\n') {
                        let m = choose|m: int| 0 <= m < strip_cr(head).len() && strip_cr(head)[m] == '\n';
                        assert(head[m] == '\n');
                    }
                }
                let ls = lines(s);
                assert(ls == seq![strip_cr(head)] + lines(rest));
                assert forall|j: int| 0 <= j < ls.len() implies !(#[trigger] ls[j]).contains('\n') by {
                    if j > 0 {
                        assert(ls[j] == lines(rest)[j - 1]);
                    }
                }
            },
            None => {
                assert(!s.contains('\n'));
            },
        }
    }
}

proof fn lemma_trim_start_push(y: Seq<char>, c: char)
    ensures
        trim_start(y.push(c)) == (if trim_start(y).len() > 0 {
            trim_start(y).push(c)
        } else {
            trim_start(seq![c])
        }),
    decreases y.len(),
{
    if y.len() == 0 {
        assert(y.push(c) =~= seq![c]);
    } else if is_ws(y[0]) {
        assert(y.push(c).drop_first() =~= y.drop_first().push(c));
        lemma_trim_start_push(y.drop_first(), c);
    } else {
        assert(y.push(c)[0] == y[0]);
    }
}

/// Dropping a final carriage return does not change the trimmed line.
pub proof fn lemma_trim_strip_cr(x: Seq<char>)
    ensures
        trim(strip_cr(x)) == trim(x),
{
    if x.len() > 0 && x.last() == '\r' {
        let y = x.drop_last();
        assert(y.push('\r') =~= x);
        lemma_trim_start_push(y, '\r');
        let t = trim_start(y);
        if t.len() > 0 {
            assert(t.push('\r').drop_last() =~= t);
            assert(trim_end(t.push('\r')) == trim_end(t));
        } else {
            assert(seq!['\r'].drop_first() =~= Seq::<char>::empty());
            assert(trim_start(seq!['\r']) == trim_start(Seq::<char>::empty()));
        }
    }
}

/// A pattern without carriage return found in a line is still found once a
/// final carriage return is dropped.
pub proof fn lemma_contains_strip_cr(x: Seq<char>, pat: Seq<char>)
    requires
        pat.len() > 0,
        !pat.contains('\r'),
        contains(lower(x), pat),
    ensures
        contains(lower(strip_cr(x)), pat),
{
    if x.len() > 0 && x.last() == '\r' {
        let i = choose|i: int| occurs_at(lower(x), pat, i);
        if i + pat.len() == x.len() {
            assert(lower(x).subrange(i, i + pat.len())[pat.len() - 1] == lower(x)[x.len() - 1]);
            assert(lower_char('\r') == '\r');
            assert(pat[pat.len() - 1] == '\r');
            assert(pat.contains('\r'));
        }
        assert(lower(strip_cr(x)).subrange(i, i + pat.len()) =~= lower(x).subrange(i, i + pat.len()));
        assert(occurs_at(lower(strip_cr(x)), pat, i));
    }
}

} // verus!
