//! Field-level text parsing for result-file headers and values: unsigned
//! integers, separators, white-space tokens and decimal float literals.
use vstd::prelude::*;
use crate::text::{
    lemma_trim_start_at, chars_of, equals_lower, find_char, first_index, is_whitespace, is_ws, lower, lower_char,
    lower_char_exec, slice_vec, trim_start, views,
};

verus! {

pub open spec fn is_digit(c: char) -> bool {
    '0' <= c && c <= '9'
}

pub open spec fn all_digits(s: Seq<char>) -> bool {
    forall|i: int| 0 <= i < s.len() ==> is_digit(#[trigger] s[i])
}

/// The value of a run of decimal digits.
pub open spec fn digits_value(s: Seq<char>) -> nat
    decreases s.len(),
{
    if s.len() == 0 {
        0
    } else {
        digits_value(s.drop_last()) * 10 + ((s.last() as u32) - ('0' as u32)) as nat
    }
}

/// What `str::parse::<usize>` gives: an optional `+`, then one or more digits,
/// whose value fits.
pub open spec fn parsed_usize(s: Seq<char>) -> Option<usize> {
    let d = if s.len() > 0 && s[0] == '+' { s.drop_first() } else { s };
    if d.len() > 0 && all_digits(d) && digits_value(d) <= usize::MAX {
        Some(digits_value(d) as usize)
    } else {
        None
    }
}

/// Parses an unsigned integer as `str::parse::<usize>` does.
pub fn parse_usize(s: &[char]) -> (r: Option<usize>)
    ensures
        r == parsed_usize(s@),
{
    let start: usize = if s.len() > 0 && s[0] == '+' { 1 } else { 0 };
    let ghost d = s@.subrange(start as int, s@.len() as int);
    proof {
        if start == 1 {
            assert(d =~= s@.drop_first());
        } else {
            assert(d =~= s@);
        }
    }
    if start >= s.len() {
        return None;
    }
    let mut v: usize = 0;
    let mut i = start;
    while i < s.len()
        invariant
            start <= i <= s@.len(),
            d == s@.subrange(start as int, s@.len() as int),
            d == (if s@.len() > 0 && s@[0] == '+' { s@.drop_first() } else { s@ }),
            all_digits(s@.subrange(start as int, i as int)),
            v as nat == digits_value(s@.subrange(start as int, i as int)),
        decreases s@.len() - i,
    {
        let c = s[i];
        let ghost pre = s@.subrange(start as int, i as int);
        let ghost next = s@.subrange(start as int, i + 1);
        assert(next.drop_last() =~= pre);
        assert(next.last() == c);
        if !('0' <= c && c <= '9') {
            assert(d[(i - start) as int] == c);
            assert(!is_digit(d[(i - start) as int]));
            return None;
        }
        let digit = (c as u32 - '0' as u32) as usize;
        assert(next =~= pre.push(c));
        assert forall|m: int| 0 <= m < next.len() implies is_digit(#[trigger] next[m]) by {
            if m < pre.len() {
                assert(next[m] == pre[m]);
            }
        }
        if v > (usize::MAX - digit) / 10 {
            proof {
                assert(v * 10 + digit > usize::MAX) by (nonlinear_arith)
                    requires
                        v > (usize::MAX - digit) / 10,
                        digit <= 9,
                ;
                assert(digits_value(next) == digits_value(pre) * 10 + digit);
                lemma_digits_value_grows(d, next.len() as int);
                assert(d.subrange(0, next.len() as int) =~= next);
            }
            return None;
        }
        v = v * 10 + digit;
        i = i + 1;
    }
    assert(s@.subrange(start as int, s@.len() as int) =~= d);
    Some(v)
}

/// A longer run of digits is worth at least as much as its prefix.
proof fn lemma_digits_value_grows(d: Seq<char>, k: int)
    requires
        0 <= k <= d.len(),
    ensures
        all_digits(d) ==> digits_value(d.subrange(0, k)) <= digits_value(d),
    decreases d.len() - k,
{
    if k < d.len() {
        lemma_digits_value_grows(d, k + 1);
        let a = d.subrange(0, k + 1);
        assert(a.drop_last() =~= d.subrange(0, k));
        if all_digits(d) {
            assert(is_digit(d[k]));
            assert(a.last() == d[k]);
        }
    } else {
        assert(d.subrange(0, k) =~= d);
    }
}

/// The pieces of `s` between occurrences of `c` (`str::split` on a character).
pub open spec fn split(s: Seq<char>, c: char) -> Seq<Seq<char>>
    decreases s.len(),
{
    match first_index(s, c) {
        Some(i) => if 0 <= i < s.len() {
            seq![s.take(i)] + split(s.skip(i + 1), c)
        } else {
            seq![]
        },
        None => seq![s],
    }
}

/// Splits `v` at each `c`.
pub fn split_at_char(v: &[char], c: char) -> (r: Vec<Vec<char>>)
    ensures
        views(r@) == split(v@, c),
{
    let mut r: Vec<Vec<char>> = Vec::new();
    let mut start: usize = 0;
    let n = v.len();
    proof {
        assert(v@.subrange(0, n as int) =~= v@);
        assert(views(r@) =~= Seq::<Seq<char>>::empty());
        assert(Seq::<Seq<char>>::empty() + split(v@, c) =~= split(v@, c));
    }
    loop
        invariant
            n == v@.len(),
            start <= n,
            views(r@) + split(v@.subrange(start as int, n as int), c) == split(v@, c),
        decreases n - start,
    {
        let ghost rest = v@.subrange(start as int, n as int);
        let ghost before = r@;
        match find_char(v, c, start) {
            Some(j) => {
                let piece = slice_vec(v, start, j);
                let ghost k = (j - start) as int;
                assert(rest.take(k) =~= piece@);
                assert(rest.skip(k + 1) =~= v@.subrange(j + 1, n as int));
                r.push(piece);
                assert(views(r@) =~= views(before).push(piece@));
                assert(views(r@) + split(v@.subrange(j + 1, n as int), c) =~= views(before) + split(rest, c));
                start = j + 1;
            },
            None => {
                let piece = slice_vec(v, start, n);
                r.push(piece);
                assert(views(r@) =~= views(before).push(piece@));
                assert(views(r@) =~= views(before) + split(rest, c));
                return r;
            },
        }
    }
}

/// Index of the first white-space character of `s`, if any.
pub open spec fn first_ws(s: Seq<char>) -> Option<int>
    decreases s.len(),
{
    if s.len() == 0 {
        None
    } else if is_ws(s[0]) {
        Some(0)
    } else {
        match first_ws(s.drop_first()) {
            Some(i) => Some(i + 1),
            None => None,
        }
    }
}

/// The white-space separated tokens of `s` (`str::split_whitespace`).
pub open spec fn tokens(s: Seq<char>) -> Seq<Seq<char>>
    decreases s.len(),
{
    let t = trim_start(s);
    if t.len() == 0 {
        seq![]
    } else if t.len() < s.len() {
        tokens(t)
    } else {
        match first_ws(s) {
            Some(i) => if 0 < i < s.len() {
                seq![s.take(i)] + tokens(s.skip(i))
            } else {
                seq![s]
            },
            None => seq![s],
        }
    }
}

proof fn lemma_trim_start_shape(s: Seq<char>)
    ensures
        trim_start(s).len() <= s.len(),
        trim_start(s) == s.skip(s.len() - trim_start(s).len()),
        forall|i: int| 0 <= i < s.len() - trim_start(s).len() ==> is_ws(s[i]),
        trim_start(s).len() > 0 ==> !is_ws(trim_start(s)[0]),
    decreases s.len(),
{
    if s.len() > 0 && is_ws(s[0]) {
        lemma_trim_start_shape(s.drop_first());
        assert(s.drop_first().skip(s.drop_first().len() - trim_start(s).len()) =~= s.skip(
            s.len() - trim_start(s).len(),
        ));
        assert forall|i: int| 0 < i < s.len() - trim_start(s).len() implies is_ws(s[i]) by {
            assert(s[i] == s.drop_first()[i - 1]);
        }
    } else {
        assert(s.skip(0) =~= s);
    }
}

proof fn lemma_first_ws(s: Seq<char>)
    ensures
        match first_ws(s) {
            Some(k) => 0 <= k < s.len() && is_ws(s[k]) && forall|i: int| 0 <= i < k ==> !is_ws(s[i]),
            None => forall|i: int| 0 <= i < s.len() ==> !is_ws(s[i]),
        },
    decreases s.len(),
{
    if s.len() > 0 && !is_ws(s[0]) {
        lemma_first_ws(s.drop_first());
        assert forall|i: int| 0 < i < s.len() implies s[i] == s.drop_first()[i - 1] by {}
    }
}

proof fn lemma_first_ws_is(s: Seq<char>, k: int)
    requires
        0 <= k <= s.len(),
        forall|i: int| 0 <= i < k ==> !is_ws(s[i]),
        k < s.len() ==> is_ws(s[k]),
    ensures
        k < s.len() ==> first_ws(s) == Some(k),
        k == s.len() ==> first_ws(s) is None,
{
    lemma_first_ws(s);
    match first_ws(s) {
        Some(j) => {
            if j < k {
                assert(!is_ws(s[j]));
            }
            if j > k && k < s.len() {
                assert(is_ws(s[k]));
            }
        },
        None => {
            if k < s.len() {
                assert(is_ws(s[k]));
            }
        },
    }
}

/// One step of `tokens`: skip white space up to `a`, take the token up to `b`.
proof fn lemma_tokens_step(s: Seq<char>, a: int, b: int)
    requires
        0 <= a <= b <= s.len(),
        forall|i: int| 0 <= i < a ==> is_ws(s[i]),
        a < s.len() ==> !is_ws(s[a]),
        forall|i: int| a <= i < b ==> !is_ws(s[i]),
        b < s.len() ==> is_ws(s[b]),
        a < s.len() ==> a < b,
    ensures
        a == s.len() ==> tokens(s) == Seq::<Seq<char>>::empty(),
        a < s.len() ==> tokens(s) == seq![s.subrange(a, b)] + tokens(s.subrange(b, s.len() as int)),
{
    lemma_trim_start_at(s, a);
    let t = s.subrange(a, s.len() as int);
    if a < s.len() {
        lemma_trim_start_at(t, 0);
        assert(t.subrange(0, t.len() as int) =~= t);
        if a == 0 {
            assert(t =~= s);
        } else {
            assert(tokens(s) == tokens(t));
        }
        lemma_first_ws_is(t, b - a);
        if b < s.len() {
            assert(tokens(t) == seq![t.take(b - a)] + tokens(t.skip(b - a)));
        } else {
            assert(tokens(t) == seq![t]);
        }
        assert(t.take(b - a) =~= s.subrange(a, b));
        assert(t.skip(b - a) =~= s.subrange(b, s.len() as int));
        if b == s.len() {
            assert(t =~= s.subrange(a, b));
            let e = s.subrange(b, s.len() as int);
            assert(e.len() == 0);
            assert(trim_start(e).len() == 0);
            assert(tokens(e) =~= Seq::<Seq<char>>::empty());
            assert(seq![t] + Seq::<Seq<char>>::empty() =~= seq![t]);
        }
    }
}

/// The white-space separated tokens of `v`.
pub fn split_whitespace(v: &[char]) -> (r: Vec<Vec<char>>)
    ensures
        views(r@) == tokens(v@),
{
    let mut r: Vec<Vec<char>> = Vec::new();
    let n = v.len();
    let mut start: usize = 0;
    proof {
        assert(v@.subrange(0, n as int) =~= v@);
        assert(views(r@) =~= Seq::<Seq<char>>::empty());
        assert(Seq::<Seq<char>>::empty() + tokens(v@) =~= tokens(v@));
    }
    while start < n
        invariant
            n == v@.len(),
            start <= n,
            views(r@) + tokens(v@.subrange(start as int, n as int)) == tokens(v@),
        decreases n - start,
    {
        let ghost rest = v@.subrange(start as int, n as int);
        let mut a = start;
        while a < n && is_whitespace(v[a])
            invariant
                start <= a <= n,
                n == v@.len(),
                forall|i: int| start <= i < a ==> is_ws(v@[i]),
            decreases n - a,
        {
            a = a + 1;
        }
        let mut b = a;
        while b < n && !is_whitespace(v[b])
            invariant
                a <= b <= n,
                n == v@.len(),
                forall|i: int| a <= i < b ==> !is_ws(v@[i]),
            decreases n - b,
        {
            b = b + 1;
        }
        proof {
            assert forall|i: int| 0 <= i < a - start implies is_ws(rest[i]) by {
                assert(rest[i] == v@[start + i]);
            }
            assert forall|i: int| a - start <= i < b - start implies !is_ws(rest[i]) by {
                assert(rest[i] == v@[start + i]);
            }
            if a < n {
                assert(rest[a - start] == v@[a as int]);
            }
            if b < n {
                assert(rest[b - start] == v@[b as int]);
            }
            lemma_tokens_step(rest, a - start, b - start);
            assert(rest.subrange(b - start, rest.len() as int) =~= v@.subrange(b as int, n as int));
            assert(rest.subrange(a - start, b - start) =~= v@.subrange(a as int, b as int));
        }
        if a == n {
            proof {
                assert(tokens(v@.subrange(n as int, n as int)) =~= Seq::<Seq<char>>::empty()) by {
                    lemma_tokens_step(v@.subrange(n as int, n as int), 0, 0);
                }
                assert(views(r@) + Seq::<Seq<char>>::empty() =~= views(r@));
            }
            start = n;
        } else {
            let piece = slice_vec(v, a, b);
            let ghost before = r@;
            r.push(piece);
            assert(views(r@) =~= views(before).push(piece@));
            assert(views(r@) + tokens(v@.subrange(b as int, n as int)) =~= views(before) + tokens(rest));
            start = b;
        }
    }
    proof {
        lemma_tokens_step(v@.subrange(n as int, n as int), 0, 0);
        assert(views(r@) + Seq::<Seq<char>>::empty() =~= views(r@));
    }
    r
}

/// `s` without one leading sign character.
pub open spec fn unsigned_part(s: Seq<char>) -> Seq<char> {
    if s.len() > 0 && (s[0] == '+' || s[0] == '-') {
        s.drop_first()
    } else {
        s
    }
}

/// Digits with at most one decimal point, and at least one digit.
pub open spec fn is_mantissa(m: Seq<char>) -> bool {
    match first_index(m, '.') {
        Some(i) => m.len() >= 2 && all_digits(m.take(i)) && all_digits(m.skip(i + 1)),
        None => m.len() > 0 && all_digits(m),
    }
}

/// An optionally signed, non-empty run of digits.
pub open spec fn is_exponent(x: Seq<char>) -> bool {
    unsigned_part(x).len() > 0 && all_digits(unsigned_part(x))
}

/// A decimal floating-point literal in the grammar that `f64::from_str`
/// documents: an optional sign, then `inf`, `infinity` or `nan` in any case, or
/// a mantissa with an optional exponent introduced by `e` or `E`.
pub open spec fn is_float_literal(s: Seq<char>) -> bool {
    let u = unsigned_part(s);
    let l = lower(u);
    l == "inf"@ || l == "infinity"@ || l == "nan"@ || match first_index(l, 'e') {
        Some(i) => is_mantissa(u.take(i)) && is_exponent(u.skip(i + 1)),
        None => is_mantissa(u),
    }
}

fn all_digits_exec(v: &[char]) -> (r: bool)
    ensures
        r == all_digits(v@),
{
    let mut i: usize = 0;
    while i < v.len()
        invariant
            i <= v@.len(),
            forall|m: int| 0 <= m < i ==> is_digit(#[trigger] v@[m]),
        decreases v@.len() - i,
    {
        if !('0' <= v[i] && v[i] <= '9') {
            return false;
        }
        i = i + 1;
    }
    true
}

/// `v` with its letters folded to lower case.
pub fn lower_vec(v: &[char]) -> (r: Vec<char>)
    ensures
        r@ == lower(v@),
{
    let mut r: Vec<char> = Vec::new();
    let mut i: usize = 0;
    while i < v.len()
        invariant
            i <= v@.len(),
            r@ == lower(v@.take(i as int)),
        decreases v@.len() - i,
    {
        r.push(lower_char_exec(v[i]));
        assert(lower(v@.take(i + 1)) =~= lower(v@.take(i as int)).push(lower_char(v@[i as int])));
        i = i + 1;
    }
    assert(v@.take(v@.len() as int) =~= v@);
    r
}

fn is_mantissa_exec(m: &[char]) -> (r: bool)
    ensures
        r == is_mantissa(m@),
{
    assert(m@.subrange(0, m@.len() as int) =~= m@);
    let n = m.len();
    match find_char(m, '.', 0) {
        Some(i) => {
            let a = slice_vec(m, 0, i);
            let b = slice_vec(m, i + 1, m.len());
            assert(a@ =~= m@.take(i as int));
            assert(b@ =~= m@.skip(i + 1));
            m.len() >= 2 && all_digits_exec(a.as_slice()) && all_digits_exec(b.as_slice())
        },
        None => m.len() > 0 && all_digits_exec(m),
    }
}

fn unsigned_start(s: &[char]) -> (r: usize)
    ensures
        r <= s@.len(),
        s@.subrange(r as int, s@.len() as int) == unsigned_part(s@),
{
    if s.len() > 0 && (s[0] == '+' || s[0] == '-') {
        assert(s@.subrange(1, s@.len() as int) =~= s@.drop_first());
        1
    } else {
        assert(s@.subrange(0, s@.len() as int) =~= s@);
        0
    }
}

/// Whether `s` is a decimal floating-point literal that `f64::from_str` accepts.
pub fn float_literal(s: &[char]) -> (r: bool)
    ensures
        r == is_float_literal(s@),
{
    let st = unsigned_start(s);
    let u = slice_vec(s, st, s.len());
    if equals_lower(u.as_slice(), chars_of("inf").as_slice()) || equals_lower(
        u.as_slice(),
        chars_of("infinity").as_slice(),
    ) || equals_lower(u.as_slice(), chars_of("nan").as_slice()) {
        return true;
    }
    let l = lower_vec(u.as_slice());
    assert(l@.subrange(0, l@.len() as int) =~= l@);
    match find_char(l.as_slice(), 'e', 0) {
        Some(i) => {
            let a = slice_vec(u.as_slice(), 0, i);
            let b = slice_vec(u.as_slice(), i + 1, u.len());
            assert(a@ =~= u@.take(i as int));
            assert(b@ =~= u@.skip(i + 1));
            let bs = unsigned_start(b.as_slice());
            let digits = slice_vec(b.as_slice(), bs, b.len());
            is_mantissa_exec(a.as_slice()) && digits.len() > 0 && all_digits_exec(digits.as_slice())
        },
        None => is_mantissa_exec(u.as_slice()),
    }
}

} // verus!
