//! Decoder for result artifacts of family B: an 8-bit text header, then the
//! values either as text lines or as binary64 words, real or complex.
use vstd::prelude::*;
use vstd::utf8::{decode_utf8, valid_utf8};
use crate::binary::{le_u64, read_u64_le};
use crate::codec::{unit_for, unit_of, DecodeError};
use crate::fields::{
    float_literal, is_digit, is_float_literal, lower_vec, split, split_at_char, split_whitespace,
    tokens,
};
use crate::ltspice::{count_field, count_field_exec};
use crate::text::{has_prefix, lowercase_of};
use crate::protocol::{Sample, Scalar, SimulationResults, Trace};
use crate::text::{
    chars_of, contains, contains_lower, find_char, first_index, has_char, lines, lower, same_chars,
    slice_vec, split_lines, starts_with, string_of, trim, trim_vec, views,
};

verus! {

/// Relies on `std::str::from_utf8`: the text when the bytes are well-formed
/// UTF-8, nothing otherwise.
#[verifier::external_body]
fn utf8_text(bytes: &[u8]) -> (r: Option<String>)
    ensures
        r is Some <==> valid_utf8(bytes@),
        r matches Some(s) ==> s@ == decode_utf8(bytes@),
{
    match std::str::from_utf8(bytes) {
        Ok(s) => Some(s.to_string()),
        Err(_) => None,
    }
}

/// What the header lines read so far have declared, and where reading stands.
pub ghost struct NgHeader {
    pub num_vars: usize,
    pub num_points: usize,
    pub complex: bool,
    pub analysis: Seq<char>,
    pub in_vars: bool,
    pub first_pending: bool,
    pub names: Seq<Seq<char>>,
    pub types: Seq<Seq<char>>,
    pub label: Seq<char>,
    pub done: bool,
    pub binary: bool,
    pub data_start: int,
    pub line_start: int,
}

pub open spec fn start_header() -> NgHeader {
    NgHeader {
        num_vars: 0,
        num_points: 0,
        complex: false,
        analysis: "transient"@,
        in_vars: false,
        first_pending: true,
        names: seq![],
        types: seq![],
        label: "time"@,
        done: false,
        binary: false,
        data_start: 0,
        line_start: 0,
    }
}

/// The analysis kind named by a lower-cased plot name. A DC plot name is
/// tested first: "characteristic" holds "ac".
pub open spec fn plot_analysis(p: Seq<char>) -> Seq<char> {
    if contains(lower(p), "dc"@) || contains(lower(p), "operating point"@) {
        "dc"@
    } else if contains(lower(p), "ac analysis"@) || starts_with(p, "ac "@) {
        "ac"@
    } else {
        "transient"@
    }
}

/// The plot name of a `Plotname:` line, trimmed and lower-cased.
pub open spec fn plot_name(t: Seq<char>) -> Seq<char> {
    if split(t, ':').len() >= 2 {
        lower(trim(split(t, ':')[1]))
    } else {
        seq![]
    }
}

/// The header after the text line `l`, whose line feed is at `i`.
pub open spec fn line_step(h: NgHeader, l: Seq<char>, i: int) -> NgHeader {
    let t = trim(l);
    if starts_with(t, "Plotname:"@) {
        NgHeader { analysis: plot_analysis(plot_name(t)), ..h }
    } else if starts_with(t, "Flags:"@) {
        NgHeader { complex: contains(lower(t), "complex"@), ..h }
    } else if starts_with(t, "No. Variables:"@) {
        NgHeader { num_vars: count_field(t, h.num_vars), ..h }
    } else if starts_with(t, "No. Points:"@) {
        NgHeader { num_points: count_field(t, h.num_points), ..h }
    } else if t == "Variables:"@ {
        NgHeader { in_vars: true, first_pending: true, ..h }
    } else if t == "Values:"@ {
        NgHeader { done: true, binary: false, data_start: i + 1, ..h }
    } else if t == "Binary:"@ {
        NgHeader { done: true, binary: true, data_start: i + 1, ..h }
    } else if h.in_vars && t.len() > 0 && tokens(t).len() >= 3 {
        NgHeader {
            names: h.names.push(tokens(t)[1]),
            types: h.types.push(tokens(t)[2]),
            label: if h.first_pending { lowercase_of(tokens(t)[1]) } else { h.label },
            first_pending: false,
            ..h
        }
    } else {
        h
    }
}

/// Where the line that ends at the line feed `i` stops: before a carriage return.
pub open spec fn line_end(data: Seq<u8>, i: int) -> int {
    if i > 0 && data[i - 1] == 0x0Du8 {
        i - 1
    } else {
        i
    }
}

/// The header after the first `i` bytes. Each line feed ends a line; a line
/// that is not UTF-8 is passed over; nothing changes after the value marker.
pub open spec fn scan(data: Seq<u8>, i: int) -> NgHeader
    decreases i,
{
    if i <= 0 {
        start_header()
    } else {
        let h = scan(data, i - 1);
        let j = i - 1;
        if h.done || data[j] != 0x0Au8 {
            h
        } else {
            let bytes = data.subrange(h.line_start, line_end(data, j));
            let h2 = if valid_utf8(bytes) { line_step(h, decode_utf8(bytes), j) } else { h };
            NgHeader { line_start: j + 1, ..h2 }
        }
    }
}

/// The header of an artifact.
pub open spec fn ng_header(data: Seq<u8>) -> NgHeader {
    scan(data, data.len() as int)
}

/// A value as the artifact gives it.
pub ghost enum Value {
    Bits(u64),
    BitsMagnitude(u64, u64),
    Text(Seq<char>),
    TextMagnitude(Seq<char>, Seq<char>),
    /// A shape that this format never produces.
    Other,
}

/// What a sample holds, as a value of this format.
pub open spec fn value_of(s: Sample) -> Value {
    match s {
        Sample::Real(Scalar::Double(b)) => Value::Bits(b),
        Sample::Magnitude(Scalar::Double(a), Scalar::Double(b)) => Value::BitsMagnitude(a, b),
        Sample::Real(Scalar::Decimal(t)) => Value::Text(t@),
        Sample::Magnitude(Scalar::Decimal(a), Scalar::Decimal(b)) => Value::TextMagnitude(a@, b@),
        _ => Value::Other,
    }
}

pub open spec fn sample_is(s: Sample, v: Value) -> bool {
    value_of(s) == v
}

/// The values held by columns of samples.
pub open spec fn col_values(cs: Seq<Vec<Sample>>) -> Seq<Seq<Value>> {
    cs.map_values(|c: Vec<Sample>| c@.map_values(|s: Sample| value_of(s)))
}

/// The number of variables that carry values: those both counted and listed.
pub open spec fn columns(h: NgHeader) -> int {
    if h.names.len() < h.num_vars {
        h.names.len() as int
    } else {
        h.num_vars as int
    }
}

/// Bytes per point in the binary form.
pub open spec fn stride(h: NgHeader) -> int {
    h.num_vars * (if h.complex { 2int } else { 1int }) * 8
}

/// The complete points that the binary section `bin` holds.
pub open spec fn binary_points(h: NgHeader, bin: Seq<u8>) -> int {
    if stride(h) == 0 {
        0
    } else {
        let whole: int = (bin.len() as int) / stride(h);
        if whole < h.num_points { whole } else { h.num_points as int }
    }
}

/// Variable `v` of point `p` in the binary section `bin`.
pub open spec fn binary_value(h: NgHeader, bin: Seq<u8>, p: int, v: int) -> Value {
    if h.complex {
        let re = le_u64(bin, p * stride(h) + v * 16);
        let im = le_u64(bin, p * stride(h) + v * 16 + 8);
        if v == 0 { Value::Bits(re) } else { Value::BitsMagnitude(re, im) }
    } else {
        Value::Bits(le_u64(bin, p * stride(h) + v * 8))
    }
}

/// Where reading text values stands: the variable the next value belongs to
/// (held at `cols` once past the last column), and the values per column.
pub ghost struct TextState {
    pub index: int,
    pub cols: Seq<Seq<Value>>,
}

/// The part of a text line that holds a value: after the point index on the
/// line that starts a point.
pub open spec fn value_part(t: Seq<char>, new_point: bool) -> Seq<char> {
    if new_point {
        match first_index(t, '\t') {
            Some(k) => trim(t.skip(k + 1)),
            None => seq![],
        }
    } else {
        trim(t)
    }
}

/// The text state after one more value line.
pub open spec fn text_step(h: NgHeader, st: TextState, l: Seq<char>) -> TextState {
    let t = trim(l);
    if t.len() == 0 {
        st
    } else {
        let new_point = t.contains('\t') && is_digit(t[0]);
        let index = if new_point { 0 } else { st.index };
        let vp = value_part(t, new_point);
        let parts = split(vp, ',');
        let parsed: Option<Value> = if vp.len() == 0 {
            None
        } else if h.complex {
            if parts.len() >= 2 && is_float_literal(trim(parts[0])) && is_float_literal(trim(parts[1])) {
                Some(if index == 0 {
                    Value::Text(trim(parts[0]))
                } else {
                    Value::TextMagnitude(trim(parts[0]), trim(parts[1]))
                })
            } else {
                None
            }
        } else if is_float_literal(vp) {
            Some(Value::Text(vp))
        } else {
            None
        };
        match parsed {
            Some(v) => if index < st.cols.len() {
                TextState { index: index + 1, cols: st.cols.update(index, st.cols[index].push(v)) }
            } else {
                TextState { index, cols: st.cols }
            },
            None => TextState { index, ..st },
        }
    }
}

/// The text state after the first `k` value lines.
pub open spec fn text_values(h: NgHeader, ls: Seq<Seq<char>>, k: int) -> TextState
    decreases k,
{
    if k <= 0 {
        TextState { index: 0, cols: Seq::new(columns(h) as nat, |c: int| Seq::<Value>::empty()) }
    } else {
        text_step(h, text_values(h, ls, k - 1), ls[k - 1])
    }
}

/// The values per column of an artifact with a well-formed header; `None`
/// where its text section is not UTF-8.
pub open spec fn value_columns(data: Seq<u8>) -> Option<Seq<Seq<Value>>> {
    let h = ng_header(data);
    let bin = data.subrange(h.data_start, data.len() as int);
    if h.binary {
        Some(Seq::new(columns(h) as nat, |c: int| Seq::new(binary_points(h, bin) as nat, |p: int| binary_value(h, bin, p, c))))
    } else if valid_utf8(bin) {
        let ls = lines(decode_utf8(bin));
        Some(text_values(h, ls, ls.len() as int).cols)
    } else {
        None
    }
}

/// The number of complete points: the length of the shortest column.
pub open spec fn complete_points(cols: Seq<Seq<Value>>, k: int) -> int
    decreases k,
{
    if k <= 0 {
        -1
    } else {
        let rest = complete_points(cols, k - 1);
        if rest < 0 || cols[k - 1].len() < rest { cols[k - 1].len() as int } else { rest }
    }
}

/// `r` holds the first `n` values of each column: the axis, then one trace per
/// other column.
pub open spec fn ng_decoded_as(h: NgHeader, cols: Seq<Seq<Value>>, n: int, r: SimulationResults) -> bool {
    &&& r.time@.len() == n
    &&& forall|p: int| 0 <= p < n ==> sample_is(#[trigger] r.time@[p], cols[0][p])
    &&& r.traces@.len() == columns(h) - 1
    &&& forall|j: int| 0 <= j < r.traces@.len() ==> {
        &&& (#[trigger] r.traces@[j]).name@ == h.names[j + 1]
        &&& r.traces@[j].unit@ == unit_of(h.types[j + 1])
        &&& r.traces@[j].data@.len() == n
        &&& forall|p: int| 0 <= p < n ==> sample_is(#[trigger] r.traces@[j].data@[p], cols[j + 1][p])
    }
    &&& r.analysis_type@ == h.analysis
    &&& r.x_axis_label matches Some(x) && x@ == h.label
}

/// The header fields while the header is scanned.
struct NgFields {
    num_vars: usize,
    num_points: usize,
    complex: bool,
    analysis: Vec<char>,
    in_vars: bool,
    first_pending: bool,
    names: Vec<Vec<char>>,
    types: Vec<Vec<char>>,
    label: Vec<char>,
    done: bool,
    binary: bool,
    data_start: usize,
    line_start: usize,
}

impl NgFields {
    spec fn model(&self) -> NgHeader {
        NgHeader {
            num_vars: self.num_vars,
            num_points: self.num_points,
            complex: self.complex,
            analysis: self.analysis@,
            in_vars: self.in_vars,
            first_pending: self.first_pending,
            names: views(self.names@),
            types: views(self.types@),
            label: self.label@,
            done: self.done,
            binary: self.binary,
            data_start: self.data_start as int,
            line_start: self.line_start as int,
        }
    }
}

fn plot_analysis_exec(p: &[char]) -> (r: Vec<char>)
    ensures
        r@ == plot_analysis(p@),
{
    if crate::text::contains_lower(p, chars_of("dc").as_slice()) || crate::text::contains_lower(
        p,
        chars_of("operating point").as_slice(),
    ) {
        chars_of("dc")
    } else if crate::text::contains_lower(p, chars_of("ac analysis").as_slice()) || has_prefix(
        p,
        chars_of("ac ").as_slice(),
    ) {
        chars_of("ac")
    } else {
        chars_of("transient")
    }
}

fn plot_name_exec(t: &[char]) -> (r: Vec<char>)
    ensures
        r@ == plot_name(t@),
{
    let parts = split_at_char(t, ':');
    if parts.len() >= 2 {
        let f = trim_vec(parts[1].as_slice());
        lower_vec(f.as_slice())
    } else {
        Vec::new()
    }
}

fn line_step_exec(h: &mut NgFields, l: &[char], i: usize)
    requires
        old(h).names@.len() == old(h).types@.len(),
        i < usize::MAX,
    ensures
        final(h).model() == line_step(old(h).model(), l@, i as int),
        final(h).names@.len() == final(h).types@.len(),
{
    let t = trim_vec(l);
    let t = t.as_slice();
    if has_prefix(t, chars_of("Plotname:").as_slice()) {
        let pn = plot_name_exec(t);
        h.analysis = plot_analysis_exec(pn.as_slice());
    } else if has_prefix(t, chars_of("Flags:").as_slice()) {
        h.complex = crate::text::contains_lower(t, chars_of("complex").as_slice());
    } else if has_prefix(t, chars_of("No. Variables:").as_slice()) {
        h.num_vars = count_field_exec(t, h.num_vars);
    } else if has_prefix(t, chars_of("No. Points:").as_slice()) {
        h.num_points = count_field_exec(t, h.num_points);
    } else if same_chars(t, chars_of("Variables:").as_slice()) {
        h.in_vars = true;
        h.first_pending = true;
    } else if same_chars(t, chars_of("Values:").as_slice()) {
        h.done = true;
        h.binary = false;
        h.data_start = i + 1;
    } else if same_chars(t, chars_of("Binary:").as_slice()) {
        h.done = true;
        h.binary = true;
        h.data_start = i + 1;
    } else if h.in_vars && t.len() > 0 {
        let toks = split_whitespace(t);
        if toks.len() >= 3 {
            let ghost before_n = h.names@;
            let ghost before_t = h.types@;
            let name = slice_vec(toks[1].as_slice(), 0, toks[1].len());
            let ty = slice_vec(toks[2].as_slice(), 0, toks[2].len());
            assert(toks[1]@.subrange(0, toks[1]@.len() as int) =~= toks[1]@);
            assert(toks[2]@.subrange(0, toks[2]@.len() as int) =~= toks[2]@);
            if h.first_pending {
                h.label = chars_of(crate::text::to_lowercase(string_of(name.as_slice()).as_str()).as_str());
            }
            h.first_pending = false;
            h.names.push(name);
            h.types.push(ty);
            assert(views(h.names@) =~= views(before_n).push(tokens(t@)[1]));
            assert(views(h.types@) =~= views(before_t).push(tokens(t@)[2]));
        }
    }
}

/// Scans the header, line by line, up to the value marker.
fn read_ng_header(data: &[u8]) -> (r: NgFields)
    ensures
        r.model() == ng_header(data@),
        r.names@.len() == r.types@.len(),
        r.data_start <= data@.len(),
{
    let n = data.len();
    let mut h = NgFields {
        num_vars: 0,
        num_points: 0,
        complex: false,
        analysis: chars_of("transient"),
        in_vars: false,
        first_pending: true,
        names: Vec::new(),
        types: Vec::new(),
        label: chars_of("time"),
        done: false,
        binary: false,
        data_start: 0,
        line_start: 0,
    };
    assert(h.model() == start_header()) by {
        assert(views(h.names@) =~= Seq::<Seq<char>>::empty());
        assert(views(h.types@) =~= Seq::<Seq<char>>::empty());
    }
    let mut i: usize = 0;
    while i < n
        invariant
            n == data@.len(),
            i <= n,
            h.model() == scan(data@, i as int),
            h.names@.len() == h.types@.len(),
            h.line_start <= i,
            h.line_start == 0 || data@[h.line_start - 1] == 0x0Au8,
            h.data_start <= i,
        decreases n - i,
    {
        if !h.done && data[i] == 0x0Au8 {
            let le = if i > 0 && data[i - 1] == 0x0Du8 { i - 1 } else { i };
            assert(le == line_end(data@, i as int));
            let bytes = &data[h.line_start..le];
            match utf8_text(bytes) {
                Some(text) => {
                    let chars = chars_of(text.as_str());
                    line_step_exec(&mut h, chars.as_slice(), i);
                },
                None => {},
            }
            h.line_start = i + 1;
        }
        i = i + 1;
    }
    h
}

/// The values of column `c` in the binary section.
fn binary_column(h: &NgFields, bin: &[u8], c: usize, width: usize, points: usize) -> (r: Vec<Sample>)
    requires
        c < h.num_vars,
        width == stride(h.model()),
        width > 0,
        points * width <= bin@.len(),
    ensures
        r@.map_values(|s: Sample| value_of(s)) == Seq::new(
            points as nat,
            |p: int| binary_value(h.model(), bin@, p, c as int),
        ),
{
    let blen = bin.len();
    let mut col: Vec<Sample> = Vec::new();
    let mut p: usize = 0;
    while p < points
        invariant
            blen == bin@.len(),
            p <= points,
            col@.len() == p,
            c < h.num_vars,
            width == stride(h.model()),
            width > 0,
            points * width <= bin@.len(),
            col@.map_values(|s: Sample| value_of(s)) == Seq::new(
                p as nat,
                |q: int| binary_value(h.model(), bin@, q, c as int),
            ),
        decreases points - p,
    {
        assert(p * width + width <= points * width) by (nonlinear_arith) requires p < points, width >= 0;
        let ghost before = col@;
        if h.complex {
            assert(c * 16 + 16 <= width) by (nonlinear_arith) requires c < h.num_vars, width == h.num_vars * 2 * 8;
            let re = read_u64_le(bin, p * width + c * 16);
            let im = read_u64_le(bin, p * width + c * 16 + 8);
            if c == 0 {
                col.push(Sample::Real(Scalar::Double(re)));
            } else {
                col.push(Sample::Magnitude(Scalar::Double(re), Scalar::Double(im)));
            }
        } else {
            assert(c * 8 + 8 <= width) by (nonlinear_arith) requires c < h.num_vars, width == h.num_vars * 1 * 8;
            let v = read_u64_le(bin, p * width + c * 8);
            col.push(Sample::Real(Scalar::Double(v)));
        }
        assert(value_of(col@[p as int]) == binary_value(h.model(), bin@, p as int, c as int));
        assert(col@.map_values(|s: Sample| value_of(s)) =~= before.map_values(|s: Sample| value_of(s)).push(
            value_of(col@[p as int]),
        ));
        assert(col@.map_values(|s: Sample| value_of(s)) =~= Seq::new(
            (p + 1) as nat,
            |q: int| binary_value(h.model(), bin@, q, c as int),
        ));
        p = p + 1;
    }
    col
}

/// Reads one value line into the columns.
fn text_step_exec(h: &NgFields, index: &mut usize, cols: &mut Vec<Vec<Sample>>, l: &[char])
    requires
        *old(index) <= old(cols)@.len(),
    ensures
        final(cols)@.len() == old(cols)@.len(),
        *final(index) <= final(cols)@.len(),
        (TextState { index: *final(index) as int, cols: col_values(final(cols)@) }) == text_step(
            h.model(),
            TextState { index: *old(index) as int, cols: col_values(old(cols)@) },
            l@,
        ),
{
    let ghost st = TextState { index: *index as int, cols: col_values(cols@) };
    let t = trim_vec(l);
    if t.len() == 0 {
        return;
    }
    let new_point = has_char(t.as_slice(), '\t') && '0' <= t[0] && t[0] <= '9';
    let idx: usize = if new_point { 0 } else { *index };
    let vp: Vec<char> = if new_point {
        assert(t@.subrange(0, t@.len() as int) =~= t@);
        match find_char(t.as_slice(), '\t', 0) {
            Some(k) => {
                let rest = slice_vec(t.as_slice(), k + 1, t.len());
                assert(rest@ =~= t@.skip(k + 1));
                trim_vec(rest.as_slice())
            },
            None => Vec::new(),
        }
    } else {
        trim_vec(t.as_slice())
    };
    assert(vp@ == value_part(t@, new_point));
    let parsed: Option<Sample> = if vp.len() == 0 {
        None
    } else if h.complex {
        let parts = split_at_char(vp.as_slice(), ',');
        if parts.len() >= 2 {
            let a = trim_vec(parts[0].as_slice());
            let b = trim_vec(parts[1].as_slice());
            if float_literal(a.as_slice()) && float_literal(b.as_slice()) {
                if idx == 0 {
                    Some(Sample::Real(Scalar::Decimal(string_of(a.as_slice()))))
                } else {
                    Some(
                        Sample::Magnitude(
                            Scalar::Decimal(string_of(a.as_slice())),
                            Scalar::Decimal(string_of(b.as_slice())),
                        ),
                    )
                }
            } else {
                None
            }
        } else {
            None
        }
    } else if float_literal(vp.as_slice()) {
        Some(Sample::Real(Scalar::Decimal(string_of(vp.as_slice()))))
    } else {
        None
    };
    match parsed {
        Some(v) => {
            if idx < cols.len() {
                let ghost before = cols@;
                cols[idx].push(v);
                assert(col_values(cols@) =~= col_values(before).update(
                    idx as int,
                    col_values(before)[idx as int].push(value_of(v)),
                )) by {
                    assert(cols@[idx as int]@.map_values(|s: Sample| value_of(s)) =~= before[idx as int]@.map_values(
                        |s: Sample| value_of(s),
                    ).push(value_of(v)));
                }
                *index = idx + 1;
            } else {
                *index = idx;
            }
        },
        None => {
            *index = idx;
        },
    }
}

/// The shortest column's length, as the minimum over the first `k` columns.
proof fn lemma_complete_points(cols: Seq<Seq<Value>>, k: int)
    requires
        1 <= k <= cols.len(),
    ensures
        complete_points(cols, k) >= 0,
        exists|c: int| 0 <= c < k && complete_points(cols, k) == cols[c].len(),
        forall|c: int| 0 <= c < k ==> complete_points(cols, k) <= #[trigger] cols[c].len(),
    decreases k,
{
    if k > 1 {
        lemma_complete_points(cols, k - 1);
        let rest = complete_points(cols, k - 1);
        if cols[k - 1].len() < rest {
            assert(complete_points(cols, k) == cols[k - 1].len());
        } else {
            let c = choose|c: int| 0 <= c < k - 1 && rest == cols[c].len();
            assert(complete_points(cols, k) == cols[c].len());
        }
    } else {
        assert(complete_points(cols, 0) == -1);
        assert(complete_points(cols, 1) == cols[0].len());
    }
}

/// The length of the shortest of the `cols` columns.
fn shortest(cols: &Vec<Vec<Sample>>) -> (r: usize)
    requires
        cols@.len() >= 1,
    ensures
        r == complete_points(col_values(cols@), cols@.len() as int),
{
    let ghost m = col_values(cols@);
    let mut best: usize = cols[0].len();
    assert(m[0].len() == cols@[0]@.len());
    assert(complete_points(m, 0) == -1);
    assert(complete_points(m, 1) == m[0].len());
    let mut c: usize = 1;
    while c < cols.len()
        invariant
            1 <= c <= cols@.len(),
            m == col_values(cols@),
            best == complete_points(m, c as int),
        decreases cols@.len() - c,
    {
        assert(m[c as int].len() == cols@[c as int]@.len());
        if cols[c].len() < best {
            best = cols[c].len();
        }
        c = c + 1;
    }
    best
}

/// Decodes a family-B artifact. The header (8-bit text) must declare a
/// non-zero variable count and list at least one variable; the first listed
/// variable is the axis. Binary values are binary64 words, complex ones as
/// real and imaginary parts; text values are one per line, a point starting on
/// a line with its index and a tab. Complex values of the non-axis variables
/// become magnitudes. Only complete points are kept, as many as the data holds,
/// whatever the header's point count says of text data.
pub fn decode_ngspice_raw(data: &[u8]) -> (r: Result<SimulationResults, DecodeError>)
    ensures
        match r {
            Ok(res) => {
                &&& ng_header(data@).num_vars > 0
                &&& ng_header(data@).names.len() > 0
                &&& value_columns(data@) matches Some(cols)
                &&& complete_points(cols, columns(ng_header(data@))) > 0
                &&& ng_decoded_as(ng_header(data@), cols, complete_points(cols, columns(ng_header(data@))), res)
            },
            Err(DecodeError::Header) => ng_header(data@).num_vars == 0 || ng_header(data@).names.len() == 0,
            Err(DecodeError::NotText) => {
                &&& ng_header(data@).num_vars > 0
                &&& ng_header(data@).names.len() > 0
                &&& value_columns(data@) is None
            },
            Err(DecodeError::NoData) => {
                &&& ng_header(data@).num_vars > 0
                &&& ng_header(data@).names.len() > 0
                &&& value_columns(data@) matches Some(cols)
                &&& complete_points(cols, columns(ng_header(data@))) <= 0
            },
            Err(_) => false,
        },
{
    let h = read_ng_header(data);
    let ghost hm = h.model();
    if h.num_vars == 0 || h.names.len() == 0 {
        return Err(DecodeError::Header);
    }
    let nv = h.num_vars;
    let ncols: usize = if h.names.len() < nv { h.names.len() } else { nv };
    assert(ncols == columns(hm));
    let n = data.len();
    let bin = &data[h.data_start..n];
    let ghost b = data@.subrange(h.data_start as int, n as int);
    assert(bin@ == b);
    let mut cols: Vec<Vec<Sample>> = Vec::new();
    if h.binary {
        let per: usize = if h.complex { 16 } else { 8 };
        let width: usize = if nv <= usize::MAX / per {
            nv * per
        } else {
            0
        };
        assert(stride(hm) == nv * per) by (nonlinear_arith)
            requires stride(hm) == nv * (if hm.complex { 2int } else { 1int }) * 8, per == (if hm.complex { 16int } else { 8int });
        let points: usize = if width == 0 {
            0
        } else {
            let whole = bin.len() / width;
            if whole < h.num_points { whole } else { h.num_points }
        };
        proof {
            if width == 0 {
                assert(stride(hm) > usize::MAX) by (nonlinear_arith)
                    requires nv > usize::MAX / per, stride(hm) == nv * per, per > 0;
                assert((b.len() as int) / stride(hm) == 0) by (nonlinear_arith)
                    requires stride(hm) > usize::MAX, b.len() <= usize::MAX, b.len() >= 0;
            } else {
                assert(width == stride(hm));
            }
            assert(points == binary_points(hm, b));
            if width > 0 {
                assert(points * width <= b.len()) by (nonlinear_arith)
                    requires points <= (b.len() as int) / (width as int), width > 0;
            }
        }
        let mut c: usize = 0;
        while c < ncols
            invariant
                c <= ncols,
                ncols == columns(hm),
                ncols <= nv,
                h.model() == hm,
                bin@ == b,
                width == 0 ==> points == 0,
                width > 0 ==> width == stride(hm) && points * width <= b.len(),
                points == binary_points(hm, b),
                col_values(cols@) == Seq::new(c as nat, |k: int| Seq::new(points as nat, |p: int| binary_value(hm, b, p, k))),
            decreases ncols - c,
        {
            let col = if width == 0 { Vec::new() } else { binary_column(&h, bin, c, width, points) };
            assert(col@.map_values(|s: Sample| value_of(s)) =~= Seq::new(points as nat, |p: int| binary_value(hm, b, p, c as int)));
            let ghost before = cols@;
            cols.push(col);
            assert(col_values(cols@) =~= col_values(before).push(col@.map_values(|s: Sample| value_of(s))));
            assert(col_values(cols@) =~= Seq::new((c + 1) as nat, |k: int| Seq::new(points as nat, |p: int| binary_value(hm, b, p, k))));
            c = c + 1;
        }
        assert(Some(col_values(cols@)) == value_columns(data@));
    } else {
        let text = match utf8_text(bin) {
            Some(t) => t,
            None => {
                return Err(DecodeError::NotText);
            },
        };
        let chars = chars_of(text.as_str());
        let ls = split_lines(chars.as_slice());
        let mut c: usize = 0;
        while c < ncols
            invariant
                c <= ncols,
                col_values(cols@) == Seq::new(c as nat, |k: int| Seq::<Value>::empty()),
            decreases ncols - c,
        {
            let ghost before = cols@;
            let e: Vec<Sample> = Vec::new();
            assert(e@.map_values(|s: Sample| value_of(s)) =~= Seq::<Value>::empty());
            cols.push(e);
            assert(col_values(cols@) =~= col_values(before).push(Seq::<Value>::empty()));
            assert(col_values(cols@) =~= Seq::new((c + 1) as nat, |k: int| Seq::<Value>::empty()));
            c = c + 1;
        }
        let mut index: usize = 0;
        let mut k: usize = 0;
        while k < ls.len()
            invariant
                k <= ls@.len(),
                valid_utf8(b),
                views(ls@) == lines(decode_utf8(b)),
                h.model() == hm,
                cols@.len() == ncols,
                index <= cols@.len(),
                (TextState { index: index as int, cols: col_values(cols@) }) == text_values(hm, views(ls@), k as int),
            decreases ls@.len() - k,
        {
            text_step_exec(&h, &mut index, &mut cols, ls[k].as_slice());
            k = k + 1;
        }
        assert(Some(col_values(cols@)) == value_columns(data@));
    }
    let ghost m = col_values(cols@);
    let npts = shortest(&cols);
    proof {
        lemma_complete_points(m, ncols as int);
    }
    if npts == 0 {
        return Err(DecodeError::NoData);
    }
    let mut c: usize = 0;
    while c < ncols
        invariant
            c <= ncols,
            cols@.len() == ncols,
            m.len() == ncols,
            forall|k: int| 0 <= k < ncols ==> npts <= #[trigger] m[k].len(),
            forall|k: int| 0 <= k < c ==> (#[trigger] cols@[k])@.map_values(|s: Sample| value_of(s)) == m[k].take(npts as int),
            forall|k: int| c <= k < ncols ==> (#[trigger] cols@[k])@.map_values(|s: Sample| value_of(s)) == m[k],
        decreases ncols - c,
    {
        let ghost before = cols@;
        cols[c].truncate(npts);
        assert(cols@[c as int]@.map_values(|s: Sample| value_of(s)) =~= m[c as int].take(npts as int));
        assert forall|k: int| 0 <= k < ncols && k != c implies cols@[k] == before[k] by {}
        c = c + 1;
    }
    let time = cols.remove(0);
    let mut traces: Vec<Trace> = Vec::new();
    let mut j: usize = 1;
    while j < ncols
        invariant
            1 <= j <= ncols,
            cols@.len() == ncols - j,
            h.model() == hm,
            h.names@.len() == h.types@.len(),
            ncols == columns(hm),
            ncols <= h.names@.len(),
            forall|k: int| 0 <= k < ncols - j ==> (#[trigger] cols@[k])@.map_values(|s: Sample| value_of(s)) == m[k + j].take(npts as int),
            traces@.len() == j - 1,
            forall|t: int| 0 <= t < j - 1 ==> {
                &&& (#[trigger] traces@[t]).name@ == hm.names[t + 1]
                &&& traces@[t].unit@ == unit_of(hm.types[t + 1])
                &&& traces@[t].data@.map_values(|s: Sample| value_of(s)) == m[t + 1].take(npts as int)
            },
        decreases ncols - j,
    {
        let ghost before = cols@;
        let data_col = cols.remove(0);
        assert forall|k: int| 0 <= k < ncols - j - 1 implies (#[trigger] cols@[k])@.map_values(|s: Sample| value_of(s)) == m[k + j + 1].take(npts as int) by {
            assert(cols@[k] == before[k + 1]);
        }
        let name = string_of(h.names[j].as_slice());
        let unit = unit_for(h.types[j].as_slice());
        traces.push(Trace { name, data: data_col, unit });
        j = j + 1;
    }
    let analysis = string_of(h.analysis.as_slice());
    let label = string_of(h.label.as_slice());
    let res = SimulationResults { time, traces, analysis_type: analysis, x_axis_label: Some(label) };
    proof {
        assert forall|p: int| 0 <= p < npts implies sample_is(#[trigger] res.time@[p], m[0][p]) by {
            assert(res.time@.map_values(|s: Sample| value_of(s))[p] == m[0].take(npts as int)[p]);
        }
        assert forall|t: int| 0 <= t < res.traces@.len() implies {
            &&& (#[trigger] res.traces@[t]).name@ == hm.names[t + 1]
            &&& res.traces@[t].unit@ == unit_of(hm.types[t + 1])
            &&& res.traces@[t].data@.len() == npts
            &&& forall|p: int| 0 <= p < npts ==> sample_is(#[trigger] res.traces@[t].data@[p], m[t + 1][p])
        } by {
            let d = res.traces@[t].data@;
            assert(d.map_values(|s: Sample| value_of(s)).len() == npts);
            assert forall|p: int| 0 <= p < npts implies sample_is(#[trigger] d[p], m[t + 1][p]) by {
                assert(d.map_values(|s: Sample| value_of(s))[p] == m[t + 1].take(npts as int)[p]);
            }
        }
        assert(res.time@.map_values(|s: Sample| value_of(s)).len() == npts);
    }
    Ok(res)
}

} // verus!
