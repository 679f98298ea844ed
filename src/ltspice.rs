//! Decoder for result artifacts of family A: a UTF-16LE text header, then a
//! binary section of fixed-width little-endian records.
use vstd::prelude::*;
use crate::binary::{absent, first_occurrence, marker, binary_start, find_binary_marker, le_u32, le_u64, read_u32_le, read_u64_le};
use crate::codec::{analysis_name, is_double, is_single, unit_for, unit_of, DecodeError};
use crate::fields::{parse_usize, parsed_usize, split, split_at_char};
use crate::protocol::{Sample, Scalar, SimulationResults, Trace};
use crate::text::{
    chars_of, contains, contains_lower, has_prefix, lines, lower, same_chars, split_lines, starts_with,
    string_of, trim, trim_vec, views,
};
use crate::text::lowercase_of;

verus! {

/// The text that `encoding_rs` decodes from `data` as UTF-16LE.
pub uninterp spec fn utf16le_text(data: Seq<u8>) -> Seq<char>;

/// Relies on `encoding_rs::UTF_16LE.decode`: the decoded text depends on the
/// bytes alone (a byte-order mark may switch the encoding; malformed sequences
/// become U+FFFD).
#[verifier::external_body]
fn decode_utf16le(data: &[u8]) -> (r: String)
    ensures
        r@ == utf16le_text(data@),
{
    encoding_rs::UTF_16LE.decode(data).0.into_owned()
}

/// What the header lines read so far have declared.
pub ghost struct LtHeader {
    pub num_vars: usize,
    pub num_points: usize,
    pub double: bool,
    pub in_vars: bool,
    pub done: bool,
    pub names: Seq<Seq<char>>,
    pub types: Seq<Seq<char>>,
    pub transient: bool,
    pub ac: bool,
    pub dc: bool,
}

pub open spec fn empty_header() -> LtHeader {
    LtHeader {
        num_vars: 0,
        num_points: 0,
        double: false,
        in_vars: false,
        done: false,
        names: seq![],
        types: seq![],
        transient: false,
        ac: false,
        dc: false,
    }
}

/// The count in a `Name: value` line, or `old` where the line has no field.
pub open spec fn count_field(t: Seq<char>, old: usize) -> usize {
    let parts = split(t, ':');
    if parts.len() >= 2 {
        match parsed_usize(trim(parts[1])) {
            Some(n) => n,
            None => 0,
        }
    } else {
        old
    }
}

/// The header after one more line; nothing changes after the `Binary:` line.
pub open spec fn header_step(h: LtHeader, l: Seq<char>) -> LtHeader {
    if h.done {
        h
    } else {
        let low = lower(l);
        let h = LtHeader {
            transient: h.transient || contains(low, "transient analysis"@),
            ac: h.ac || contains(low, "ac analysis"@),
            dc: h.dc || contains(low, "dc"@),
            ..h
        };
        let t = trim(l);
        if starts_with(t, "No. Variables:"@) {
            LtHeader { num_vars: count_field(t, h.num_vars), ..h }
        } else if starts_with(t, "No. Points:"@) {
            LtHeader { num_points: count_field(t, h.num_points), ..h }
        } else if starts_with(t, "Flags:"@) {
            LtHeader { double: contains(lower(t), "double"@), ..h }
        } else if t == "Variables:"@ {
            LtHeader { in_vars: true, ..h }
        } else if t == "Binary:"@ {
            LtHeader { done: true, ..h }
        } else if h.in_vars && t.len() > 0 && split(t, '\t').len() >= 3 {
            LtHeader {
                names: h.names.push(split(t, '\t')[1]),
                types: h.types.push(split(t, '\t')[2]),
                ..h
            }
        } else {
            h
        }
    }
}

/// The header declared by the first `k` lines.
pub open spec fn header_of(ls: Seq<Seq<char>>, k: int) -> LtHeader
    decreases k,
{
    if k <= 0 {
        empty_header()
    } else {
        header_step(header_of(ls, k - 1), ls[k - 1])
    }
}

/// The header of an artifact.
pub open spec fn header(data: Seq<u8>) -> LtHeader {
    let ls = lines(utf16le_text(data));
    header_of(ls, ls.len() as int)
}

/// Bytes per point record: the axis as binary64, the other variables as
/// binary64 or binary32.
pub open spec fn record_width(h: LtHeader) -> int {
    if h.double {
        h.num_vars * 8
    } else {
        8 + (h.num_vars - 1) * 4
    }
}

/// Where variable `v` (not the axis) of point `p` starts in the binary section.
pub open spec fn value_offset(h: LtHeader, p: int, v: int) -> int {
    if h.double {
        p * record_width(h) + v * 8
    } else {
        p * record_width(h) + 8 + (v - 1) * 4
    }
}

/// Variable `v` of point `p`, as `bin` stores it.
pub open spec fn value_at(h: LtHeader, bin: Seq<u8>, p: int, v: int, s: Sample) -> bool {
    if h.double {
        is_double(s, le_u64(bin, value_offset(h, p, v)))
    } else {
        is_single(s, le_u32(bin, value_offset(h, p, v)))
    }
}

/// The number of variables that carry a trace: those that are both counted and
/// listed.
pub open spec fn used_vars(h: LtHeader) -> int {
    if h.names.len() < h.num_vars {
        if h.names.len() == 0 { 1 } else { h.names.len() as int }
    } else {
        h.num_vars as int
    }
}

/// `r` is the decoding of a family-A artifact whose binary section is `bin`.
pub open spec fn decoded_as(h: LtHeader, bin: Seq<u8>, r: SimulationResults) -> bool {
    &&& r.time@.len() == h.num_points
    &&& forall|p: int| 0 <= p < h.num_points ==> is_double(#[trigger] r.time@[p], le_u64(bin, p * record_width(h)))
    &&& r.traces@.len() == used_vars(h) - 1
    &&& forall|j: int| 0 <= j < r.traces@.len() ==> {
        &&& (#[trigger] r.traces@[j]).name@ == h.names[j + 1]
        &&& r.traces@[j].unit@ == unit_of(h.types[j + 1])
        &&& r.traces@[j].data@.len() == h.num_points
        &&& forall|p: int| 0 <= p < h.num_points ==> value_at(h, bin, p, j + 1, #[trigger] r.traces@[j].data@[p])
    }
    &&& r.analysis_type@ == analysis_name(h.transient, h.ac, h.dc)
    &&& r.x_axis_label matches Some(x) && x@ == (if h.names.len() > 0 { lowercase_of(h.names[0]) } else { "time"@ })
}

/// A decoding of a header that lists as many variables as it counts holds an
/// axis value for every declared point and one trace per non-axis variable,
/// each with a value for every point.
pub proof fn lemma_decoded_shape(h: LtHeader, bin: Seq<u8>, r: SimulationResults)
    requires
        h.num_vars > 0,
        h.names.len() == h.num_vars,
        decoded_as(h, bin, r),
    ensures
        r.time@.len() == h.num_points,
        r.traces@.len() == h.num_vars - 1,
        forall|j: int| 0 <= j < r.traces@.len() ==> (#[trigger] r.traces@[j]).data@.len() == h.num_points,
{
}

/// The header fields while the header lines are read.
struct HeaderFields {
    num_vars: usize,
    num_points: usize,
    double: bool,
    in_vars: bool,
    done: bool,
    names: Vec<Vec<char>>,
    types: Vec<Vec<char>>,
    transient: bool,
    ac: bool,
    dc: bool,
}

impl HeaderFields {
    spec fn model(&self) -> LtHeader {
        LtHeader {
            num_vars: self.num_vars,
            num_points: self.num_points,
            double: self.double,
            in_vars: self.in_vars,
            done: self.done,
            names: views(self.names@),
            types: views(self.types@),
            transient: self.transient,
            ac: self.ac,
            dc: self.dc,
        }
    }
}

/// The count in a `Name: value` line.
pub fn count_field_exec(t: &[char], old: usize) -> (r: usize)
    ensures
        r == count_field(t@, old),
{
    let parts = split_at_char(t, ':');
    if parts.len() >= 2 {
        let f = trim_vec(parts[1].as_slice());
        match parse_usize(f.as_slice()) {
            Some(n) => n,
            None => 0,
        }
    } else {
        old
    }
}

fn header_step_exec(h: &mut HeaderFields, l: &[char])
    requires
        old(h).names@.len() == old(h).types@.len(),
    ensures
        final(h).model() == header_step(old(h).model(), l@),
        final(h).names@.len() == final(h).types@.len(),
{
    if h.done {
        return;
    }
    h.transient = h.transient || contains_lower(l, chars_of("transient analysis").as_slice());
    h.ac = h.ac || contains_lower(l, chars_of("ac analysis").as_slice());
    h.dc = h.dc || contains_lower(l, chars_of("dc").as_slice());
    let t = trim_vec(l);
    let t = t.as_slice();
    if has_prefix(t, chars_of("No. Variables:").as_slice()) {
        h.num_vars = count_field_exec(t, h.num_vars);
    } else if has_prefix(t, chars_of("No. Points:").as_slice()) {
        h.num_points = count_field_exec(t, h.num_points);
    } else if has_prefix(t, chars_of("Flags:").as_slice()) {
        h.double = contains_lower(t, chars_of("double").as_slice());
    } else if same_chars(t, chars_of("Variables:").as_slice()) {
        h.in_vars = true;
    } else if same_chars(t, chars_of("Binary:").as_slice()) {
        h.done = true;
    } else if h.in_vars && t.len() > 0 {
        let parts = split_at_char(t, '\t');
        if parts.len() >= 3 {
            let ghost before_n = h.names@;
            let ghost before_t = h.types@;
            h.names.push(crate::text::slice_vec(parts[1].as_slice(), 0, parts[1].len()));
            h.types.push(crate::text::slice_vec(parts[2].as_slice(), 0, parts[2].len()));
            assert(parts[1]@.subrange(0, parts[1]@.len() as int) =~= parts[1]@);
            assert(parts[2]@.subrange(0, parts[2]@.len() as int) =~= parts[2]@);
            assert(views(h.names@) =~= views(before_n).push(split(t@, '\t')[1]));
            assert(views(h.types@) =~= views(before_t).push(split(t@, '\t')[2]));
        }
    }
}

/// Reads the header from the decoded text.
fn read_header(data: &[u8]) -> (r: HeaderFields)
    ensures
        r.model() == header(data@),
        r.names@.len() == r.types@.len(),
{
    let text = decode_utf16le(data);
    let chars = chars_of(text.as_str());
    let ls = split_lines(chars.as_slice());
    let mut h = HeaderFields {
        num_vars: 0,
        num_points: 0,
        double: false,
        in_vars: false,
        done: false,
        names: Vec::new(),
        types: Vec::new(),
        transient: false,
        ac: false,
        dc: false,
    };
    assert(h.model() == empty_header()) by {
        assert(views(h.names@) =~= Seq::<Seq<char>>::empty());
        assert(views(h.types@) =~= Seq::<Seq<char>>::empty());
    }
    let mut k: usize = 0;
    while k < ls.len()
        invariant
            k <= ls@.len(),
            views(ls@) == lines(utf16le_text(data@)),
            h.model() == header_of(views(ls@), k as int),
            h.names@.len() == h.types@.len(),
        decreases ls@.len() - k,
    {
        header_step_exec(&mut h, ls[k].as_slice());
        k = k + 1;
    }
    h
}

/// Decodes a family-A artifact. The header (UTF-16LE text) must declare a
/// non-zero variable count and point count; the binary section starts after
/// the first marker spelling found, and must hold every point's record. Each
/// value is read at its own offset: the axis as binary64, the other variables
/// as binary64 or binary32 as the `Flags:` line says. The first listed
/// variable is the axis; each other counted and listed variable gives a trace.
pub fn decode_ltspice_raw(data: &[u8]) -> (r: Result<SimulationResults, DecodeError>)
    ensures
        match r {
            Ok(res) => {
                &&& header(data@).num_vars > 0
                &&& header(data@).num_points > 0
                &&& exists|s: usize| #[trigger] binary_start(data@, Some(s))
                    && data@.len() - s >= header(data@).num_points * record_width(header(data@))
                    && decoded_as(header(data@), data@.subrange(s as int, data@.len() as int), res)
            },
            Err(DecodeError::Header) => header(data@).num_vars == 0 || header(data@).num_points == 0,
            Err(DecodeError::MarkerNotFound) => {
                &&& header(data@).num_vars > 0
                &&& header(data@).num_points > 0
                &&& binary_start(data@, None)
            },
            Err(DecodeError::Truncated { expected, actual }) => {
                &&& header(data@).num_vars > 0
                &&& header(data@).num_points > 0
                &&& binary_start(data@, Some((data@.len() - actual) as usize))
                &&& actual < header(data@).num_points * record_width(header(data@))
                &&& expected as int == if header(data@).num_points * record_width(header(data@)) > usize::MAX {
                    usize::MAX as int
                } else {
                    header(data@).num_points * record_width(header(data@))
                }
            },
            Err(_) => false,
        },
{
    let h = read_header(data);
    let ghost hm = h.model();
    if h.num_vars == 0 || h.num_points == 0 {
        return Err(DecodeError::Header);
    }
    let start = match find_binary_marker(data) {
        Some(s) => s,
        None => {
            return Err(DecodeError::MarkerNotFound);
        },
    };
    let n = data.len();
    proof {
        let (k, i) = choose|k: int, i: int|
            0 <= k < 4 && (forall|m: int| 0 <= m < k ==> absent(data@, #[trigger] marker(m)))
                && first_occurrence(data@, marker(k), i) && start == i + marker(k).len();
        assert(start <= n);
    }
    let bin = &data[start..n];
    let ghost b = data@.subrange(start as int, n as int);
    assert(bin@ == b);
    let nv = h.num_vars;
    let np = h.num_points;
    let actual = n - start;
    // bytes per record, and the bytes all records need, unless they overflow
    let width: Option<usize> = if h.double {
        if nv <= usize::MAX / 8 { Some(nv * 8) } else { None }
    } else {
        if nv - 1 <= (usize::MAX - 8) / 4 { Some(8 + (nv - 1) * 4) } else { None }
    };
    proof {
        match width {
            Some(w) => {
                assert(w == record_width(hm));
                if hm.double {
                    assert(nv * 8 >= 8) by (nonlinear_arith) requires nv >= 1;
                }
            },
            None => {
                if hm.double {
                    assert(nv * 8 > usize::MAX) by (nonlinear_arith) requires nv > usize::MAX / 8;
                } else {
                    assert(8 + (nv - 1) * 4 > usize::MAX) by (nonlinear_arith) requires nv - 1 > (usize::MAX - 8) / 4;
                }
                assert(np * record_width(hm) >= record_width(hm)) by (nonlinear_arith)
                    requires np >= 1, record_width(hm) >= 0;
            },
        }
    }
    assert(width matches Some(w) ==> w >= 8 && w == record_width(hm));
    let total: Option<usize> = match width {
        Some(w) => if np <= usize::MAX / w {
            assert(np * w <= usize::MAX) by (nonlinear_arith) requires np <= usize::MAX / w, w > 0;
            Some(np * w)
        } else {
            None
        },
        None => None,
    };
    proof {
        match (width, total) {
            (Some(w), None) => {
                assert(np * w > usize::MAX) by (nonlinear_arith) requires np > usize::MAX / w, w > 0;
            },
            _ => {},
        }
    }
    let (w, total) = match (width, total) {
        (Some(w), Some(t)) => (w, t),
        _ => {
            return Err(DecodeError::Truncated { expected: usize::MAX, actual });
        },
    };
    if actual < total {
        return Err(DecodeError::Truncated { expected: total, actual });
    }
    assert(w >= 8);
    let mut time: Vec<Sample> = Vec::new();
    let mut p: usize = 0;
    while p < np
        invariant
            p <= np,
            w >= 8,
            total == np * w,
            total <= bin@.len(),
            bin@ == b,
            w == record_width(hm),
            time@.len() == p,
            forall|q: int| 0 <= q < p ==> is_double(#[trigger] time@[q], le_u64(b, q * record_width(hm))),
        decreases np - p,
    {
        assert(p * w + w <= np * w) by (nonlinear_arith) requires p < np, w >= 0;
        let v = read_u64_le(bin, p * w);
        time.push(Sample::Real(Scalar::Double(v)));
        p = p + 1;
    }
    let used: usize = if h.names.len() < nv {
        if h.names.len() == 0 { 1 } else { h.names.len() }
    } else {
        nv
    };
    let mut traces: Vec<Trace> = Vec::new();
    let mut j: usize = 1;
    while j < used
        invariant
            1 <= j <= used,
            nv == hm.num_vars,
            np == hm.num_points,
            h.names@.len() == h.types@.len(),
            h.double ==> w == nv * 8,
            !h.double ==> w == 8 + (nv - 1) * 4,
            used == used_vars(hm),
            used <= nv,
            used > 1 ==> used <= h.names@.len(),
            h.model() == hm,
            w >= 8,
            total == np * w,
            total <= bin@.len(),
            bin@ == b,
            w == record_width(hm),
            traces@.len() == j - 1,
            forall|t: int| 0 <= t < j - 1 ==> {
                &&& (#[trigger] traces@[t]).name@ == hm.names[t + 1]
                &&& traces@[t].unit@ == unit_of(hm.types[t + 1])
                &&& traces@[t].data@.len() == np
                &&& forall|q: int| 0 <= q < np ==> value_at(hm, b, q, t + 1, #[trigger] traces@[t].data@[q])
            },
        decreases used - j,
    {
        let mut col: Vec<Sample> = Vec::new();
        let mut p: usize = 0;
        while p < np
            invariant
                p <= np,
                1 <= j < nv,
                h.double ==> w == nv * 8,
                !h.double ==> w == 8 + (nv - 1) * 4,
                w >= 8,
                total == np * w,
                total <= bin@.len(),
                bin@ == b,
                w == record_width(hm),
                h.model() == hm,
                col@.len() == p,
                forall|q: int| 0 <= q < p ==> value_at(hm, b, q, j as int, #[trigger] col@[q]),
            decreases np - p,
        {
            assert(p * w + w <= np * w) by (nonlinear_arith) requires p < np, w >= 0;
            if h.double {
                assert(j * 8 + 8 <= w) by (nonlinear_arith) requires j < nv, w == nv * 8;
                let v = read_u64_le(bin, p * w + j * 8);
                col.push(Sample::Real(Scalar::Double(v)));
            } else {
                assert(8 + (j - 1) * 4 + 4 <= w) by (nonlinear_arith) requires 1 <= j < nv, w == 8 + (nv - 1) * 4;
                let v = read_u32_le(bin, p * w + 8 + (j - 1) * 4);
                col.push(Sample::Real(Scalar::Single(v)));
            }
            p = p + 1;
        }
        let name = string_of(h.names[j].as_slice());
        let unit = unit_for(h.types[j].as_slice());
        traces.push(Trace { name, data: col, unit });
        j = j + 1;
    }
    let analysis = if h.transient {
        string_of(chars_of("transient").as_slice())
    } else if h.ac {
        string_of(chars_of("ac").as_slice())
    } else if h.dc {
        string_of(chars_of("dc").as_slice())
    } else {
        string_of(chars_of("transient").as_slice())
    };
    let label = if h.names.len() > 0 {
        crate::text::to_lowercase(string_of(h.names[0].as_slice()).as_str())
    } else {
        string_of(chars_of("time").as_slice())
    };
    let res = SimulationResults { time, traces, analysis_type: analysis, x_axis_label: Some(label) };
    assert(decoded_as(hm, b, res));
    Ok(res)
}

} // verus!
