//! Byte-level pieces of the result-file codec: subsequence search, the
//! binary-section marker, and little-endian reads.
use vstd::prelude::*;
use vstd::bytes::{spec_u32_from_le_bytes, spec_u64_from_le_bytes, u32_from_le_bytes, u64_from_le_bytes};

verus! {

/// `needle` occurs in `hay` starting at `i`.
pub open spec fn bytes_at(hay: Seq<u8>, needle: Seq<u8>, i: int) -> bool {
    0 <= i && i + needle.len() <= hay.len() && hay.subrange(i, i + needle.len()) == needle
}

/// `i` is the first position at which `needle` occurs in `hay`.
pub open spec fn first_occurrence(hay: Seq<u8>, needle: Seq<u8>, i: int) -> bool {
    bytes_at(hay, needle, i) && forall|j: int| 0 <= j < i ==> !bytes_at(hay, needle, j)
}

/// `needle` occurs nowhere in `hay`.
pub open spec fn absent(hay: Seq<u8>, needle: Seq<u8>) -> bool {
    forall|j: int| !bytes_at(hay, needle, j)
}

/// Position of the first occurrence of a non-empty `needle` in `haystack`.
pub fn find_subsequence(haystack: &[u8], needle: &[u8]) -> (r: Option<usize>)
    requires
        needle@.len() > 0,
    ensures
        match r {
            Some(i) => first_occurrence(haystack@, needle@, i as int),
            None => absent(haystack@, needle@),
        },
{
    if needle.len() > haystack.len() {
        return None;
    }
    let last = haystack.len() - needle.len();
    let mut i: usize = 0;
    loop
        invariant
            last == haystack@.len() - needle@.len(),
            i <= last,
            forall|j: int| 0 <= j < i ==> !bytes_at(haystack@, needle@, j),
        ensures
            forall|j: int| 0 <= j <= last ==> !bytes_at(haystack@, needle@, j),
        decreases last - i,
    {
        let n = haystack.len();
        let mut k: usize = 0;
        let mut same = true;
        while k < needle.len()
            invariant
                n == haystack@.len(),
                i + needle@.len() <= haystack@.len(),
                k <= needle@.len(),
                same ==> forall|m: int| 0 <= m < k ==> haystack@[i + m] == needle@[m],
                !same ==> !bytes_at(haystack@, needle@, i as int),
            decreases needle@.len() - k,
        {
            if same && haystack[i + k] != needle[k] {
                assert(haystack@.subrange(i as int, i + needle@.len())[k as int] == haystack@[i + k]);
                same = false;
            }
            k = k + 1;
        }
        if same {
            assert(haystack@.subrange(i as int, i + needle@.len()) =~= needle@);
            return Some(i);
        }
        if i == last {
            break;
        }
        i = i + 1;
    }
    None
}

/// The four spellings of the binary-section marker line, in the order they are
/// tried: UTF-16LE with LF, UTF-16LE with CR LF, 8-bit with LF, 8-bit with CR LF.
pub open spec fn marker(k: int) -> Seq<u8> {
    if k == 0 {
        seq![0x42u8, 0, 0x69, 0, 0x6E, 0, 0x61, 0, 0x72, 0, 0x79, 0, 0x3A, 0, 0x0A, 0]
    } else if k == 1 {
        seq![0x42u8, 0, 0x69, 0, 0x6E, 0, 0x61, 0, 0x72, 0, 0x79, 0, 0x3A, 0, 0x0D, 0, 0x0A, 0]
    } else if k == 2 {
        seq![0x42u8, 0x69, 0x6E, 0x61, 0x72, 0x79, 0x3A, 0x0A]
    } else {
        seq![0x42u8, 0x69, 0x6E, 0x61, 0x72, 0x79, 0x3A, 0x0D, 0x0A]
    }
}

/// Where the binary section starts: just after the first occurrence of the
/// first marker spelling that occurs at all.
pub open spec fn binary_start(data: Seq<u8>, r: Option<usize>) -> bool {
    match r {
        Some(s) => exists|k: int, i: int|
            0 <= k < 4 && (forall|m: int| 0 <= m < k ==> absent(data, #[trigger] marker(m)))
                && first_occurrence(data, marker(k), i) && s == i + marker(k).len(),
        None => forall|k: int| 0 <= k < 4 ==> absent(data, #[trigger] marker(k)),
    }
}

fn marker_exec(k: usize) -> (r: Vec<u8>)
    requires
        k < 4,
    ensures
        r@ == marker(k as int),
{
    let r = if k == 0 {
        vec![0x42u8, 0, 0x69, 0, 0x6E, 0, 0x61, 0, 0x72, 0, 0x79, 0, 0x3A, 0, 0x0A, 0]
    } else if k == 1 {
        vec![0x42u8, 0, 0x69, 0, 0x6E, 0, 0x61, 0, 0x72, 0, 0x79, 0, 0x3A, 0, 0x0D, 0, 0x0A, 0]
    } else if k == 2 {
        vec![0x42u8, 0x69, 0x6E, 0x61, 0x72, 0x79, 0x3A, 0x0A]
    } else {
        vec![0x42u8, 0x69, 0x6E, 0x61, 0x72, 0x79, 0x3A, 0x0D, 0x0A]
    };
    assert(r@ =~= marker(k as int));
    r
}

/// Finds the start of the binary section of a family-A artifact, trying the
/// marker spellings in order.
pub fn find_binary_marker(data: &[u8]) -> (r: Option<usize>)
    ensures
        binary_start(data@, r),
{
    let mut k: usize = 0;
    while k < 4
        invariant
            k <= 4,
            forall|m: int| 0 <= m < k ==> absent(data@, #[trigger] marker(m)),
        decreases 4 - k,
    {
        let m = marker_exec(k);
        match find_subsequence(data, m.as_slice()) {
            Some(pos) => {
                let n = data.len();
                proof {
                    assert(pos + m@.len() <= data@.len());
                }
                return Some(pos + m.len());
            },
            None => {},
        }
        k = k + 1;
    }
    None
}

/// The little-endian 64-bit word at `off`.
pub open spec fn le_u64(data: Seq<u8>, off: int) -> u64 {
    spec_u64_from_le_bytes(data.subrange(off, off + 8))
}

/// The little-endian 32-bit word at `off`.
pub open spec fn le_u32(data: Seq<u8>, off: int) -> u32 {
    spec_u32_from_le_bytes(data.subrange(off, off + 4))
}

pub fn read_u64_le(data: &[u8], off: usize) -> (r: u64)
    requires
        off + 8 <= data@.len(),
    ensures
        r == le_u64(data@, off as int),
{
    let n = data.len();
    let s = &data[off..off + 8];
    u64_from_le_bytes(s)
}

pub fn read_u32_le(data: &[u8], off: usize) -> (r: u32)
    requires
        off + 4 <= data@.len(),
    ensures
        r == le_u32(data@, off as int),
{
    let n = data.len();
    let s = &data[off..off + 4];
    u32_from_le_bytes(s)
}

} // verus!
