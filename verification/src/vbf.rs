//! VBF (Versatile Binary Format) parsing and the flash plan: the
//! brace-delimited text header with its named fields, the binary
//! block stream behind it, and the complete, ordered list of UDS
//! requests that flashes the file.

use vstd::prelude::*;

use crate::common::{hex_bytes_decode, spec_bytes_of_hex_b, spec_hex_valid_b, spec_trim_0x_b,
    vec_prefix, vec_range, vec_suffix};
use crate::doip::{push_u32_be, spec_u32_be};
use crate::error::TesterError;

verus! {

/// Characters trimmed around a field value: ASCII whitespace.
pub const TRIM_SPACES: u8 = 0;

/// Characters trimmed from a quoted value: quote and space.
pub const TRIM_QUOTE_SPACE: u8 = 1;

/// Characters trimmed around an erase pair entry: braces, whitespace
/// and the terminator.
pub const TRIM_ERASE: u8 = 2;

/// The byte classes the header parser trims.
pub open spec fn spec_in_trim_set(kind: int, b: u8) -> bool {
    if kind == TRIM_SPACES {
        b == 32 || b == 9 || b == 10 || b == 11 || b == 12 || b == 13
    } else if kind == TRIM_QUOTE_SPACE {
        b == 34 || b == 32
    } else {
        b == 123 || b == 125 || b == 32 || b == 10 || b == 9 || b == 13 || b == 12 || b == 59
    }
}

/// The sequence with every leading byte of the class removed.
pub open spec fn spec_trim_left(kind: int, s: Seq<u8>) -> Seq<u8>
    decreases s.len(),
{
    if s.len() > 0 && spec_in_trim_set(kind, s[0]) {
        spec_trim_left(kind, s.drop_first())
    } else {
        s
    }
}

/// The sequence with every trailing byte of the class removed.
pub open spec fn spec_trim_right(kind: int, s: Seq<u8>) -> Seq<u8>
    decreases s.len(),
{
    if s.len() > 0 && spec_in_trim_set(kind, s.last()) {
        spec_trim_right(kind, s.drop_last())
    } else {
        s
    }
}

/// The sequence trimmed on both sides.
pub open spec fn spec_trim(kind: int, s: Seq<u8>) -> Seq<u8> {
    spec_trim_right(kind, spec_trim_left(kind, s))
}

proof fn lemma_trim_left_is(kind: int, s: Seq<u8>, i: int)
    requires
        0 <= i <= s.len(),
        forall|j: int| 0 <= j < i ==> spec_in_trim_set(kind, #[trigger] s[j]),
        i < s.len() ==> !spec_in_trim_set(kind, s[i]),
    ensures
        spec_trim_left(kind, s) == s.skip(i),
    decreases s.len(),
{
    if s.len() == 0 {
        assert(s.skip(0) =~= s);
    } else if i == 0 {
        assert(s.skip(0) =~= s);
    } else {
        let t = s.drop_first();
        assert(forall|j: int| 0 <= j < i - 1 ==> spec_in_trim_set(kind, #[trigger] t[j]));
        lemma_trim_left_is(kind, t, i - 1);
        assert(t.skip(i - 1) =~= s.skip(i));
    }
}

proof fn lemma_trim_right_is(kind: int, s: Seq<u8>, k: int)
    requires
        0 <= k <= s.len(),
        forall|j: int| k <= j < s.len() ==> spec_in_trim_set(kind, #[trigger] s[j]),
        k > 0 ==> !spec_in_trim_set(kind, s[k - 1]),
    ensures
        spec_trim_right(kind, s) == s.take(k),
    decreases s.len(),
{
    if s.len() == 0 {
        assert(s.take(0) =~= s);
    } else if k == s.len() {
        assert(s.take(k) =~= s);
    } else {
        let t = s.drop_last();
        assert(spec_in_trim_set(kind, s.last()));
        assert(forall|j: int| k <= j < t.len() ==> spec_in_trim_set(kind, #[trigger] t[j]));
        lemma_trim_right_is(kind, t, k);
        assert(t.take(k) =~= s.take(k));
    }
}

/// Whether a byte belongs to a trim class.
fn in_trim_set(kind: u8, b: u8) -> (r: bool)
    ensures
        r == spec_in_trim_set(kind as int, b),
{
    if kind == TRIM_SPACES {
        b == 32 || b == 9 || b == 10 || b == 11 || b == 12 || b == 13
    } else if kind == TRIM_QUOTE_SPACE {
        b == 34 || b == 32
    } else {
        b == 123 || b == 125 || b == 32 || b == 10 || b == 9 || b == 13 || b == 12 || b == 59
    }
}

/// Removes every leading and trailing byte of a trim class.
fn trim_bytes(kind: u8, s: &Vec<u8>) -> (r: Vec<u8>)
    ensures
        r@ == spec_trim(kind as int, s@),
{
    let n = s.len();
    let mut i: usize = 0;
    while i < n && in_trim_set(kind, s[i])
        invariant
            0 <= i <= n,
            n == s@.len(),
            forall|j: int| 0 <= j < i ==> spec_in_trim_set(kind as int, #[trigger] s@[j]),
        decreases n - i,
    {
        i = i + 1;
    }
    proof {
        lemma_trim_left_is(kind as int, s@, i as int);
    }
    let ghost left = s@.skip(i as int);
    let mut k: usize = n;
    while k > i && in_trim_set(kind, s[k - 1])
        invariant
            i <= k <= n,
            n == s@.len(),
            forall|j: int| k <= j < n ==> spec_in_trim_set(kind as int, #[trigger] s@[j]),
        decreases k,
    {
        k = k - 1;
    }
    proof {
        assert(forall|j: int| k - i <= j < left.len()
            ==> spec_in_trim_set(kind as int, #[trigger] left[j]));
        if k > i {
            assert(left[k - i - 1] == s@[k as int - 1]);
        }
        lemma_trim_right_is(kind as int, left, k - i);
        assert(left.take(k - i) =~= s@.subrange(i as int, k as int));
    }
    vec_range(s, i, k)
}

/// Index of the first occurrence of a byte, if any.
pub open spec fn spec_find_byte(s: Seq<u8>, b: u8) -> Option<int>
    decreases s.len(),
{
    if s.len() == 0 {
        None
    } else if s[0] == b {
        Some(0int)
    } else {
        match spec_find_byte(s.drop_first(), b) {
            Some(i) => Some(i + 1),
            None => None,
        }
    }
}

proof fn lemma_find_byte_from_witness(s: Seq<u8>, b: u8, i: int)
    requires
        0 <= i < s.len(),
        s[i] == b,
        forall|j: int| 0 <= j < i ==> s[j] != b,
    ensures
        spec_find_byte(s, b) == Some(i),
    decreases s.len(),
{
    if i > 0 {
        let t = s.drop_first();
        assert(forall|j: int| 0 <= j < i - 1 ==> t[j] != b);
        assert(t[i - 1] == b);
        lemma_find_byte_from_witness(t, b, i - 1);
    }
}

proof fn lemma_find_byte_none(s: Seq<u8>, b: u8)
    requires
        forall|j: int| 0 <= j < s.len() ==> s[j] != b,
    ensures
        spec_find_byte(s, b) is None,
    decreases s.len(),
{
    if s.len() > 0 {
        let t = s.drop_first();
        assert(forall|j: int| 0 <= j < t.len() ==> t[j] != b);
        lemma_find_byte_none(t, b);
    }
}

/// First index of a byte at or after `from`, if any.
fn find_byte_from(s: &Vec<u8>, from: usize, b: u8) -> (r: Option<usize>)
    requires
        from <= s@.len(),
    ensures
        match r {
            Some(idx) => from <= idx < s@.len() && s@[idx as int] == b
                && forall|j: int| from <= j < idx ==> s@[j] != b,
            None => forall|j: int| from <= j < s@.len() ==> s@[j] != b,
        },
{
    let n = s.len();
    let mut i: usize = from;
    while i < n
        invariant
            from <= i <= n,
            n == s@.len(),
            forall|j: int| from <= j < i ==> s@[j] != b,
        decreases n - i,
    {
        if s[i] == b {
            return Some(i);
        }
        i = i + 1;
    }
    None
}

/// Index of the first occurrence of a byte sequence, if any.
pub open spec fn spec_find_subseq(h: Seq<u8>, needle: Seq<u8>) -> Option<int>
    decreases h.len(),
{
    if h.len() < needle.len() {
        None
    } else if h.take(needle.len() as int) =~= needle {
        Some(0int)
    } else if h.len() == 0 {
        None
    } else {
        match spec_find_subseq(h.drop_first(), needle) {
            Some(i) => Some(i + 1),
            None => None,
        }
    }
}

proof fn lemma_find_subseq_from_witness(h: Seq<u8>, needle: Seq<u8>, i: int)
    requires
        0 <= i,
        i + needle.len() <= h.len(),
        h.subrange(i, i + needle.len() as int) =~= needle,
        forall|q: int| 0 <= q < i ==> !(#[trigger] h.subrange(q, q + needle.len() as int) =~= needle),
    ensures
        spec_find_subseq(h, needle) == Some(i),
    decreases h.len(),
{
    if i == 0 {
        assert(h.take(needle.len() as int) =~= h.subrange(0, needle.len() as int));
    } else {
        assert(!(h.subrange(0int, 0int + needle.len() as int) =~= needle));
        assert(h.take(needle.len() as int) =~= h.subrange(0int, 0int + needle.len() as int));
        assert(!(h.take(needle.len() as int) =~= needle));
        let t = h.drop_first();
        assert(t.subrange(i - 1, i - 1 + needle.len() as int) =~= h.subrange(
            i,
            i + needle.len() as int,
        ));
        assert forall|q: int| 0 <= q < i - 1 implies !(#[trigger] t.subrange(
            q,
            q + needle.len() as int,
        ) =~= needle) by {
            assert(t.subrange(q, q + needle.len() as int) =~= h.subrange(
                q + 1,
                q + 1 + needle.len() as int,
            ));
        }
        lemma_find_subseq_from_witness(t, needle, i - 1);
    }
}

proof fn lemma_find_subseq_none(h: Seq<u8>, needle: Seq<u8>)
    requires
        forall|q: int| 0 <= q && q + needle.len() <= h.len() ==> !(#[trigger] h.subrange(
            q,
            q + needle.len() as int,
        ) =~= needle),
    ensures
        spec_find_subseq(h, needle) is None,
    decreases h.len(),
{
    if h.len() >= needle.len() {
        assert(!(h.subrange(0int, 0int + needle.len() as int) =~= needle));
        assert(h.take(needle.len() as int) =~= h.subrange(0int, 0int + needle.len() as int));
        assert(!(h.take(needle.len() as int) =~= needle));
        if h.len() > 0 {
            let t = h.drop_first();
            assert forall|q: int| 0 <= q && q + needle.len() <= t.len() implies !(
            #[trigger] t.subrange(
                q,
                q + needle.len() as int,
            ) =~= needle) by {
                assert(t.subrange(q, q + needle.len() as int) =~= h.subrange(
                    q + 1,
                    q + 1 + needle.len() as int,
                ));
            }
            lemma_find_subseq_none(t, needle);
        }
    }
}

/// First index where a byte sequence occurs, if any.
fn find_subseq(h: &Vec<u8>, needle: &Vec<u8>) -> (r: Option<usize>)
    ensures
        r is Some <==> spec_find_subseq(h@, needle@) is Some,
        r matches Some(i) ==> (spec_find_subseq(h@, needle@) == Some(i as int) && i
            + needle@.len() <= h@.len()),
{
    let n = h.len();
    let m = needle.len();
    if m > n {
        proof {
            lemma_find_subseq_none(h@, needle@);
        }
        return None;
    }
    let mut i: usize = 0;
    while i <= n - m
        invariant
            0 <= i <= n - m + 1,
            m <= n,
            n == h@.len(),
            m == needle@.len(),
            forall|q: int| 0 <= q < i ==> !(#[trigger] h@.subrange(q, q + m as int) =~= needle@),
        decreases n - m - i + 1,
    {
        let mut j: usize = 0;
        let mut matched = true;
        while j < m
            invariant
                0 <= j <= m,
                i + m <= n,
                n == h@.len(),
                m == needle@.len(),
                matched <==> (forall|q: int| 0 <= q < j ==> h@[i + q] == needle@[q]),
            decreases m - j,
        {
            if h[i + j] != needle[j] {
                matched = false;
                proof {
                    assert(h@[i as int + j as int] != needle@[j as int]);
                }
                j = m;
            } else {
                j = j + 1;
            }
        }
        if matched {
            proof {
                assert(h@.subrange(i as int, i as int + m as int) =~= needle@);
                lemma_find_subseq_from_witness(h@, needle@, i as int);
            }
            return Some(i);
        }
        proof {
            assert(!(h@.subrange(i as int, i as int + m as int) =~= needle@));
        }
        i = i + 1;
    }
    proof {
        lemma_find_subseq_none(h@, needle@);
    }
    None
}

/// The value of a named header field: the text after the field's
/// first occurrence up to the terminating `;`, whitespace trimmed, a
/// leading `=` dropped, then quotes and spaces trimmed; empty when
/// the field or the terminator is missing.
pub open spec fn spec_extract_value(contents: Seq<u8>, field: Seq<u8>) -> Seq<u8> {
    match spec_find_subseq(contents, field) {
        None => Seq::<u8>::empty(),
        Some(fi) => {
            let start = fi + field.len();
            match spec_find_byte(contents.skip(start as int), 59) {
                None => Seq::<u8>::empty(),
                Some(e) => {
                    let raw = contents.subrange(start as int, start as int + e);
                    let v1 = spec_trim(TRIM_SPACES as int, raw);
                    let v2 = if v1.len() > 0 && v1[0] == 61 {
                        v1.drop_first()
                    } else {
                        v1
                    };
                    spec_trim(TRIM_QUOTE_SPACE as int, v2)
                },
            }
        },
    }
}

/// Extracts a named field's value from the header text (see
/// [`spec_extract_value`]).
pub fn extract_value(contents: &Vec<u8>, field: &Vec<u8>) -> (r: Vec<u8>)
    ensures
        r@ == spec_extract_value(contents@, field@),
{
    let n = contents.len();
    let fi = match find_subseq(contents, field) {
        Some(fi) => fi,
        None => {
            return Vec::new();
        },
    };
    let start = fi + field.len();
    let ghost rest = contents@.skip(start as int);
    let idx = match find_byte_from(contents, start, 59) {
        Some(idx) => idx,
        None => {
            proof {
                assert(forall|j: int| 0 <= j < rest.len() ==> rest[j] != 59);
                lemma_find_byte_none(rest, 59);
            }
            return Vec::new();
        },
    };
    proof {
        assert(rest[idx - start] == 59);
        assert(forall|j: int| 0 <= j < idx - start ==> rest[j] != 59);
        lemma_find_byte_from_witness(rest, 59, idx - start);
    }
    let raw = vec_range(contents, start, idx);
    let v1 = trim_bytes(TRIM_SPACES, &raw);
    let v2 = if v1.len() > 0 && v1[0] == 61 {
        let t = vec_suffix(&v1, 1);
        proof {
            assert(t@ =~= v1@.drop_first());
        }
        t
    } else {
        v1
    };
    trim_bytes(TRIM_QUOTE_SPACE, &v2)
}

/// The start and length entries of an erase pair `{start, length}`:
/// defined when the text holds exactly one comma, each side trimmed
/// of braces, whitespace and terminators; empty otherwise.
pub open spec fn spec_extract_erase(s: Seq<u8>) -> (Seq<u8>, Seq<u8>) {
    match spec_find_byte(s, 44) {
        Some(i) => if spec_find_byte(s.skip(i + 1), 44) is None {
            (
                spec_trim(TRIM_ERASE as int, s.take(i)),
                spec_trim(TRIM_ERASE as int, s.skip(i + 1)),
            )
        } else {
            (Seq::<u8>::empty(), Seq::<u8>::empty())
        },
        None => (Seq::<u8>::empty(), Seq::<u8>::empty()),
    }
}

/// Splits an erase pair into its start-address and length strings
/// (see [`spec_extract_erase`]).
pub fn extract_erase_values(erase_content: &Vec<u8>) -> (r: (Vec<u8>, Vec<u8>))
    ensures
        r.0@ == spec_extract_erase(erase_content@).0,
        r.1@ == spec_extract_erase(erase_content@).1,
{
    let n = erase_content.len();
    let i = match find_byte_from(erase_content, 0, 44) {
        Some(i) => i,
        None => {
            proof {
                lemma_find_byte_none(erase_content@, 44);
            }
            return (Vec::new(), Vec::new());
        },
    };
    proof {
        lemma_find_byte_from_witness(erase_content@, 44, i as int);
    }
    let ghost rest = erase_content@.skip(i as int + 1);
    match find_byte_from(erase_content, i + 1, 44) {
        Some(j) => {
            proof {
                assert(rest[j - i - 1] == 44);
                assert(forall|q: int| 0 <= q < j - i - 1 ==> rest[q] != 44);
                lemma_find_byte_from_witness(rest, 44, j - i - 1);
            }
            (Vec::new(), Vec::new())
        },
        None => {
            proof {
                assert(forall|q: int| 0 <= q < rest.len() ==> rest[q] != 44);
                lemma_find_byte_none(rest, 44);
            }
            let head = vec_range(erase_content, 0, i);
            let tail = vec_suffix(erase_content, i + 1);
            proof {
                assert(head@ =~= erase_content@.take(i as int));
            }
            let start = trim_bytes(TRIM_ERASE, &head);
            let length = trim_bytes(TRIM_ERASE, &tail);
            (start, length)
        },
    }
}

/// Where the brace-delimited header block ends, scanning from `i`
/// with the current brace depth: the index just past the closing
/// brace of the top-level block, or the end of the data when the
/// block never closes.
pub open spec fn spec_header_scan(d: Seq<u8>, i: int, depth: int, inside: bool) -> int
    decreases d.len() - i,
{
    if i < 0 || i >= d.len() {
        d.len() as int
    } else if !inside {
        if d[i] == 123 {
            spec_header_scan(d, i + 1, 1, true)
        } else {
            spec_header_scan(d, i + 1, 0, false)
        }
    } else if d[i] == 123 {
        spec_header_scan(d, i + 1, depth + 1, true)
    } else if d[i] == 125 {
        if depth == 1 {
            i + 1
        } else {
            spec_header_scan(d, i + 1, depth - 1, true)
        }
    } else {
        spec_header_scan(d, i + 1, depth, true)
    }
}

/// The header's extent: everything up to and including the closing
/// brace of the first top-level block.
pub open spec fn spec_header_end(d: Seq<u8>) -> int {
    spec_header_scan(d, 0, 0, false)
}

proof fn lemma_header_scan_bounds(d: Seq<u8>, i: int, depth: int, inside: bool)
    requires
        0 <= i <= d.len(),
    ensures
        i <= spec_header_scan(d, i, depth, inside) <= d.len(),
    decreases d.len() - i,
{
    if i < d.len() {
        if !inside {
            if d[i] == 123 {
                lemma_header_scan_bounds(d, i + 1, 1, true);
            } else {
                lemma_header_scan_bounds(d, i + 1, 0, false);
            }
        } else if d[i] == 123 {
            lemma_header_scan_bounds(d, i + 1, depth + 1, true);
        } else if d[i] == 125 {
            if depth != 1 {
                lemma_header_scan_bounds(d, i + 1, depth - 1, true);
            }
        } else {
            lemma_header_scan_bounds(d, i + 1, depth, true);
        }
    }
}

/// Scans to the end of the header block by counting braces.
pub fn vbf_header_end(data: &Vec<u8>) -> (r: usize)
    ensures
        r == spec_header_end(data@),
        r <= data@.len(),
{
    let ghost d = data@;
    let n = data.len();
    let mut i: usize = 0;
    let mut depth: usize = 0;
    let mut inside: bool = false;
    loop
        invariant_except_break
            spec_header_end(d) == spec_header_scan(d, i as int, depth as int, inside),
        invariant
            d == data@,
            n == d.len(),
            0 <= i <= n,
            depth <= i,
            inside ==> depth >= 1,
            !inside ==> depth == 0,
        ensures
            d == data@,
            n == d.len(),
            0 <= i <= n,
            spec_header_end(d) == i,
        decreases n - i,
    {
        if i == n {
            break;
        }
        let b = data[i];
        if !inside {
            if b == 123 {
                inside = true;
                depth = 1;
            }
        } else if b == 123 {
            depth = depth + 1;
        } else if b == 125 {
            if depth == 1 {
                i = i + 1;
                break;
            }
            depth = depth - 1;
        }
        i = i + 1;
    }
    proof {
        lemma_header_scan_bounds(d, 0, 0, false);
    }
    i
}

/// The 32-bit big-endian value at an offset.
pub open spec fn spec_u32_at(d: Seq<u8>, i: int) -> int {
    0x1000000 * d[i] + 0x10000 * d[i + 1] + 0x100 * d[i + 2] + d[i + 3]
}

/// Reads a 32-bit big-endian value.
fn read_u32_be(data: &Vec<u8>, i: usize) -> (r: u32)
    requires
        i + 4 <= data@.len(),
    ensures
        r == spec_u32_at(data@, i as int),
{
    let n = data.len();
    (data[i] as u32) * 0x1000000 + (data[i + 1] as u32) * 0x10000 + (data[i + 2] as u32) * 0x100
        + (data[i + 3] as u32)
}

/// The kind of one flash-protocol request.
#[derive(Clone, Copy, Debug, PartialEq, Eq, Structural)]
pub enum FlashStepKind {
    /// Routine control: erase memory.
    Erase,
    /// Request download of one block.
    RequestDownload,
    /// One transfer-data chunk.
    TransferData,
    /// Transfer exit after a block.
    TransferExit,
    /// Routine control: check memory against the signature.
    CheckMemory,
}

/// One planned UDS request of the flash protocol.
#[derive(Debug)]
pub struct FlashRequest {
    /// What step of the protocol this request performs.
    pub kind: FlashStepKind,
    /// The UDS bytes to send.
    pub request: Vec<u8>,
}

/// The plan as the specification sees it: each request's kind and
/// bytes.
pub open spec fn spec_plan_view(rs: Seq<FlashRequest>) -> Seq<(FlashStepKind, Seq<u8>)> {
    rs.map_values(|fr: FlashRequest| (fr.kind, fr.request@))
}

/// The block sequence counter: starts at 1 and wraps from 255 to 0.
pub open spec fn spec_next_seq(s: u8) -> u8 {
    if s == 255 {
        0u8
    } else {
        (s + 1) as u8
    }
}

/// The transfer-data requests for a block body: chunks of at most
/// `max` bytes, each prefixed with the service byte and the running
/// sequence counter.
pub open spec fn spec_transfer_chunks(body: Seq<u8>, seqnum: u8, max: int) -> Seq<
    (FlashStepKind, Seq<u8>),
>
    decreases body.len(),
{
    if body.len() == 0 || max <= 0 {
        Seq::empty()
    } else {
        let c = if max < body.len() {
            max
        } else {
            body.len() as int
        };
        seq![(FlashStepKind::TransferData, seq![0x36u8, seqnum] + body.take(c))]
            + spec_transfer_chunks(body.skip(c), spec_next_seq(seqnum), max)
    }
}

/// The requests for the block stream from offset `i` on: per block a
/// request-download, its transfer chunks and a transfer-exit, with
/// the two checksum bytes skipped; nothing when fewer than four bytes
/// remain, and no plan at all when a block is truncated.
pub open spec fn spec_block_plan(d: Seq<u8>, i: int, max: int) -> Option<
    Seq<(FlashStepKind, Seq<u8>)>,
>
    decreases d.len() - i,
{
    if i + 4 > d.len() {
        Some(Seq::empty())
    } else if i + 8 > d.len() {
        None
    } else {
        let start = spec_u32_at(d, i);
        let blen = spec_u32_at(d, i + 4);
        if i + 8 + blen + 2 > d.len() {
            None
        } else {
            let body = d.subrange(i + 8, i + 8 + blen);
            let head = seq![
                (
                    FlashStepKind::RequestDownload,
                    seq![0x34u8, 0x00u8, 0x44u8] + spec_u32_be(start as u32) + spec_u32_be(
                        blen as u32,
                    ),
                ),
            ];
            let exit = seq![(FlashStepKind::TransferExit, seq![0x37u8])];
            match spec_block_plan(d, i + 8 + blen + 2, max) {
                None => None,
                Some(rest) => Some(
                    head + spec_transfer_chunks(body, 1u8, max) + exit + rest,
                ),
            }
        }
    }
}

/// The hex bytes a header field denotes, or nothing when it does not
/// decode.
pub open spec fn spec_hex_or_empty(s: Seq<u8>) -> Seq<u8> {
    if spec_hex_valid_b(spec_trim_0x_b(s)) {
        spec_bytes_of_hex_b(spec_trim_0x_b(s))
    } else {
        Seq::<u8>::empty()
    }
}

/// The erase request: routine control erase-memory with the start
/// address and length from the header.
pub open spec fn spec_erase_request(es: Seq<u8>, el: Seq<u8>) -> Seq<u8> {
    seq![0x31u8, 0x01u8, 0xffu8, 0x00u8] + spec_hex_or_empty(es) + spec_hex_or_empty(el)
}

/// The check-memory request: routine control with the development
/// signature from the header.
pub open spec fn spec_check_memory_request(sig: Seq<u8>) -> Seq<u8> {
    seq![0x31u8, 0x01u8, 0x02u8, 0x12u8] + spec_hex_or_empty(sig)
}

/// The `erase` field's name.
pub open spec fn spec_field_erase() -> Seq<u8> {
    seq![101u8, 114u8, 97u8, 115u8, 101u8]
}

/// The `sw_signature_dev` field's name.
pub open spec fn spec_field_signature() -> Seq<u8> {
    seq![
        115u8, 119u8, 95u8, 115u8, 105u8, 103u8, 110u8, 97u8, 116u8, 117u8, 114u8, 101u8, 95u8,
        100u8, 101u8, 118u8,
    ]
}

/// The whole flash plan for a VBF file: the erase request when the
/// header names an erase pair, then the block stream's requests, then
/// the check-memory request; no plan when a block is truncated.
pub open spec fn spec_flash_plan(d: Seq<u8>, max: int) -> Option<Seq<(FlashStepKind, Seq<u8>)>> {
    let hend = spec_header_end(d);
    let header = d.take(hend);
    let erase_field = spec_extract_value(header, spec_field_erase());
    let pair = spec_extract_erase(erase_field);
    let sig = spec_extract_value(header, spec_field_signature());
    let front = if pair.0.len() > 0 && pair.1.len() > 0 {
        seq![(FlashStepKind::Erase, spec_erase_request(pair.0, pair.1))]
    } else {
        Seq::empty()
    };
    let back = seq![(FlashStepKind::CheckMemory, spec_check_memory_request(sig))];
    match spec_block_plan(d, hend, max) {
        None => None,
        Some(blocks) => Some(front + blocks + back),
    }
}

/// Appends a field's decoded hex bytes, or nothing when the field
/// does not decode.
fn push_hex_or_empty(out: &mut Vec<u8>, field: &Vec<u8>)
    ensures
        final(out)@ == old(out)@ + spec_hex_or_empty(field@),
{
    match hex_bytes_decode(field) {
        Some(mut b) => {
            out.append(&mut b);
        },
        None => {
            proof {
                assert(old(out)@ + spec_hex_or_empty(field@) =~= old(out)@);
            }
        },
    }
}

proof fn lemma_plan_view_push(rs: Seq<FlashRequest>, fr: FlashRequest)
    ensures
        spec_plan_view(rs.push(fr)) =~= spec_plan_view(rs) + seq![(fr.kind, fr.request@)],
{
}

/// Appends the request-download message for one block.
fn push_request_download(plan: &mut Vec<FlashRequest>, block_start: u32, block_len: u32)
    ensures
        spec_plan_view(final(plan)@) =~= spec_plan_view(old(plan)@) + seq![
            (
                FlashStepKind::RequestDownload,
                seq![0x34u8, 0x00u8, 0x44u8] + spec_u32_be(block_start) + spec_u32_be(block_len),
            ),
        ],
{
    let ghost plan0 = plan@;
    let mut req: Vec<u8> = Vec::new();
    req.push(0x34);
    req.push(0x00);
    req.push(0x44);
    proof {
        assert(req@ =~= seq![0x34u8, 0x00u8, 0x44u8]);
    }
    push_u32_be(&mut req, block_start);
    push_u32_be(&mut req, block_len);
    let ghost reqv = req@;
    plan.push(FlashRequest { kind: FlashStepKind::RequestDownload, request: req });
    proof {
        lemma_plan_view_push(plan0, plan@.last());
        assert(reqv =~= seq![0x34u8, 0x00u8, 0x44u8] + spec_u32_be(block_start) + spec_u32_be(
            block_len,
        ));
        assert(spec_plan_view(plan@) =~= spec_plan_view(plan0) + seq![
            (
                FlashStepKind::RequestDownload,
                seq![0x34u8, 0x00u8, 0x44u8] + spec_u32_be(block_start) + spec_u32_be(block_len),
            ),
        ]);
    }
}

/// Appends the transfer-exit message.
fn push_transfer_exit(plan: &mut Vec<FlashRequest>)
    ensures
        spec_plan_view(final(plan)@) =~= spec_plan_view(old(plan)@) + seq![
            (FlashStepKind::TransferExit, seq![0x37u8]),
        ],
{
    let ghost plan0 = plan@;
    let mut req: Vec<u8> = Vec::new();
    req.push(0x37);
    proof {
        assert(req@ =~= seq![0x37u8]);
    }
    plan.push(FlashRequest { kind: FlashStepKind::TransferExit, request: req });
    proof {
        lemma_plan_view_push(plan0, plan@.last());
        assert(spec_plan_view(plan@) =~= spec_plan_view(plan0) + seq![
            (FlashStepKind::TransferExit, seq![0x37u8]),
        ]);
    }
}

/// Appends one block's transfer-data chunks to the plan.
fn push_transfer_chunks(
    data: &Vec<u8>,
    i: usize,
    blen: usize,
    max_buffer_len: u32,
    plan: &mut Vec<FlashRequest>,
)
    requires
        max_buffer_len > 0,
        i + 8 + blen <= data@.len(),
    ensures
        spec_plan_view(final(plan)@) =~= spec_plan_view(old(plan)@) + spec_transfer_chunks(
            data@.subrange(i as int + 8, i as int + 8 + blen as int),
            1u8,
            max_buffer_len as int,
        ),
{
    let ghost d = data@;
    let ghost max = max_buffer_len as int;
    let ghost body = d.subrange(i as int + 8, i as int + 8 + blen as int);
    let n = data.len();
    let mut off: usize = 0;
    let mut seqnum: u8 = 1;
    let ghost plan_h = plan@;
    proof {
        assert(body.skip(0) =~= body);
    }
    loop
        invariant
            d == data@,
            n == d.len(),
            max == max_buffer_len as int,
            max > 0,
            i + 8 + blen <= n,
            body == d.subrange(i as int + 8, i as int + 8 + blen as int),
            0 <= off <= blen,
            spec_plan_view(plan_h) + spec_transfer_chunks(body, 1u8, max) =~= spec_plan_view(
                plan@,
            ) + spec_transfer_chunks(body.skip(off as int), seqnum, max),
        ensures
            spec_plan_view(plan@) =~= spec_plan_view(plan_h) + spec_transfer_chunks(
                body,
                1u8,
                max,
            ),
        decreases blen - off,
    {
        if off == blen {
            proof {
                assert(body.skip(off as int) =~= Seq::<u8>::empty());
                assert(spec_transfer_chunks(body.skip(off as int), seqnum, max) =~= Seq::<
                    (FlashStepKind, Seq<u8>),
                >::empty());
                assert(spec_plan_view(plan@) + Seq::<(FlashStepKind, Seq<u8>)>::empty()
                    =~= spec_plan_view(plan@));
            }
            break;
        }
        let remaining = blen - off;
        let c: usize = if (max_buffer_len as usize) < remaining {
            max_buffer_len as usize
        } else {
            remaining
        };
        let mut chunk_req: Vec<u8> = Vec::new();
        chunk_req.push(0x36);
        chunk_req.push(seqnum);
        let mut chunk = vec_range(data, i + 8 + off, i + 8 + off + c);
        chunk_req.append(&mut chunk);
        let ghost prev = plan@;
        let ghost tail = body.skip(off as int);
        let ghost cc: int = if max < tail.len() {
            max
        } else {
            tail.len() as int
        };
        let ghost pair = (FlashStepKind::TransferData, seq![0x36u8, seqnum] + tail.take(cc));
        proof {
            assert(cc == c as int);
            assert(tail.take(cc) =~= d.subrange(
                i as int + 8 + off as int,
                i as int + 8 + off as int + c as int,
            ));
            assert(chunk_req@ =~= pair.1);
            assert(tail.skip(cc) =~= body.skip(off as int + c as int));
        }
        let ghost old_seqnum = seqnum;
        plan.push(FlashRequest { kind: FlashStepKind::TransferData, request: chunk_req });
        if seqnum == 255 {
            seqnum = 0;
        } else {
            seqnum = seqnum + 1;
        }
        proof {
            lemma_plan_view_push(prev, plan@.last());
            assert(spec_plan_view(plan@) =~= spec_plan_view(prev) + seq![pair]);
            assert(seqnum == spec_next_seq(old_seqnum));
            assert(spec_transfer_chunks(tail, old_seqnum, max) =~= seq![pair]
                + spec_transfer_chunks(tail.skip(cc), seqnum, max));
            assert(spec_plan_view(plan_h) + spec_transfer_chunks(body, 1u8, max)
                =~= spec_plan_view(plan@) + spec_transfer_chunks(
                body.skip(off as int + c as int),
                seqnum,
                max,
            ));
        }
        off = off + c;
    }
}

/// Appends one block's requests to the plan: the request-download,
/// the transfer chunks and the transfer-exit.
fn build_block_requests(
    data: &Vec<u8>,
    i: usize,
    blen: usize,
    block_start: u32,
    block_len: u32,
    max_buffer_len: u32,
    plan: &mut Vec<FlashRequest>,
)
    requires
        max_buffer_len > 0,
        i + 8 + blen <= data@.len(),
        block_start == spec_u32_at(data@, i as int),
        block_len == spec_u32_at(data@, i as int + 4),
        blen == block_len,
    ensures
        spec_plan_view(final(plan)@) =~= spec_plan_view(old(plan)@) + (seq![
            (
                FlashStepKind::RequestDownload,
                seq![0x34u8, 0x00u8, 0x44u8] + spec_u32_be(spec_u32_at(data@, i as int) as u32)
                    + spec_u32_be(spec_u32_at(data@, i as int + 4) as u32),
            ),
        ] + spec_transfer_chunks(
            data@.subrange(i as int + 8, i as int + 8 + blen as int),
            1u8,
            max_buffer_len as int,
        ) + seq![(FlashStepKind::TransferExit, seq![0x37u8])]),
{
    let ghost d = data@;
    let ghost max = max_buffer_len as int;
    let ghost body = d.subrange(i as int + 8, i as int + 8 + blen as int);
    let ghost plan0 = plan@;
    proof {
        assert(spec_u32_at(d, i as int) as u32 == block_start);
        assert(spec_u32_at(d, i as int + 4) as u32 == block_len);
    }
    push_request_download(plan, block_start, block_len);
    let ghost plan1 = plan@;
    push_transfer_chunks(data, i, blen, max_buffer_len, plan);
    let ghost plan2 = plan@;
    push_transfer_exit(plan);
    proof {
        let head = seq![
            (
                FlashStepKind::RequestDownload,
                seq![0x34u8, 0x00u8, 0x44u8] + spec_u32_be(block_start) + spec_u32_be(block_len),
            ),
        ];
        let chunks = spec_transfer_chunks(body, 1u8, max);
        let exit = seq![(FlashStepKind::TransferExit, seq![0x37u8])];
        assert(spec_plan_view(plan1) =~= spec_plan_view(plan0) + head);
        assert(spec_plan_view(plan2) =~= spec_plan_view(plan1) + chunks);
        assert(spec_plan_view(plan@) =~= spec_plan_view(plan2) + exit);
        assert(spec_plan_view(plan@) =~= spec_plan_view(plan0) + (head + chunks + exit));
    }
}

/// The expect pattern for each flash-protocol step, matched against
/// the ECU's reply: a positive response to the erase routine, to the
/// download services, and the explicit success pattern of the
/// check-memory routine.
pub fn expect_pattern(kind: FlashStepKind) -> (r: &'static str)
    ensures
        match kind {
            FlashStepKind::Erase => r@ =~= "7101ff00*"@,
            FlashStepKind::RequestDownload => r@ =~= "74*"@,
            FlashStepKind::TransferData => r@ =~= "76*"@,
            FlashStepKind::TransferExit => r@ =~= "77*"@,
            FlashStepKind::CheckMemory => r@ =~= "710102121000*"@,
        },
{
    match kind {
        FlashStepKind::Erase => "7101ff00*",
        FlashStepKind::RequestDownload => "74*",
        FlashStepKind::TransferData => "76*",
        FlashStepKind::TransferExit => "77*",
        FlashStepKind::CheckMemory => "710102121000*",
    }
}

/// Plans the whole flash of a VBF file (see [`spec_flash_plan`]): the
/// requests in order, each with its protocol step; `InvalidData` when
/// the block stream is truncated.
pub fn plan_flash(data: &Vec<u8>, max_buffer_len: u32) -> (r: Result<Vec<FlashRequest>, TesterError>)
    requires
        max_buffer_len > 0,
    ensures
        r is Ok <==> spec_flash_plan(data@, max_buffer_len as int) is Some,
        r matches Ok(plan) ==> spec_plan_view(plan@) =~= spec_flash_plan(
            data@,
            max_buffer_len as int,
        ).unwrap(),
        r is Err ==> r.unwrap_err() == TesterError::InvalidData,
{
    let ghost d = data@;
    let ghost max = max_buffer_len as int;
    let n = data.len();
    let hend = vbf_header_end(data);
    let header = vec_prefix(data, hend);
    let mut field_erase: Vec<u8> = Vec::new();
    field_erase.push(101);
    field_erase.push(114);
    field_erase.push(97);
    field_erase.push(115);
    field_erase.push(101);
    proof {
        assert(field_erase@ =~= spec_field_erase());
    }
    let erase_field = extract_value(&header, &field_erase);
    let pair = extract_erase_values(&erase_field);
    let mut plan: Vec<FlashRequest> = Vec::new();
    if pair.0.len() > 0 && pair.1.len() > 0 {
        let mut req: Vec<u8> = Vec::new();
        req.push(0x31);
        req.push(0x01);
        req.push(0xff);
        req.push(0x00);
        proof {
            assert(req@ =~= seq![0x31u8, 0x01u8, 0xffu8, 0x00u8]);
        }
        push_hex_or_empty(&mut req, &pair.0);
        push_hex_or_empty(&mut req, &pair.1);
        let ghost plan0 = plan@;
        plan.push(FlashRequest { kind: FlashStepKind::Erase, request: req });
        proof {
            lemma_plan_view_push(plan0, plan@.last());
        }
    }
    let ghost front = spec_plan_view(plan@);
    proof {
        let header_seq = d.take(spec_header_end(d));
        let ef = spec_extract_value(header_seq, spec_field_erase());
        let p = spec_extract_erase(ef);
        if p.0.len() > 0 && p.1.len() > 0 {
            assert(front =~= seq![(FlashStepKind::Erase, spec_erase_request(p.0, p.1))]);
        } else {
            assert(front =~= Seq::<(FlashStepKind, Seq<u8>)>::empty());
        }
    }
    let mut i: usize = hend;
    loop
        invariant
            d == data@,
            n == d.len(),
            max == max_buffer_len as int,
            max > 0,
            hend <= i <= n,
            hend == spec_header_end(d),
            front.len() <= spec_plan_view(plan@).len(),
            spec_plan_view(plan@).take(front.len() as int) =~= front,
            (spec_block_plan(d, i as int, max) matches Some(rest) ==> (spec_block_plan(
                d,
                hend as int,
                max,
            ) matches Some(full) && full =~= spec_plan_view(plan@).skip(front.len() as int)
                + rest)),
            spec_block_plan(d, i as int, max) is None ==> spec_block_plan(
                d,
                hend as int,
                max,
            ) is None,
        ensures
            d == data@,
            n == d.len(),
            hend == spec_header_end(d),
            front.len() <= spec_plan_view(plan@).len(),
            spec_block_plan(d, hend as int, max) matches Some(full) && full =~= spec_plan_view(
                plan@,
            ).skip(front.len() as int),
            spec_plan_view(plan@).take(front.len() as int) =~= front,
        decreases n - i,
    {
        if n - i < 4 {
            proof {
                assert(spec_block_plan(d, i as int, max) == Some(
                    Seq::<(FlashStepKind, Seq<u8>)>::empty(),
                ));
                assert(spec_plan_view(plan@).skip(front.len() as int)
                    + Seq::<(FlashStepKind, Seq<u8>)>::empty() =~= spec_plan_view(plan@).skip(
                    front.len() as int,
                ));
            }
            break;
        }
        if n - i < 8 {
            proof {
                assert(spec_block_plan(d, i as int, max) is None);
            }
            return Err(TesterError::InvalidData);
        }
        let block_start = read_u32_be(data, i);
        let block_len = read_u32_be(data, i + 4);
        if (block_len as u64) + 10 > (n as u64) - (i as u64) {
            proof {
                assert(i as int + 8 + spec_u32_at(d, i as int + 4) + 2 > d.len());
                assert(spec_block_plan(d, i as int, max) is None);
            }
            return Err(TesterError::InvalidData);
        }
        let blen = block_len as usize;
        let ghost plan_before = plan@;
        let ghost body = d.subrange(i as int + 8, i as int + 8 + blen as int);
        let ghost step = seq![
            (
                FlashStepKind::RequestDownload,
                seq![0x34u8, 0x00u8, 0x44u8] + spec_u32_be(spec_u32_at(d, i as int) as u32)
                    + spec_u32_be(spec_u32_at(d, i as int + 4) as u32),
            ),
        ] + spec_transfer_chunks(body, 1u8, max) + seq![
            (FlashStepKind::TransferExit, seq![0x37u8]),
        ];
        build_block_requests(data, i, blen, block_start, block_len, max_buffer_len, &mut plan);
        proof {
            let next = i as int + 8 + blen as int + 2;
            assert(spec_plan_view(plan@) =~= spec_plan_view(plan_before) + step);
            assert(spec_plan_view(plan@).take(front.len() as int) =~= front);
            assert(spec_plan_view(plan@).skip(front.len() as int) =~= spec_plan_view(
                plan_before,
            ).skip(front.len() as int) + step);
            if spec_block_plan(d, next, max) is Some {
                let rest = spec_block_plan(d, next, max).unwrap();
                assert(spec_block_plan(d, i as int, max) == Some(step + rest));
                let full = spec_block_plan(d, hend as int, max).unwrap();
                assert(full =~= spec_plan_view(plan_before).skip(front.len() as int) + (step
                    + rest));
                assert(full =~= spec_plan_view(plan@).skip(front.len() as int) + rest);
            } else {
                assert(spec_block_plan(d, i as int, max) is None);
            }
        }
        i = i + 8 + blen + 2;
    }
    let mut sig_name: Vec<u8> = Vec::new();
    sig_name.push(115);
    sig_name.push(119);
    sig_name.push(95);
    sig_name.push(115);
    sig_name.push(105);
    sig_name.push(103);
    sig_name.push(110);
    sig_name.push(97);
    sig_name.push(116);
    sig_name.push(117);
    sig_name.push(114);
    sig_name.push(101);
    sig_name.push(95);
    sig_name.push(100);
    sig_name.push(101);
    sig_name.push(118);
    proof {
        assert(sig_name@ =~= spec_field_signature());
    }
    let sig = extract_value(&header, &sig_name);
    let mut check_req: Vec<u8> = Vec::new();
    check_req.push(0x31);
    check_req.push(0x01);
    check_req.push(0x02);
    check_req.push(0x12);
    proof {
        assert(check_req@ =~= seq![0x31u8, 0x01u8, 0x02u8, 0x12u8]);
    }
    push_hex_or_empty(&mut check_req, &sig);
    let ghost plan_pre_check = plan@;
    let ghost checkv = check_req@;
    plan.push(FlashRequest { kind: FlashStepKind::CheckMemory, request: check_req });
    proof {
        lemma_plan_view_push(plan_pre_check, plan@.last());
        let header_seq = d.take(spec_header_end(d));
        assert(header@ =~= header_seq);
        assert(checkv =~= spec_check_memory_request(spec_extract_value(
            header_seq,
            spec_field_signature(),
        )));
        let blocks = spec_plan_view(plan_pre_check).skip(front.len() as int);
        let back = seq![
            (
                FlashStepKind::CheckMemory,
                spec_check_memory_request(spec_extract_value(
                    header_seq,
                    spec_field_signature(),
                )),
            ),
        ];
        assert(spec_flash_plan(d, max) == Some(front + blocks + back));
        assert(spec_plan_view(plan_pre_check) =~= front + blocks);
        assert(spec_plan_view(plan@) =~= front + blocks + back);
    }
    Ok(plan)
}

} // verus!
