//! The wire format of a question name, as a mathematical model.
//!
//! A name is a run of labels, each a length byte `1..=63` followed by that many
//! bytes, closed by a zero byte or by a two-byte pointer whose top two bits are
//! set and whose low 14 bits are an offset into the same message.

use vstd::prelude::*;
use vstd::utf8::*;

use crate::dns::DnsError;

verus! {

/// Length of the fixed message header; the question name starts right after it.
pub const HEADER_LEN: usize = 12;

/// Longest label the format allows.
pub const MAX_LABEL_LEN: u8 = 63;

/// First offset that a 14-bit pointer can no longer address.
pub const POINTER_LIMIT: usize = 16384;

/// A byte with both top bits set opens a pointer.
pub open spec fn is_pointer(b: u8) -> bool {
    b & 0xC0 == 0xC0
}

/// The offset that the pointer whose bytes are `hi` and `lo` refers to: the low
/// 14 bits of the 16-bit word they form, high byte first.
pub open spec fn pointer_target(hi: u8, lo: u8) -> int {
    (hi % 64) * 256 + lo
}

/// The two bytes of a pointer to `offset`, high byte first. For an offset below
/// [`POINTER_LIMIT`] the word is `0xC000 + offset`: both top bits set, the
/// offset in the 14 bits below them.
pub open spec fn pointer_bytes(offset: int) -> Seq<u8> {
    seq![(0xC0 + offset / 256) as u8, (offset % 256) as u8]
}

/// `buf` holds, at `pos`, a pointer to `target`.
pub open spec fn points_to(buf: Seq<u8>, pos: int, target: int) -> bool {
    &&& 0 <= pos
    &&& pos + 1 < buf.len()
    &&& is_pointer(buf[pos])
    &&& pointer_target(buf[pos], buf[pos + 1]) == target
}

/// What a scan over a name field found: the label bodies in order, the offset
/// at which the field ends, and whether it ended on a pointer.
pub struct Scan {
    pub labels: Seq<Seq<u8>>,
    pub end: int,
    pub compressed: bool,
}

/// Scans the name field that starts at `pos` without following pointers.
///
/// A pointer ends the field at its own first byte; a zero byte ends it one
/// past that byte. Every label must lie inside the buffer and hold valid UTF-8.
pub open spec fn scan(buf: Seq<u8>, pos: int) -> Result<Scan, DnsError>
    decreases buf.len() - pos,
{
    if pos < 0 || pos >= buf.len() {
        Err(DnsError::OutOfBounds)
    } else if is_pointer(buf[pos]) {
        Ok(Scan { labels: Seq::empty(), end: pos, compressed: true })
    } else if buf[pos] == 0 {
        Ok(Scan { labels: Seq::empty(), end: pos + 1, compressed: false })
    } else if buf[pos] > MAX_LABEL_LEN {
        Err(DnsError::InvalidLabelLength)
    } else if pos + 1 + buf[pos] > buf.len() {
        Err(DnsError::OutOfBounds)
    } else if !valid_utf8(buf.subrange(pos + 1, pos + 1 + buf[pos])) {
        Err(DnsError::InvalidLabelEncoding)
    } else {
        match scan(buf, pos + 1 + buf[pos]) {
            Ok(rest) => Ok(
                Scan {
                    labels: seq![buf.subrange(pos + 1, pos + 1 + buf[pos])] + rest.labels,
                    end: rest.end,
                    compressed: rest.compressed,
                },
            ),
            Err(e) => Err(e),
        }
    }
}

/// The dotted text of a run of labels: their UTF-8 decodings joined by `.`.
pub open spec fn dotted(labels: Seq<Seq<u8>>) -> Seq<char>
    decreases labels.len(),
{
    if labels.len() == 0 {
        Seq::empty()
    } else if labels.len() == 1 {
        decode_utf8(labels[0])
    } else {
        dotted(labels.drop_last()) + seq!['.'] + decode_utf8(labels.last())
    }
}

/// The model of a name descriptor: where the name field lies in the message,
/// the dotted text it spells, and whether it ends on a pointer.
pub struct QNameView {
    pub start: int,
    pub end: int,
    pub name: Seq<char>,
    pub compressed: bool,
}

impl QNameView {
    /// The descriptor names a stretch of a message that is `len` bytes long.
    pub open spec fn lies_within(self, len: nat) -> bool {
        0 <= self.start <= self.end <= len
    }
}

/// What decoding a whole message yields: the name field is scanned from the
/// end of the header, and a buffer too short to hold a header is refused
/// before anything is read.
pub open spec fn decode(buf: Seq<u8>) -> Result<QNameView, DnsError> {
    if buf.len() < HEADER_LEN {
        Err(DnsError::MessageTooSmall)
    } else {
        match scan(buf, HEADER_LEN as int) {
            Ok(found) => Ok(
                QNameView {
                    start: HEADER_LEN as int,
                    end: found.end,
                    name: dotted(found.labels),
                    compressed: found.compressed,
                },
            ),
            Err(e) => Err(e),
        }
    }
}

/// Where the relocated name starts in the rewritten message: after the bytes
/// in front of the name, the pointer that takes the name's place, the bytes
/// that followed the name, and the decoy pointers.
pub open spec fn relocation_offset(len: int, start: int, end: int, jumps: int) -> int {
    start + 2 + (len - end) + 2 * jumps
}

/// Where the `k`-th pointer of the rewritten message stands. The one that
/// replaces the name is number 0; the decoys follow the rest of the message.
pub open spec fn pointer_slot(len: int, start: int, end: int, k: int) -> int {
    if k == 0 {
        start
    } else {
        start + 2 + (len - end) + 2 * (k - 1)
    }
}

/// `count` copies of the two pointer bytes, one after the other.
pub open spec fn decoys(pointer: Seq<u8>, count: nat) -> Seq<u8> {
    Seq::new(2 * count, |i: int| pointer[i % 2])
}

/// The rewritten message: the name field `[start, end)` of `buf` is replaced
/// by a pointer, `jumps` further pointers follow the rest of the message, and
/// the name field itself comes last, where all the pointers refer to.
pub open spec fn fragmented(buf: Seq<u8>, start: int, end: int, jumps: nat) -> Seq<u8> {
    let pointer = pointer_bytes(relocation_offset(buf.len() as int, start, end, jumps as int));
    buf.subrange(0, start) + pointer + buf.subrange(end, buf.len() as int) + decoys(pointer, jumps)
        + buf.subrange(start, end)
}

/// What fragmenting yields: a name that already ends on a pointer is refused,
/// and so is a message whose relocated name a 14-bit offset cannot reach.
pub open spec fn fragment(buf: Seq<u8>, name: QNameView, jumps: nat) -> Result<Seq<u8>, DnsError> {
    if name.compressed {
        Err(DnsError::AlreadyFragmented)
    } else if relocation_offset(buf.len() as int, name.start, name.end, jumps as int)
        >= POINTER_LIMIT {
        Err(DnsError::OffsetOverflow)
    } else {
        Ok(fragmented(buf, name.start, name.end, jumps))
    }
}

/// A scan result with `prefix` put in front of its labels; errors pass through.
pub open spec fn prepend(prefix: Seq<Seq<u8>>, rest: Result<Scan, DnsError>) -> Result<
    Scan,
    DnsError,
> {
    match rest {
        Ok(found) => Ok(
            Scan { labels: prefix + found.labels, end: found.end, compressed: found.compressed },
        ),
        Err(e) => Err(e),
    }
}

/// Scanning a well-formed label and then the rest is scanning from the label
/// on, so a scan can be carried forward one label at a time.
pub proof fn lemma_scan_step(buf: Seq<u8>, pos: int, prefix: Seq<Seq<u8>>)
    requires
        0 <= pos < buf.len(),
        !is_pointer(buf[pos]),
        1 <= buf[pos] <= MAX_LABEL_LEN,
        pos + 1 + buf[pos] <= buf.len(),
        valid_utf8(buf.subrange(pos + 1, pos + 1 + buf[pos])),
    ensures
        prepend(prefix, scan(buf, pos)) == prepend(
            prefix.push(buf.subrange(pos + 1, pos + 1 + buf[pos])),
            scan(buf, pos + 1 + buf[pos]),
        ),
{
    let label = buf.subrange(pos + 1, pos + 1 + buf[pos]);
    match scan(buf, pos + 1 + buf[pos]) {
        Ok(rest) => {
            assert(prefix + (seq![label] + rest.labels) =~= prefix.push(label) + rest.labels);
        },
        Err(_) => {},
    }
}

/// Appending one label to a run appends its text to the dotted name, after a
/// dot unless it is the first.
pub proof fn lemma_dotted_push(labels: Seq<Seq<u8>>, label: Seq<u8>)
    ensures
        dotted(labels.push(label)) == if labels.len() == 0 {
            decode_utf8(label)
        } else {
            dotted(labels) + seq!['.'] + decode_utf8(label)
        },
{
    let longer = labels.push(label);
    assert(longer.drop_last() =~= labels);
    assert(longer.last() == label);
}

/// A well-formed label starts at `pos`: a length byte from 1 to 63, and that
/// many bytes of valid UTF-8 inside the buffer.
pub open spec fn label_at(buf: Seq<u8>, pos: int) -> bool {
    &&& 0 <= pos < buf.len()
    &&& !is_pointer(buf[pos])
    &&& 1 <= buf[pos] <= MAX_LABEL_LEN
    &&& pos + 1 + buf[pos] <= buf.len()
    &&& valid_utf8(buf.subrange(pos + 1, pos + 1 + buf[pos]))
}

/// Stepping over whole well-formed labels leads from `from` to `to`.
pub open spec fn walks_to(buf: Seq<u8>, from: int, to: int) -> bool
    decreases buf.len() - from,
{
    from == to || (from < to && label_at(buf, from) && walks_to(
        buf,
        from + 1 + buf[from],
        to,
    ))
}

/// A scan that succeeds stays inside the buffer, and how it ended can be read
/// off the bytes: a compressed field ends at a pointer byte, an uncompressed
/// one just after a zero byte. Its labels are those that [`label_at`] accepts.
pub proof fn lemma_scan_found(buf: Seq<u8>, pos: int)
    requires
        scan(buf, pos) is Ok,
    ensures
        ({
            let found = scan(buf, pos)->Ok_0;
            &&& 0 <= pos <= found.end <= buf.len()
            &&& found.compressed ==> found.end < buf.len() && is_pointer(buf[found.end])
            &&& !found.compressed ==> pos < found.end && buf[found.end - 1] == 0
            &&& walks_to(buf, pos, if found.compressed { found.end } else { found.end - 1 })
            &&& forall|k: int|
                0 <= k < found.labels.len() ==> 1 <= (#[trigger] found.labels[k]).len()
                    <= MAX_LABEL_LEN && valid_utf8(found.labels[k])
        }),
    decreases buf.len() - pos,
{
    if !is_pointer(buf[pos]) && buf[pos] != 0 {
        let next = pos + 1 + buf[pos];
        lemma_scan_found(buf, next);
        let found = scan(buf, pos)->Ok_0;
        let rest = scan(buf, next)->Ok_0;
        assert forall|k: int| 0 <= k < found.labels.len() implies 1 <= (
        #[trigger] found.labels[k]).len() <= MAX_LABEL_LEN && valid_utf8(found.labels[k]) by {
            if k > 0 {
                assert(found.labels[k] == rest.labels[k - 1]);
            }
        }
    } else {
        lemma_pointer_byte(0);
    }
}

/// What holds of every descriptor that decoding yields: it starts at the end
/// of the header and lies inside the message; it is marked compressed exactly
/// when the name field ends at a pointer byte, and otherwise a zero byte
/// closes the field.
pub proof fn lemma_decoded(buf: Seq<u8>)
    requires
        decode(buf) is Ok,
    ensures
        ({
            let name = decode(buf)->Ok_0;
            &&& name.start == HEADER_LEN
            &&& name.lies_within(buf.len())
            &&& name.compressed ==> name.end < buf.len() && is_pointer(buf[name.end])
            &&& !name.compressed ==> name.start < name.end && buf[name.end - 1] == 0
        }),
{
    lemma_scan_found(buf, HEADER_LEN as int);
}

/// Decoding fails for want of a header exactly when the buffer is shorter
/// than one; whatever else goes wrong is found while scanning the name.
pub proof fn lemma_too_small(buf: Seq<u8>)
    ensures
        decode(buf) == Err::<QNameView, DnsError>(DnsError::MessageTooSmall) <==> buf.len()
            < HEADER_LEN,
{
    lemma_scan_errors(buf, HEADER_LEN as int);
}

/// A scan fails in one of three ways only.
pub proof fn lemma_scan_errors(buf: Seq<u8>, pos: int)
    ensures
        scan(buf, pos) matches Err(e) ==> e == DnsError::OutOfBounds || e
            == DnsError::InvalidLabelLength || e == DnsError::InvalidLabelEncoding,
    decreases buf.len() - pos,
{
    if label_at(buf, pos) {
        lemma_scan_errors(buf, pos + 1 + buf[pos]);
    }
}

/// Whatever goes wrong at `to` is what a scan from `from` reports, provided
/// well-formed labels lead from the one to the other.
pub proof fn lemma_scan_error_carries(buf: Seq<u8>, from: int, to: int)
    requires
        walks_to(buf, from, to),
        scan(buf, to) is Err,
    ensures
        scan(buf, from) == scan(buf, to),
    decreases buf.len() - from,
{
    if from != to {
        lemma_scan_error_carries(buf, from + 1 + buf[from], to);
    }
}

/// A length byte from 64 to 191 is neither a label length nor a pointer: a
/// message whose name field arrives at one is refused with
/// [`DnsError::InvalidLabelLength`], wherever in the field it stands.
pub proof fn lemma_invalid_length_refused(buf: Seq<u8>, at: int)
    requires
        buf.len() >= HEADER_LEN,
        walks_to(buf, HEADER_LEN as int, at),
        at < buf.len(),
        64 <= buf[at] < 192,
    ensures
        decode(buf) == Err::<QNameView, DnsError>(DnsError::InvalidLabelLength),
{
    lemma_pointer_byte(buf[at]);
    lemma_scan_error_carries(buf, HEADER_LEN as int, at);
}

/// The top two bits of a byte are set exactly when it is at least `0xC0`.
pub proof fn lemma_pointer_byte(b: u8)
    ensures
        is_pointer(b) <==> b >= 0xC0,
{
    assert((b & 0xC0 == 0xC0) <==> b >= 0xC0) by (bit_vector);
}

/// Setting the top two bits of a 14-bit offset and splitting the word into
/// bytes gives [`pointer_bytes`], and reading those bytes back, as
/// [`pointer_target`] or bit by bit, gives the offset.
pub proof fn lemma_pointer_word(offset: u16)
    requires
        offset < POINTER_LIMIT,
    ensures
        ((0xC000u16 | offset) >> 8) < 0x100,
        pointer_bytes(offset as int) == seq![
            ((0xC000u16 | offset) >> 8) as u8,
            ((0xC000u16 | offset) & 0xFF) as u8,
        ],
        is_pointer(pointer_bytes(offset as int)[0]),
        pointer_target(pointer_bytes(offset as int)[0], pointer_bytes(offset as int)[1])
            == offset,
        ({
            let pointer = pointer_bytes(offset as int);
            (((pointer[0] as u16) << 8) | (pointer[1] as u16)) & 0x3FFF == offset
        }),
{
    let word: u16 = 0xC000u16 | offset;
    lemma_pointer_target(pointer_bytes(offset as int)[0], pointer_bytes(offset as int)[1]);
    assert(offset < 0x4000 ==> (0xC000u16 | offset) == 0xC000 + offset) by (bit_vector);
    assert((word >> 8) == word / 256) by (bit_vector);
    assert((word & 0xFF) == word % 256) by (bit_vector);
    let hi: u8 = (word / 256) as u8;
    lemma_pointer_byte(hi);
}

/// [`pointer_target`] is the low 14 bits of the word that the two bytes form.
pub proof fn lemma_pointer_target(hi: u8, lo: u8)
    ensures
        pointer_target(hi, lo) == (((hi as u16) << 8) | (lo as u16)) & 0x3FFF,
        0 <= pointer_target(hi, lo) < POINTER_LIMIT,
{
    assert((((hi as u16) << 8) | (lo as u16)) & 0x3FFF == (hi % 64) * 256 + lo) by (bit_vector);
}

/// The shape of a fragmented message: its length, its pointers, and the
/// relocated name field at its end.
pub proof fn lemma_fragmented_layout(buf: Seq<u8>, start: int, end: int, jumps: nat)
    requires
        0 <= start <= end <= buf.len(),
        relocation_offset(buf.len() as int, start, end, jumps as int) < POINTER_LIMIT,
    ensures
        ({
            let out = fragmented(buf, start, end, jumps);
            let target = relocation_offset(buf.len() as int, start, end, jumps as int);
            &&& out.len() == start + 2 + (buf.len() - end) + 2 * jumps + (end - start)
            &&& out.subrange(0, start) == buf.subrange(0, start)
            &&& out.subrange(start + 2, start + 2 + (buf.len() - end)) == buf.subrange(
                end,
                buf.len() as int,
            )
            &&& out.subrange(target, out.len() as int) == buf.subrange(start, end)
            &&& forall|k: int|
                0 <= k <= jumps ==> points_to(
                    out,
                    #[trigger] pointer_slot(buf.len() as int, start, end, k),
                    target,
                )
        }),
{
    let out = fragmented(buf, start, end, jumps);
    let target = relocation_offset(buf.len() as int, start, end, jumps as int);
    let pointer = pointer_bytes(target);
    lemma_pointer_word(target as u16);
    assert(out.subrange(0, start) =~= buf.subrange(0, start));
    assert(out.subrange(start + 2, start + 2 + (buf.len() - end)) =~= buf.subrange(
        end,
        buf.len() as int,
    ));
    assert(out.subrange(target, out.len() as int) =~= buf.subrange(start, end));
    assert forall|k: int| 0 <= k <= jumps implies points_to(
        out,
        #[trigger] pointer_slot(buf.len() as int, start, end, k),
        target,
    ) by {
        let slot = pointer_slot(buf.len() as int, start, end, k);
        assert(out[slot] == pointer[0]);
        assert(out[slot + 1] == pointer[1]);
    }
}

} // verus!
