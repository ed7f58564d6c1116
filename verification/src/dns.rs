//! Locating the question name of a DNS message and moving it behind pointers.

use vstd::prelude::*;
use vstd::string::*;
use vstd::utf8::*;

use crate::equivalence::{resolved_name, theorem_fragment_keeps_name};
use crate::wire::{
    decode, dotted, fragment, fragmented, is_pointer, lemma_decoded, lemma_dotted_push,
    lemma_fragmented_layout, lemma_pointer_word, lemma_scan_step, lemma_too_small, pointer_bytes,
    pointer_slot, points_to, prepend, relocation_offset, scan, QNameView, Scan, HEADER_LEN,
    MAX_LABEL_LEN, POINTER_LIMIT,
};

verus! {

/// Why a message could not be decoded or fragmented.
#[derive(Clone, Copy, Debug, PartialEq, Eq, Structural)]
pub enum DnsError {
    /// The buffer is shorter than the fixed header.
    MessageTooSmall,
    /// A length byte or a label body lies beyond the end of the buffer.
    OutOfBounds,
    /// A length byte is above 63 without being a pointer.
    InvalidLabelLength,
    /// A label's bytes are not valid UTF-8.
    InvalidLabelEncoding,
    /// The name already ends in a pointer; there is nothing to relocate.
    AlreadyFragmented,
    /// The relocated name would start beyond what 14 bits can address.
    OffsetOverflow,
    /// The client-facing socket could not be bound.
    BindFailure,
    /// Opening the upstream socket, sending the query or receiving the reply
    /// failed.
    UpstreamIOFailure,
    /// The reply could not be sent to the client.
    ClientIOFailure,
}

impl DnsError {
    /// The text of [`DnsError::message`].
    pub open spec fn text(self) -> Seq<char> {
        match self {
            DnsError::MessageTooSmall => "packet too small"@,
            DnsError::OutOfBounds => "out of bounds"@,
            DnsError::InvalidLabelLength => "invalid label length"@,
            DnsError::InvalidLabelEncoding => "unexpected char in label"@,
            DnsError::AlreadyFragmented => "qname already compressed"@,
            DnsError::OffsetOverflow => "qname offset does not fit in a pointer"@,
            DnsError::BindFailure => "failed to bind the listening socket"@,
            DnsError::UpstreamIOFailure => "upstream exchange failed"@,
            DnsError::ClientIOFailure => "failed to reply to the client"@,
        }
    }

    /// A short description of the failure, for the log.
    pub fn message(&self) -> (text: String)
        ensures
            text@ == self.text(),
    {
        match self {
            DnsError::MessageTooSmall => "packet too small".to_string(),
            DnsError::OutOfBounds => "out of bounds".to_string(),
            DnsError::InvalidLabelLength => "invalid label length".to_string(),
            DnsError::InvalidLabelEncoding => "unexpected char in label".to_string(),
            DnsError::AlreadyFragmented => "qname already compressed".to_string(),
            DnsError::OffsetOverflow => "qname offset does not fit in a pointer".to_string(),
            DnsError::BindFailure => "failed to bind the listening socket".to_string(),
            DnsError::UpstreamIOFailure => "upstream exchange failed".to_string(),
            DnsError::ClientIOFailure => "failed to reply to the client".to_string(),
        }
    }
}

/// The error of `core::str::from_utf8`. Nothing is read from it: the decoder
/// only needs to know that the conversion failed.
#[verifier::external_type_specification]
#[verifier::external_body]
pub struct ExUtf8Error(core::str::Utf8Error);

/// `core::str::from_utf8` accepts exactly the byte slices that are well-formed
/// UTF-8, and the string slice it hands back consists of those same bytes.
pub assume_specification[ core::str::from_utf8 ](v: &[u8]) -> (r: Result<
    &str,
    core::str::Utf8Error,
>)
    ensures
        r is Ok <==> valid_utf8(v@),
        r matches Ok(text) ==> text.spec_bytes() == v@,
;

/// Where the question name of a message lies and what it spells.
#[derive(Debug)]
pub struct QName {
    /// Offset of the first byte of the name field.
    pub start: usize,
    /// Offset one past the terminator, or of the pointer that ends the field.
    pub end: usize,
    /// The labels' text, joined by dots; empty for the root name.
    pub name: String,
    /// Whether the field ends on a pointer instead of a terminator.
    pub compressed: bool,
}

impl View for QName {
    type V = QNameView;

    open spec fn view(&self) -> QNameView {
        QNameView {
            start: self.start as int,
            end: self.end as int,
            name: self.name@,
            compressed: self.compressed,
        }
    }
}

impl Default for QName {
    fn default() -> (q: QName)
        ensures
            q@ == (QNameView { start: 0, end: 0, name: Seq::empty(), compressed: false }),
    {
        QName { start: 0, end: 0, name: String::new(), compressed: false }
    }
}

impl QName {
    /// This descriptor is what decoding `buf` yields.
    pub open spec fn describes(&self, buf: Seq<u8>) -> bool {
        decode(buf) == Ok::<QNameView, DnsError>(self@)
    }

    /// Decodes the question name of the message in `buf`.
    ///
    /// The result is exactly what [`decode`] says of the bytes: the descriptor
    /// on success, and otherwise the first error met while walking the name
    /// field from the end of the header. A descriptor that comes back starts
    /// at the end of the header and lies inside the message; it is marked
    /// compressed exactly when the field ended on a pointer byte, and
    /// otherwise ends just after the zero byte that closes the name.
    pub fn from_bytes(buf: &[u8]) -> (r: Result<QName, DnsError>)
        ensures
            match r {
                Ok(q) => q.describes(buf@),
                Err(e) => decode(buf@) == Err::<QNameView, DnsError>(e),
            },
            buf.len() < HEADER_LEN <==> r == Err::<QName, DnsError>(DnsError::MessageTooSmall),
            r matches Ok(q) ==> {
                &&& q.start == HEADER_LEN
                &&& q@.lies_within(buf@.len())
                &&& q.compressed ==> q.end < buf.len() && is_pointer(buf@[q.end as int])
                &&& !q.compressed ==> q.start < q.end && buf@[q.end - 1] == 0
            },
    {
        if buf.len() < HEADER_LEN {
            return Err(DnsError::MessageTooSmall);
        }
        proof {
            lemma_too_small(buf@);
            if decode(buf@) is Ok {
                lemma_decoded(buf@);
            }
        }
        let start: usize = HEADER_LEN;
        let mut i: usize = start;
        let mut name = String::new();
        let mut jumped = false;
        let ghost mut labels: Seq<Seq<u8>> = Seq::empty();

        assert(prepend(labels, scan(buf@, i as int)) == scan(buf@, HEADER_LEN as int)) by {
            match scan(buf@, i as int) {
                Ok(found) => assert(labels + found.labels =~= found.labels),
                Err(_) => {},
            }
        }
        loop
            invariant_except_break
                !jumped,
                (labels.len() == 0) == (i == HEADER_LEN),
                prepend(labels, scan(buf@, i as int)) == scan(buf@, HEADER_LEN as int),
            invariant
                start == HEADER_LEN <= i <= buf.len(),
                name@ == dotted(labels),
            ensures
                scan(buf@, HEADER_LEN as int) == Ok::<Scan, DnsError>(
                    Scan { labels, end: i as int, compressed: jumped },
                ),
            decreases buf.len() - i,
        {
            if i >= buf.len() {
                return Err(DnsError::OutOfBounds);
            }
            let len: u8 = buf[i];

            if len & 0xC0 == 0xC0 {
                jumped = true;
                proof {
                    assert(labels + Seq::<Seq<u8>>::empty() =~= labels);
                }
                break ;
            }
            if len == 0 {
                proof {
                    assert(labels + Seq::<Seq<u8>>::empty() =~= labels);
                }
                i += 1;
                break ;
            }
            if len > MAX_LABEL_LEN {
                return Err(DnsError::InvalidLabelLength);
            }
            if len as usize > buf.len() - (i + 1) {
                return Err(DnsError::OutOfBounds);
            }
            let body: usize = i + 1;
            let label = &buf[body..body + len as usize];
            match core::str::from_utf8(label) {
                Ok(text) => {
                    proof {
                        lemma_scan_step(buf@, i as int, labels);
                        lemma_dotted_push(labels, label@);
                        encode_utf8_decode_utf8(text@);
                        reveal_strlit(".");
                    }
                    if i > start {
                        name.append(".");
                    }
                    name.append(text);
                    proof {
                        labels = labels.push(label@);
                    }
                },
                Err(_) => {
                    return Err(DnsError::InvalidLabelEncoding);
                },
            }
            i = body + len as usize;
        }

        Ok(QName { start, end: i, name, compressed: jumped })
    }
}

/// Rewrites the message in `buf` so that its question name, described by
/// `qname`, is reached only through pointers.
///
/// The name field is cut out and a pointer takes its place; the rest of the
/// message follows unchanged, then `jumps` decoy pointers, then the name field
/// itself. Every pointer refers straight to the relocated name, so that a
/// reader who follows the first one finds the name that `qname` was decoded
/// to. The input is never modified: on failure nothing has been built.
///
/// A name that ends on a pointer is refused, and so is a message whose
/// relocated name would start at offset 16384 or beyond. The descriptor of an
/// uncompressed name must lie inside `buf`.
pub fn rfc1035_fragment_qname(buf: &Vec<u8>, qname: &QName, jumps: usize) -> (r: Result<
    Vec<u8>,
    DnsError,
>)
    requires
        qname.compressed || qname@.lies_within(buf@.len()),
    ensures
        match r {
            Ok(packet) => fragment(buf@, qname@, jumps as nat) == Ok::<Seq<u8>, DnsError>(packet@),
            Err(e) => fragment(buf@, qname@, jumps as nat) == Err::<Seq<u8>, DnsError>(e),
        },
        qname.compressed <==> r == Err::<Vec<u8>, DnsError>(DnsError::AlreadyFragmented),
        r matches Ok(packet) ==> {
            let target = relocation_offset(
                buf.len() as int,
                qname.start as int,
                qname.end as int,
                jumps as int,
            );
            &&& packet.len() == qname.start + 2 + (buf.len() - qname.end) + 2 * jumps + (qname.end
                - qname.start)
            &&& forall|k: int|
                0 <= k <= jumps ==> points_to(
                    packet@,
                    #[trigger] pointer_slot(
                        buf.len() as int,
                        qname.start as int,
                        qname.end as int,
                        k,
                    ),
                    target,
                )
            &&& packet@.subrange(target, packet.len() as int) == buf@.subrange(
                qname.start as int,
                qname.end as int,
            )
        },
        qname.describes(buf@) ==> (r matches Ok(packet) ==> resolved_name(
            packet@,
            qname.start as int,
            1,
        ) == Some(qname.name@)),
{
    if qname.compressed {
        return Err(DnsError::AlreadyFragmented);
    }
    let bytes: &[u8] = buf.as_slice();
    let start: usize = qname.start;
    let end: usize = qname.end;

    // The relocated name must stay within reach of a 14-bit offset; settle
    // that before anything is allocated.
    let rest: usize = bytes.len() - end;
    if start >= POINTER_LIMIT || rest >= POINTER_LIMIT || jumps >= POINTER_LIMIT {
        return Err(DnsError::OffsetOverflow);
    }
    let qname_offset: usize = start + 2 + rest + 2 * jumps;
    if qname_offset >= POINTER_LIMIT {
        return Err(DnsError::OffsetOverflow);
    }
    let ghost goal = fragmented(buf@, start as int, end as int, jumps as nat);

    // Everything in front of the name, then a placeholder where it stood.
    let mut packet: Vec<u8> = Vec::new();
    packet.extend_from_slice(&bytes[0..start]);
    packet.push(0xC0);
    packet.push(0x00);

    // Question type and class, and whatever sections follow.
    packet.extend_from_slice(&bytes[end..bytes.len()]);

    // Placeholders for the decoys.
    let ptrs_offset: usize = packet.len();
    for n in 0..jumps
        invariant
            ptrs_offset == start + 2 + rest,
            packet.len() == ptrs_offset + 2 * n,
            forall|j: int| 0 <= j < start ==> packet@[j] == buf@[j],
            forall|j: int|
                start + 2 <= j < ptrs_offset ==> #[trigger] packet@[j] == buf@[j - start - 2 + end],
    {
        packet.push(0xC0);
        packet.push(0x00);
    }

    // The name itself, labels and terminator, at the very end.
    packet.extend_from_slice(&bytes[start..end]);

    // Now that the name has its place, make every placeholder point at it.
    let ptr: u16 = 0xC000 | (qname_offset as u16);
    proof {
        lemma_pointer_word(qname_offset as u16);
    }
    let hi: u8 = (ptr >> 8) as u8;
    let lo: u8 = (ptr & 0xFF) as u8;

    packet.set(start, hi);
    packet.set(start + 1, lo);
    for n in 0..jumps
        invariant
            start <= end <= buf.len(),
            ptrs_offset == start + 2 + (buf.len() - end),
            qname_offset == ptrs_offset + 2 * jumps,
            goal == fragmented(buf@, start as int, end as int, jumps as nat),
            pointer_bytes(qname_offset as int) == seq![hi, lo],
            packet.len() == goal.len(),
            forall|j: int|
                0 <= j < goal.len() && !(ptrs_offset <= j < qname_offset) ==> packet@[j] == goal[j],
            forall|j: int| ptrs_offset <= j < ptrs_offset + 2 * n ==> packet@[j] == goal[j],
    {
        let pos: usize = ptrs_offset + n * 2;
        packet.set(pos, hi);
        packet.set(pos + 1, lo);
    }
    proof {
        assert(packet@ =~= goal);
        lemma_fragmented_layout(buf@, start as int, end as int, jumps as nat);
        if qname.describes(buf@) {
            theorem_fragment_keeps_name(buf@, jumps as nat, 1);
        }
    }
    Ok(packet)
}

} // verus!
