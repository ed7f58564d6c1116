//! Why fragmenting changes nothing for a resolver that follows pointers.
//!
//! [`resolve`] models such a resolver. The theorems state that what it reads
//! from a fragmented message, through the pointer that replaced the name or
//! through any decoy, is the name that was decoded before fragmenting.

use vstd::prelude::*;

use crate::dns::DnsError;
use crate::wire::{
    decode, dotted, fragment, is_pointer, lemma_fragmented_layout, lemma_scan_found, pointer_slot,
    pointer_target, points_to, relocation_offset, scan, QNameView, HEADER_LEN, MAX_LABEL_LEN,
};

verus! {

/// The labels that a pointer-following reader finds from `pos` on, or `None`
/// where the bytes are malformed or more than `hops` pointers lie on the way.
///
/// A pointer sends the reader to the offset it holds; a zero byte ends the
/// name. Labels are taken as bytes: what they spell is not this reader's
/// business.
pub open spec fn resolve(buf: Seq<u8>, pos: int, hops: nat) -> Option<Seq<Seq<u8>>>
    decreases hops, buf.len() - pos,
{
    if pos < 0 || pos >= buf.len() {
        None
    } else if is_pointer(buf[pos]) {
        if hops == 0 || pos + 1 >= buf.len() {
            None
        } else {
            resolve(buf, pointer_target(buf[pos], buf[pos + 1]), (hops - 1) as nat)
        }
    } else if buf[pos] == 0 {
        Some(Seq::empty())
    } else if buf[pos] > MAX_LABEL_LEN || pos + 1 + buf[pos] > buf.len() {
        None
    } else {
        match resolve(buf, pos + 1 + buf[pos], hops) {
            Some(rest) => Some(seq![buf.subrange(pos + 1, pos + 1 + buf[pos])] + rest),
            None => None,
        }
    }
}

/// The dotted name that a pointer-following reader finds from `pos` on. It
/// says what the labels spell where they hold valid UTF-8.
pub open spec fn resolved_name(buf: Seq<u8>, pos: int, hops: nat) -> Option<Seq<char>> {
    match resolve(buf, pos, hops) {
        Some(labels) => Some(dotted(labels)),
        None => None,
    }
}

/// An uncompressed name field reads the same wherever a copy of it lies: the
/// reader finds in the copy the labels that the scan found in the source.
pub proof fn lemma_resolve_copy(src: Seq<u8>, from: int, dst: Seq<u8>, to: int, hops: nat)
    requires
        0 <= to,
        scan(src, from) matches Ok(found) && !found.compressed && to + (found.end - from)
            <= dst.len() && dst.subrange(to, to + (found.end - from)) == src.subrange(
            from,
            found.end,
        ),
    ensures
        resolve(dst, to, hops) == Some(scan(src, from)->Ok_0.labels),
    decreases src.len() - from,
{
    let found = scan(src, from)->Ok_0;
    lemma_scan_found(src, from);
    let width = found.end - from;
    let field = src.subrange(from, found.end);
    let copy = dst.subrange(to, to + width);
    assert(dst[to] == copy[0]);
    assert(src[from] == field[0]);
    if src[from] != 0 {
        let len = src[from] as int;
        let rest = scan(src, from + 1 + len)->Ok_0;
        lemma_scan_found(src, from + 1 + len);
        assert(dst.subrange(to + 1, to + 1 + len) =~= copy.subrange(1, 1 + len));
        assert(src.subrange(from + 1, from + 1 + len) =~= field.subrange(1, 1 + len));
        assert(dst.subrange(to + 1 + len, to + width) =~= copy.subrange(1 + len, width));
        assert(src.subrange(from + 1 + len, found.end) =~= field.subrange(1 + len, width));
        lemma_resolve_copy(src, from + 1 + len, dst, to + 1 + len, hops);
    }
}

/// Fragmenting keeps the name. If a message decodes to an uncompressed name
/// and can be fragmented, then a reader that follows at least one pointer
/// finds, where the name used to start, the very labels that were decoded, and
/// so the same dotted name. It finds them through each decoy as well. One hop
/// is enough: no pointer leads to another.
pub proof fn theorem_fragment_keeps_name(buf: Seq<u8>, jumps: nat, hops: nat)
    requires
        decode(buf) matches Ok(name) && fragment(buf, name, jumps) is Ok,
        hops >= 1,
    ensures
        ({
            let name = decode(buf)->Ok_0;
            let out = fragment(buf, name, jumps)->Ok_0;
            let labels = scan(buf, HEADER_LEN as int)->Ok_0.labels;
            &&& resolve(out, name.start, hops) == Some(labels)
            &&& resolved_name(out, name.start, hops) == Some(name.name)
            &&& forall|k: int|
                0 <= k <= jumps ==> resolved_name(
                    out,
                    #[trigger] pointer_slot(buf.len() as int, name.start, name.end, k),
                    hops,
                ) == Some(name.name)
        }),
{
    let name = decode(buf)->Ok_0;
    let out = fragment(buf, name, jumps)->Ok_0;
    let found = scan(buf, HEADER_LEN as int)->Ok_0;
    let target = relocation_offset(buf.len() as int, name.start, name.end, jumps as int);
    lemma_scan_found(buf, HEADER_LEN as int);
    lemma_fragmented_layout(buf, name.start, name.end, jumps);
    lemma_resolve_copy(buf, name.start, out, target, (hops - 1) as nat);
    assert forall|k: int| 0 <= k <= jumps implies resolve(
        out,
        #[trigger] pointer_slot(buf.len() as int, name.start, name.end, k),
        hops,
    ) == Some(found.labels) by {
        let slot = pointer_slot(buf.len() as int, name.start, name.end, k);
        assert(points_to(out, slot, target));
    }
    assert(pointer_slot(buf.len() as int, name.start, name.end, 0) == name.start);
}

/// A fragmented message decodes, without following pointers, to an empty name
/// that ends on a pointer right after the header, so fragmenting it once
/// more is refused.
pub proof fn lemma_fragmented_is_compressed(buf: Seq<u8>, jumps: nat)
    requires
        decode(buf) matches Ok(name) && fragment(buf, name, jumps) is Ok,
    ensures
        ({
            let out = fragment(buf, decode(buf)->Ok_0, jumps)->Ok_0;
            &&& decode(out) == Ok::<QNameView, DnsError>(
                QNameView {
                    start: HEADER_LEN as int,
                    end: HEADER_LEN as int,
                    name: Seq::empty(),
                    compressed: true,
                },
            )
            &&& fragment(out, decode(out)->Ok_0, jumps) == Err::<Seq<u8>, DnsError>(
                DnsError::AlreadyFragmented,
            )
        }),
{
    let name = decode(buf)->Ok_0;
    let out = fragment(buf, name, jumps)->Ok_0;
    lemma_scan_found(buf, HEADER_LEN as int);
    lemma_fragmented_layout(buf, name.start, name.end, jumps);
    assert(pointer_slot(buf.len() as int, name.start, name.end, 0) == name.start);
    let target = relocation_offset(buf.len() as int, name.start, name.end, jumps as int);
    assert(points_to(out, name.start, target));
}

} // verus!
