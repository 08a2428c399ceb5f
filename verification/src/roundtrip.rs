//! What the encoder writes, the decoder reads: the laws that tie the two
//! halves of the codec together, proved of the wire format itself.

use crate::decoder::DecoderView;
use crate::encoder::Encoder;
use crate::wire::{
    be_bytes, be_value, capacity, lemma_be_bytes_len, lemma_be_value_push, lemma_capacity_step,
    lemma_capacity_values, payload_capacity, tag_width, varint_bytes, varint_value, varint_width,
    width_tag, VARINT_LIMIT,
};
use vstd::arithmetic::div_mod::{lemma_breakdown, lemma_div_denominator};
use vstd::prelude::*;

verus! {

/// Reading back `n` big-endian bytes of `v` gives `v` less whatever did not
/// fit in `n` bytes; a value that fits comes back whole.
pub proof fn lemma_uint_roundtrip(v: nat, n: nat)
    ensures
        be_bytes(v, n).len() == n,
        be_value(be_bytes(v, n)) == v % capacity(n),
        v < capacity(n) ==> be_value(be_bytes(v, n)) == v,
    decreases n,
{
    if n > 0 {
        let m = (n - 1) as nat;
        lemma_uint_roundtrip(v / 256, m);
        lemma_be_value_push(be_bytes(v / 256, m), (v % 256) as u8);
        lemma_capacity_step(m);
        lemma_breakdown(v as int, 256, capacity(m) as int);
    }
}

/// The first of `n` big-endian bytes of `v` is the byte of `v` that lies
/// `n - 1` bytes above the lowest.
pub proof fn lemma_be_bytes_first(v: nat, n: nat)
    requires
        n > 0,
    ensures
        be_bytes(v, n).len() == n,
        be_bytes(v, n)[0] == (v / capacity((n - 1) as nat)) % 256,
    decreases n,
{
    let m = (n - 1) as nat;
    lemma_be_bytes_len(v / 256, m);
    if m == 0 {
        assert(v / 1 == v);
    } else {
        let l = (m - 1) as nat;
        lemma_be_bytes_first(v / 256, m);
        lemma_capacity_step(l);
        lemma_div_denominator(v as int, 256, capacity(l) as int);
    }
}

/// A fixed-width integer that was appended after `before` and is followed
/// by `after` is read back whole from the place where it starts, and the
/// cursor then stands right behind it.
pub proof fn lemma_decode_uint_reads_encoded(before: Seq<u8>, v: u64, n: nat, after: Seq<u8>)
    requires
        v < capacity(n),
    ensures
        ({
            let bytes = before + be_bytes(v as nat, n) + after;
            (DecoderView { bytes, offset: before.len() }).read_uint(n) == Some(
                (v, DecoderView { bytes, offset: before.len() + n }),
            )
        }),
{
    let bytes = before + be_bytes(v as nat, n) + after;
    let d = DecoderView { bytes, offset: before.len() };
    lemma_uint_roundtrip(v as nat, n);
    assert(d.next(n) =~= be_bytes(v as nat, n));
}

/// The width chosen for a variable-width integer can hold it, and no
/// narrower width of the format can.
pub proof fn lemma_varint_width_is_minimal(v: nat, width: nat)
    requires
        v < VARINT_LIMIT,
        width == 1 || width == 2 || width == 4 || width == 8,
    ensures
        v < payload_capacity(varint_width(v)),
        v < payload_capacity(width) ==> varint_width(v) <= width,
{
    lemma_capacity_values();
}

/// The encoding of a variable-width integer is as wide as the width chosen
/// for it, announces that width in its first byte, and carries the value.
pub proof fn lemma_varint_roundtrip(v: nat)
    requires
        v < VARINT_LIMIT,
    ensures
        varint_bytes(v).len() == varint_width(v),
        tag_width(varint_bytes(v)[0]) == varint_width(v),
        varint_value(varint_bytes(v)) == v,
{
    lemma_capacity_values();
    let width = varint_width(v);
    let tagged = if width == 1 {
        v
    } else if width == 2 {
        0x4000 + v
    } else if width == 4 {
        0x8000_0000 + v
    } else {
        0xc000_0000_0000_0000 + v
    };
    assert(width_tag(width) * payload_capacity(width) + v == tagged);
    lemma_uint_roundtrip(tagged, width);
    lemma_be_bytes_first(tagged, width);
    let encoded = varint_bytes(v);
    assert(encoded == be_bytes(tagged, width));
    let first = encoded[0];
    if width == 1 {
        assert(first == tagged % 256);
        assert(tagged % 0x40 == v);
    } else if width == 2 {
        assert(first == (tagged / 0x100) % 256);
        assert(tagged % 0x4000 == v);
    } else if width == 4 {
        assert(first == (tagged / 0x100_0000) % 256);
        assert(tagged % 0x4000_0000 == v);
    } else {
        assert(first == (tagged / 0x100_0000_0000_0000) % 256);
        assert(tagged % 0x4000_0000_0000_0000 == v);
    }
}

/// A variable-width integer that was appended after `before` and is
/// followed by `after` is read back from the place where it starts, and the
/// cursor then stands right behind it: exactly the chosen width was consumed.
pub proof fn lemma_decode_varint_reads_encoded(before: Seq<u8>, v: u64, after: Seq<u8>)
    requires
        v < VARINT_LIMIT,
    ensures
        ({
            let bytes = before + varint_bytes(v as nat) + after;
            (DecoderView { bytes, offset: before.len() }).read_varint() == Some(
                (v, DecoderView { bytes, offset: before.len() + varint_width(v as nat) }),
            )
        }),
{
    let encoded = varint_bytes(v as nat);
    let bytes = before + encoded + after;
    let d = DecoderView { bytes, offset: before.len() };
    lemma_varint_roundtrip(v as nat);
    assert(bytes[before.len() as int] == encoded[0]);
    assert(d.next(encoded.len()) =~= encoded);
}

/// Bytes appended to a fresh encoder are what a snapshot of it then shows:
/// the same bytes in the same order, the empty sequence included.
pub proof fn lemma_data_passthrough(
    fresh: Encoder,
    data: Seq<u8>,
    filled: Encoder,
    snapshot: Vec<u8>,
)
    requires
        fresh@ == Seq::<u8>::empty(),
        filled@ == fresh@ + data,
        snapshot@ == filled@,
    ensures
        snapshot@ == data,
{
}

/// A decoder with nothing left has no byte to peek at and nothing to read.
pub proof fn lemma_empty_yields_nothing(d: DecoderView, n: nat)
    requires
        d.wf(),
        d.remain() == 0,
        n > 0,
    ensures
        d.peek() is None,
        d.read(n) is None,
        d.read_uint(n) is None,
        d.read_varint() is None,
{
}

/// Asking for more bytes than are left yields nothing.
pub proof fn lemma_short_read_yields_nothing(d: DecoderView, n: nat)
    requires
        d.wf(),
        n > d.remain(),
    ensures
        d.read(n) is None,
        d.read_uint(n) is None,
{
}

/// A read that succeeds leaves the bytes as they were and the cursor no
/// further back than it was, still within the bytes.
pub proof fn lemma_reads_move_forward(d: DecoderView, n: nat)
    requires
        d.wf(),
    ensures
        d.read(n) matches Some((_, rest)) ==> rest.wf() && rest.bytes == d.bytes && rest.offset
            == d.offset + n,
        d.read_uint(n) matches Some((_, rest)) ==> rest.wf() && rest.bytes == d.bytes
            && rest.offset == d.offset + n,
        d.read_varint() matches Some((_, rest)) ==> rest.wf() && rest.bytes == d.bytes
            && d.offset < rest.offset <= d.offset + 8,
{
}

} // verus!
