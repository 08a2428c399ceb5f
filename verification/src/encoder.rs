//! The writing half of the codec: an append-only byte buffer.

use crate::wire::{
    be_bytes, capacity, lemma_be_bytes_extend, lemma_capacity_step, lemma_capacity_values,
    lemma_shift_divides, varint_bytes, VARINT_LIMIT,
};
use vstd::prelude::*;

verus! {

/// An unsigned integer that widens, without loss, to the 64-bit value that
/// travels on the wire.
pub trait WireValue: Sized {
    /// The wire value that `self` stands for.
    spec fn wire_value(self) -> u64;

    /// Widens `self` to its wire value.
    fn to_wire(self) -> (v: u64)
        ensures
            v == self.wire_value(),
    ;
}

impl WireValue for u8 {
    open spec fn wire_value(self) -> u64 {
        self as u64
    }

    fn to_wire(self) -> (v: u64) {
        self as u64
    }
}

impl WireValue for u16 {
    open spec fn wire_value(self) -> u64 {
        self as u64
    }

    fn to_wire(self) -> (v: u64) {
        self as u64
    }
}

impl WireValue for u32 {
    open spec fn wire_value(self) -> u64 {
        self as u64
    }

    fn to_wire(self) -> (v: u64) {
        self as u64
    }
}

impl WireValue for u64 {
    open spec fn wire_value(self) -> u64 {
        self
    }

    fn to_wire(self) -> (v: u64) {
        self
    }
}

/// Builds a byte sequence by appending to it. Bytes, once appended, are
/// never changed, reordered or removed.
pub struct Encoder {
    buf: Vec<u8>,
}

impl View for Encoder {
    type V = Seq<u8>;

    /// Everything appended so far, in order.
    closed spec fn view(&self) -> Seq<u8> {
        self.buf@
    }
}

impl Encoder {
    /// An encoder that holds no bytes yet.
    pub fn new() -> (e: Encoder)
        ensures
            e@ == Seq::<u8>::empty(),
    {
        Encoder { buf: Vec::new() }
    }

    /// Appends `data` as it is: no length prefix, no transformation.
    pub fn encode_data(&mut self, data: &[u8])
        ensures
            final(self)@ == old(self)@ + data@,
    {
        self.buf.extend_from_slice(data);
    }

    /// Appends the single byte `data`.
    pub fn encode_byte(&mut self, data: u8)
        ensures
            final(self)@ == old(self)@.push(data),
    {
        self.buf.push(data)
    }

    /// Appends the `n` low-order bytes of `v`, most significant first. Bits
    /// of `v` above the lowest `8 * n` are dropped without complaint.
    pub fn encode_uint<T: WireValue>(&mut self, n: usize, v: T)
        requires
            n <= 8,
        ensures
            final(self)@ == old(self)@ + be_bytes(v.wire_value() as nat, n as nat),
    {
        let v = v.to_wire();
        proof {
            lemma_capacity_step(n as nat);
            assert(self@ =~= old(self)@ + be_bytes(v as nat / capacity(n as nat), 0));
        }
        for i in 0..n
            invariant
                n <= 8,
                self@ == old(self)@ + be_bytes(v as nat / capacity((n - i) as nat), i as nat),
        {
            let shift = (n - i - 1) * 8;
            let low = (v >> shift) & 0xff_u64;
            proof {
                let k = (n - i - 1) as nat;
                lemma_shift_divides(v, k);
                lemma_be_bytes_extend(v as nat, k, i as nat);
                let x = v >> shift;
                assert(x & 0xff_u64 == x % 256) by (bit_vector);
            }
            self.encode_byte(low as u8);
        }
        proof {
            assert(capacity(0) == 1);
            assert(v as nat / capacity(0) == v as nat);
        }
    }

    /// Appends `v` as a variable-width integer, in the fewest of 1, 2, 4 or 8
    /// bytes whose payload bits can hold it, with the tag of that width in
    /// the two most significant bits of the first byte.
    ///
    /// Values of [`VARINT_LIMIT`] and above have no encoding.
    pub fn encode_varint<T: WireValue>(&mut self, v: T)
        requires
            v.wire_value() < VARINT_LIMIT,
        ensures
            final(self)@ == old(self)@ + varint_bytes(v.wire_value() as nat),
    {
        let v = v.to_wire();
        proof {
            lemma_capacity_values();
        }
        if v < 0x40 {
            self.encode_uint(1, v)
        } else if v < 0x4000 {
            assert(v | 0x4000 == v + 0x4000) by (bit_vector)
                requires
                    v < 0x4000,
            ;
            self.encode_uint(2, v | 0x4000)
        } else if v < 0x4000_0000 {
            assert(v | 0x8000_0000 == v + 0x8000_0000) by (bit_vector)
                requires
                    v < 0x4000_0000,
            ;
            self.encode_uint(4, v | 0x8000_0000)
        } else if v < VARINT_LIMIT {
            assert(v | 0xc000_0000_0000_0000 == v + 0xc000_0000_0000_0000) by (bit_vector)
                requires
                    v < 0x4000_0000_0000_0000,
            ;
            self.encode_uint(8, v | 0xc000_0000_0000_0000)
        } else {
            // No caller that meets the precondition gets here; one that does
            // not is stopped before anything is written.
            unreached()
        }
    }

    /// A copy of everything appended so far. The encoder keeps its bytes and
    /// can go on appending.
    pub fn raw(&self) -> (bytes: Vec<u8>)
        ensures
            bytes@ == self@,
    {
        self.buf.clone()
    }
}

} // verus!
