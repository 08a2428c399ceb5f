//! The reading half of the codec: a cursor over borrowed bytes.

use crate::wire::{
    be_value, lemma_accumulate, lemma_be_value_bound, lemma_be_value_push, lemma_capacity_values,
    tag_width, varint_value,
};
use vstd::prelude::*;

verus! {

/// What a [`Decoder`] is, mathematically: the bytes it was bound to and how
/// many of them it has consumed.
pub struct DecoderView {
    pub bytes: Seq<u8>,
    pub offset: nat,
}

impl DecoderView {
    /// The cursor lies within the bytes, or just past their end.
    pub open spec fn wf(self) -> bool {
        self.offset <= self.bytes.len()
    }

    /// How many bytes are still unread.
    pub open spec fn remain(self) -> nat {
        (self.bytes.len() - self.offset) as nat
    }

    /// The `n` bytes that start at the cursor.
    pub open spec fn next(self, n: nat) -> Seq<u8> {
        self.bytes.subrange(self.offset as int, (self.offset + n) as int)
    }

    /// The same bytes with the cursor `n` further on.
    pub open spec fn advance(self, n: nat) -> DecoderView {
        DecoderView { bytes: self.bytes, offset: self.offset + n }
    }

    /// The byte under the cursor, if there is one.
    pub open spec fn peek(self) -> Option<u8> {
        if self.remain() == 0 {
            None
        } else {
            Some(self.bytes[self.offset as int])
        }
    }

    /// The next `n` bytes and the state after consuming them, if that many
    /// remain.
    pub open spec fn read(self, n: nat) -> Option<(Seq<u8>, DecoderView)> {
        if self.remain() < n {
            None
        } else {
            Some((self.next(n), self.advance(n)))
        }
    }

    /// The next `n` bytes read as a big-endian number, and the state after
    /// consuming them, if that many remain. A number too large for 64 bits
    /// keeps its low 64 bits.
    pub open spec fn read_uint(self, n: nat) -> Option<(u64, DecoderView)> {
        if self.remain() < n {
            None
        } else {
            Some(((be_value(self.next(n)) % 0x1_0000_0000_0000_0000) as u64, self.advance(n)))
        }
    }

    /// The variable-width integer at the cursor and the state after
    /// consuming it, if the bytes that its tag announces are all there.
    pub open spec fn read_varint(self) -> Option<(u64, DecoderView)> {
        if self.remain() == 0 {
            None
        } else {
            let width = tag_width(self.bytes[self.offset as int]);
            if self.remain() < width {
                None
            } else {
                Some((varint_value(self.next(width)) as u64, self.advance(width)))
            }
        }
    }
}

/// Reads values out of a borrowed byte slice, front to back. The slice is
/// never written to; only the cursor moves, and only forward.
pub struct Decoder<'a> {
    buf: &'a [u8],
    offset: usize,
}

impl<'a> View for Decoder<'a> {
    type V = DecoderView;

    closed spec fn view(&self) -> DecoderView {
        DecoderView { bytes: self.buf@, offset: self.offset as nat }
    }
}

impl<'a> Decoder<'a> {
    #[verifier::type_invariant]
    spec fn cursor_in_bounds(&self) -> bool {
        self.offset <= self.buf@.len()
    }

    /// A decoder over `buf`, with nothing consumed yet.
    pub fn new(buf: &[u8]) -> (d: Decoder<'_>)
        ensures
            d@ == (DecoderView { bytes: buf@, offset: 0 }),
    {
        Decoder { buf, offset: 0 }
    }

    /// The number of bytes not yet consumed.
    pub fn remain(&self) -> (n: usize)
        ensures
            self@.wf(),
            n == self@.remain(),
    {
        proof {
            use_type_invariant(self);
        }
        self.buf.len() - self.offset
    }

    /// Whether every byte has been consumed.
    pub fn empty(&self) -> (b: bool)
        ensures
            self@.wf(),
            b <==> self@.remain() == 0,
    {
        self.remain() == 0
    }

    /// The byte under the cursor, which stays where it is; `None` when no
    /// byte is left.
    pub fn peek_byte(&self) -> (b: Option<u8>)
        ensures
            self@.wf(),
            b == self@.peek(),
    {
        if self.empty() {
            return None;
        }
        let b = self.buf[self.offset];
        Some(b)
    }

    /// Hands out the next `n` bytes, without copying them, and moves the
    /// cursor past them; `None`, and the cursor stays, when fewer than `n`
    /// bytes are left.
    pub fn decode(&mut self, n: usize) -> (bytes: Option<&'a [u8]>)
        ensures
            old(self)@.wf(),
            final(self)@.wf(),
            match old(self)@.read(n as nat) {
                Some((next, rest)) => bytes.is_some() && bytes.unwrap()@ == next && final(self)@
                    == rest,
                None => bytes.is_none() && final(self)@ == old(self)@,
            },
    {
        if self.remain() < n {
            return None;
        }
        proof {
            use_type_invariant(&*self);
            assert(self.buf@.len() == self.buf.len());
        }
        let end = self.offset + n;
        let b = &self.buf[self.offset..end];
        self.offset = end;
        Some(b)
    }

    /// Reads the next `n` bytes as one big-endian number and moves the cursor
    /// past them; `None`, and the cursor stays, when fewer than `n` bytes are
    /// left. Any bit pattern is a number: nothing is rejected.
    pub fn decode_uint(&mut self, n: usize) -> (v: Option<u64>)
        ensures
            old(self)@.wf(),
            final(self)@.wf(),
            match old(self)@.read_uint(n as nat) {
                Some((value, rest)) => v == Some(value) && final(self)@ == rest,
                None => v.is_none() && final(self)@ == old(self)@,
            },
    {
        if self.remain() < n {
            return None;
        }
        proof {
            use_type_invariant(&*self);
            assert(self.buf@.len() == self.buf.len());
        }
        let mut res = 0_u64;
        for i in 0..n
            invariant
                self.offset + n <= self.buf@.len() <= usize::MAX,
                res == be_value(self@.next(i as nat)) % 0x1_0000_0000_0000_0000,
        {
            let byte = self.buf[self.offset + i];
            proof {
                let seen = self@.next(i as nat);
                assert(self@.next((i + 1) as nat) =~= seen.push(byte));
                lemma_be_value_push(seen, byte);
                lemma_accumulate(res, be_value(seen), byte);
            }
            res = res << 8 | u64::from(byte);
        }
        self.offset += n;
        Some(res)
    }

    /// Reads the variable-width integer at the cursor: the two most
    /// significant bits of the first byte say how many bytes it occupies,
    /// and the rest of those bytes, big-endian, is the value. `None`, and
    /// the cursor stays, when no byte is left or fewer than announced.
    pub fn decode_varint(&mut self) -> (v: Option<u64>)
        ensures
            old(self)@.wf(),
            final(self)@.wf(),
            match old(self)@.read_varint() {
                Some((value, rest)) => v == Some(value) && final(self)@ == rest,
                None => v.is_none() && final(self)@ == old(self)@,
            },
    {
        let peek = match self.peek_byte() {
            Some(b) => b,
            None => return None,
        };
        let tag = peek >> 6;
        proof {
            assert(tag == 0 <==> peek < 0x40) by (bit_vector)
                requires
                    tag == peek >> 6,
            ;
            assert(tag == 1 <==> 0x40 <= peek < 0x80) by (bit_vector)
                requires
                    tag == peek >> 6,
            ;
            assert(tag == 2 <==> 0x80 <= peek < 0xc0) by (bit_vector)
                requires
                    tag == peek >> 6,
            ;
            lemma_capacity_values();
        }
        let (width, mask): (usize, u64) = if tag == 0 {
            (1, 0x3f)
        } else if tag == 1 {
            (2, 0x3fff)
        } else if tag == 2 {
            (4, 0x3fff_ffff)
        } else {
            (8, 0x3fff_ffff_ffff_ffff)
        };
        match self.decode_uint(width) {
            Some(x) => {
                proof {
                    let bytes = old(self)@.next(width as nat);
                    lemma_be_value_bound(bytes);
                    assert(x & 0x3f == x % 0x40) by (bit_vector);
                    assert(x & 0x3fff == x % 0x4000) by (bit_vector);
                    assert(x & 0x3fff_ffff == x % 0x4000_0000) by (bit_vector);
                    assert(x & 0x3fff_ffff_ffff_ffff == x % 0x4000_0000_0000_0000) by (bit_vector);
                }
                Some(x & mask)
            },
            None => None,
        }
    }
}

} // verus!
