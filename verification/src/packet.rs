//! A byte buffer of fixed capacity, for frames and their bodies.

use vstd::prelude::*;

verus! {

/// The most bytes that the transport carries in one packet, and so the
/// capacity of a [`Packet`].
pub const MAX_SIZE: usize = 64;

/// Up to [`MAX_SIZE`] bytes, held in place.
#[derive(Clone, Copy, Debug)]
pub struct Packet {
    bytes: [u8; 64],
    len: usize,
}

impl View for Packet {
    type V = Seq<u8>;

    /// The bytes that the packet holds, in order.
    closed spec fn view(&self) -> Seq<u8> {
        self.bytes@.take(
            if self.len <= MAX_SIZE {
                self.len as int
            } else {
                MAX_SIZE as int
            },
        )
    }
}

impl Packet {
    #[verifier::type_invariant]
    spec fn within_capacity(self) -> bool {
        self.len <= MAX_SIZE
    }

    /// No packet holds more than [`MAX_SIZE`] bytes.
    pub broadcast proof fn lemma_fits(self)
        ensures
            #[trigger] self@.len() <= MAX_SIZE,
    {
    }

    /// The empty packet.
    pub fn new() -> (packet: Self)
        ensures
            packet@ == Seq::<u8>::empty(),
    {
        let packet = Packet { bytes: [0u8; 64], len: 0 };
        assert(packet@ =~= Seq::<u8>::empty());
        packet
    }

    /// How many bytes the packet holds.
    pub fn len(&self) -> (len: usize)
        ensures
            len == self@.len(),
            len <= MAX_SIZE,
    {
        proof {
            use_type_invariant(self);
        }
        self.len
    }

    /// The byte at `index`.
    pub fn get(&self, index: usize) -> (byte: u8)
        requires
            index < self@.len(),
        ensures
            byte == self@[index as int],
    {
        proof {
            use_type_invariant(self);
        }
        self.bytes[index]
    }

    /// Appends `byte`, unless the packet is full: then nothing changes and the
    /// answer is `false`.
    pub fn push(&mut self, byte: u8) -> (pushed: bool)
        ensures
            pushed == (old(self)@.len() < MAX_SIZE),
            final(self)@ == if pushed {
                old(self)@.push(byte)
            } else {
                old(self)@
            },
    {
        proof {
            use_type_invariant(&*self);
        }
        if self.len < MAX_SIZE {
            self.bytes[self.len] = byte;
            self.len += 1;
            assert(self@ =~= old(self)@.push(byte));
            true
        } else {
            false
        }
    }

    /// Replaces the byte at `index` by `byte`.
    pub fn set(&mut self, index: usize, byte: u8)
        requires
            index < old(self)@.len(),
        ensures
            final(self)@ == old(self)@.update(index as int, byte),
    {
        proof {
            use_type_invariant(&*self);
        }
        self.bytes[index] = byte;
        assert(self@ =~= old(self)@.update(index as int, byte));
    }

    /// The bytes that the packet holds.
    pub fn as_slice(&self) -> (bytes: &[u8])
        ensures
            bytes@ == self@,
    {
        proof {
            use_type_invariant(self);
        }
        let bytes = vstd::slice::slice_subrange(self.bytes.as_slice(), 0, self.len);
        assert(bytes@ =~= self@);
        bytes
    }
}

} // verus!
