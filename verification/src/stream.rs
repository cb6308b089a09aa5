//! A byte stream held in memory, with a read position.

use vstd::prelude::*;

verus! {

/// What a [`ByteReader`] is to a contract: the bytes of the stream and the read position.
pub struct StreamView {
    pub bytes: Seq<u8>,
    pub pos: int,
}

impl StreamView {
    /// The bytes from the read position to the end of the stream.
    pub open spec fn remaining(self) -> Seq<u8> {
        self.bytes.subrange(self.pos, self.bytes.len() as int)
    }

    /// Whether `n` more bytes can be read.
    pub open spec fn has(self, n: int) -> bool {
        self.pos + n <= self.bytes.len()
    }

    /// The stream after an exact read of `n` bytes: the position moves past them, or to
    /// the end of the stream where fewer than `n` were left.
    pub open spec fn after_read(self, n: int) -> StreamView {
        StreamView { bytes: self.bytes, pos: if self.has(n) { self.pos + n } else { self.bytes.len() as int } }
    }

    /// The stream with the read position at `pos`, or at the end where `pos` lies beyond it.
    pub open spec fn at(self, pos: int) -> StreamView {
        StreamView { bytes: self.bytes, pos: if pos <= self.bytes.len() { pos } else { self.bytes.len() as int } }
    }
}

/// A stream of bytes that is read front to back and can be repositioned.
///
/// The read position never lies beyond the end of the stream.
pub struct ByteReader {
    bytes: Vec<u8>,
    pos: usize,
}

impl View for ByteReader {
    type V = StreamView;

    closed spec fn view(&self) -> StreamView {
        StreamView { bytes: self.bytes@, pos: self.pos as int }
    }
}

impl ByteReader {
    #[verifier::type_invariant]
    spec fn in_bounds(self) -> bool {
        self.pos <= self.bytes@.len()
    }

    /// A reader at the start of `bytes`.
    pub fn new(bytes: Vec<u8>) -> (r: ByteReader)
        ensures
            r@.bytes == bytes@,
            r@.pos == 0,
    {
        ByteReader { bytes, pos: 0 }
    }

    /// The number of bytes in the stream.
    pub fn len(&self) -> (n: usize)
        ensures
            n == self@.bytes.len(),
            self@.pos <= n,
    {
        proof {
            use_type_invariant(self);
        }
        self.bytes.len()
    }

    /// The read position, counted from the start of the stream.
    pub fn position(&self) -> (p: usize)
        ensures
            p == self@.pos,
            p <= self@.bytes.len(),
    {
        proof {
            use_type_invariant(self);
        }
        self.pos
    }

    /// Moves the read position to `pos`, or to the end of the stream where `pos` lies
    /// beyond it.
    pub fn seek(&mut self, pos: usize)
        ensures
            final(self)@ == old(self)@.at(pos as int),
    {
        let n: usize = self.bytes.len();
        self.pos = if pos <= n { pos } else { n };
    }

    /// Moves the read position `n` bytes forward, stopping at the end of the stream.
    pub fn skip(&mut self, n: usize)
        ensures
            final(self)@ == old(self)@.after_read(n as int),
            0 <= old(self)@.pos <= old(self)@.bytes.len(),
    {
        proof {
            use_type_invariant(&*self);
        }
        let left: usize = self.bytes.len() - self.pos;
        if n <= left {
            self.pos = self.pos + n;
        } else {
            self.pos = self.bytes.len();
        }
    }

    /// Reads exactly `n` bytes. Where fewer are left, nothing is returned and the rest of
    /// the stream is consumed.
    pub fn read_exact(&mut self, n: usize) -> (got: Option<Vec<u8>>)
        ensures
            final(self)@ == old(self)@.after_read(n as int),
            got is Some <==> old(self)@.has(n as int),
            got matches Some(v) ==> v@.len() == n && v@ == old(self)@.bytes.subrange(
                old(self)@.pos,
                old(self)@.pos + n,
            ),
            0 <= old(self)@.pos <= old(self)@.bytes.len(),
    {
        proof {
            use_type_invariant(&*self);
        }
        let left: usize = self.bytes.len() - self.pos;
        if n <= left {
            let start: usize = self.pos;
            let end: usize = start + n;
            let mut out: Vec<u8> = Vec::with_capacity(n);
            let mut i: usize = start;
            while i < end
                invariant
                    start <= i <= end,
                    end <= self.bytes@.len(),
                    out@ == self.bytes@.subrange(start as int, i as int),
                decreases end - i,
            {
                out.push(self.bytes[i]);
                i += 1;
                assert(out@ =~= self.bytes@.subrange(start as int, i as int));
            }
            self.pos = end;
            Some(out)
        } else {
            self.pos = self.bytes.len();
            None
        }
    }

    /// Reads all the bytes that are left.
    pub fn read_to_end(&mut self) -> (rest: Vec<u8>)
        ensures
            rest@ == old(self)@.remaining(),
            final(self)@ == old(self)@.at(old(self)@.bytes.len() as int),
    {
        proof {
            use_type_invariant(&*self);
        }
        let left: usize = self.bytes.len() - self.pos;
        match self.read_exact(left) {
            Some(rest) => rest,
            None => Vec::new(),
        }
    }

    /// Gives the bytes of the stream back, whatever the read position.
    pub fn into_bytes(self) -> (bytes: Vec<u8>)
        ensures
            bytes@ == self@.bytes,
    {
        self.bytes
    }
}

} // verus!
