//! The receive buffer of a connection that reads into a growing byte array.

use vstd::prelude::*;

verus! {

/// What a read of `n` bytes means for the connection.
#[derive(Debug, PartialEq, Eq, Structural, Clone, Copy)]
pub enum ReadStep {
    /// Bytes arrived; try to parse again.
    Continue,
    /// The peer closed the connection between frames.
    Closed,
    /// The peer closed the connection in the middle of a frame
    /// ("connection reset by peer").
    Reset,
}

/// What reading nothing means when `buffered` bytes wait to be parsed: a
/// clean close when there are none, else a reset in the middle of a frame.
pub open spec fn end_step(buffered: nat) -> ReadStep {
    if buffered == 0 {
        ReadStep::Closed
    } else {
        ReadStep::Reset
    }
}

/// The step for a read of no bytes while `buffered` bytes wait to be parsed.
pub fn end_of_stream(buffered: &[u8]) -> (r: ReadStep)
    ensures
        r == end_step(buffered@.len()),
{
    if buffered.len() == 0 {
        ReadStep::Closed
    } else {
        ReadStep::Reset
    }
}

/// A byte array of which the first `cursor` bytes have been received.
pub struct ReadBuffer {
    buffer: Vec<u8>,
    cursor: usize,
}

impl ReadBuffer {
    #[verifier::type_invariant]
    closed spec fn cursor_in_bounds(&self) -> bool {
        self.cursor <= self.buffer@.len()
    }

    /// The bytes received so far.
    pub closed spec fn received(&self) -> Seq<u8> {
        self.buffer@.take(self.cursor as int)
    }

    /// The size of the array.
    pub closed spec fn capacity(&self) -> nat {
        self.buffer@.len()
    }

    /// An empty buffer of 4096 bytes.
    pub fn new() -> (r: ReadBuffer)
        ensures
            r.received() == Seq::<u8>::empty(),
            r.capacity() == 4096,
    {
        let mut buffer: Vec<u8> = Vec::new();
        let mut i: usize = 0;
        while i < 4096
            invariant
                i <= 4096,
                buffer@.len() == i,
            decreases 4096 - i,
        {
            buffer.push(0u8);
            i += 1;
        }
        let r = ReadBuffer { buffer, cursor: 0 };
        assert(r.received() =~= Seq::<u8>::empty());
        r
    }

    /// Doubles the array when it is full, keeping the bytes received.
    pub fn grow_if_full(&mut self)
        requires
            2 * old(self).capacity() <= usize::MAX,
        ensures
            final(self).received() == old(self).received(),
            final(self).capacity() == if old(self).received().len() == old(self).capacity() {
                2 * old(self).capacity()
            } else {
                old(self).capacity()
            },
    {
        proof {
            use_type_invariant(&*self);
        }
        if self.buffer.len() == self.cursor {
            let target = self.cursor * 2;
            let mut whole = ReadBuffer { buffer: Vec::new(), cursor: 0 };
            std::mem::swap(&mut whole, self);
            let ReadBuffer { buffer: mut buffer, cursor: c } = whole;
            let ghost before = buffer@;
            while buffer.len() < target
                invariant
                    before.len() <= buffer@.len() <= target,
                    buffer@.take(before.len() as int) == before,
                decreases target - buffer@.len(),
            {
                let ghost b0 = buffer@;
                buffer.push(0u8);
                assert(buffer@.take(before.len() as int) =~= b0.take(before.len() as int));
            }
            assert(buffer@.take(c as int) =~= before.take(c as int));
            *self = ReadBuffer { buffer, cursor: c };
        }
    }

    /// Whether the array can still double without overflowing `usize`.
    pub fn can_grow(&self) -> (r: bool)
        ensures
            r == (2 * self.capacity() <= usize::MAX),
    {
        self.buffer.len() <= usize::MAX / 2
    }

    /// How many bytes the next read may bring.
    pub fn spare(&self) -> (r: usize)
        ensures
            r == self.capacity() - self.received().len(),
    {
        proof {
            use_type_invariant(self);
        }
        self.buffer.len() - self.cursor
    }

    /// Takes the bytes of one read. No bytes means the peer closed: cleanly
    /// when nothing had been received, else in the middle of a frame.
    pub fn take_read(&mut self, data: &[u8]) -> (r: ReadStep)
        requires
            data@.len() <= old(self).capacity() - old(self).received().len(),
        ensures
            final(self).capacity() == old(self).capacity(),
            data@.len() == 0 ==> final(self).received() == old(self).received() && r == end_step(
                old(self).received().len(),
            ),
            data@.len() > 0 ==> final(self).received() == old(self).received() + data@ && r
                == ReadStep::Continue,
    {
        proof {
            use_type_invariant(&*self);
        }
        if data.len() == 0 {
            if self.cursor == 0 {
                return ReadStep::Closed;
            } else {
                return ReadStep::Reset;
            }
        }
        let mut whole = ReadBuffer { buffer: Vec::new(), cursor: 0 };
        std::mem::swap(&mut whole, self);
        let ReadBuffer { buffer: mut buffer, cursor: c } = whole;
        let ghost before = buffer@;
        let mut i: usize = 0;
        while i < data.len()
            invariant
                c + data@.len() <= before.len(),
                buffer@.len() == before.len(),
                c + data@.len() <= buffer.len(),
                i <= data@.len(),
                buffer@.take(c as int) == before.take(c as int),
                buffer@.subrange(c as int, c + i) == data@.take(i as int),
            decreases data@.len() - i,
        {
            let ghost b0 = buffer@;
            buffer.set(c + i, data[i]);
            assert(buffer@.take(c as int) =~= b0.take(c as int));
            assert(buffer@.subrange(c as int, c + i + 1) =~= data@.take(i + 1));
            i += 1;
        }
        let nc = c + data.len();
        assert(data@.take(data@.len() as int) == data@);
        assert(buffer@.take(nc as int) =~= buffer@.take(c as int) + buffer@.subrange(c as int, nc as int));
        assert(buffer@.take(nc as int) =~= before.take(c as int) + data@);
        *self = ReadBuffer { buffer, cursor: nc };
        ReadStep::Continue
    }
}

} // verus!
