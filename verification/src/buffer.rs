//! Growable byte storage with separate read and write cursors.
//!
//! A `Buffer` is the unit of I/O accounting: bytes arriving from a socket
//! are appended at the write cursor, and consumers (the parser, the body
//! receiver, the socket writer) advance the read cursor.  The region
//! between the two cursors is the unread region.

use vstd::prelude::*;

verus! {

/// Byte storage with a read cursor and a write cursor.
///
/// Invariant: `read_pos <= write_pos <= storage.len()`.  The bytes in
/// `storage[read_pos .. write_pos]` are the unread region; bytes below
/// `read_pos` have been consumed and are reclaimed by `compact`.
pub struct Buffer {
    storage: Vec<u8>,
    read_pos: usize,
    write_pos: usize,
}

impl Buffer {
    /// The unread region: written but not yet consumed bytes, oldest first.
    pub closed spec fn unread(self) -> Seq<u8> {
        self.storage@.subrange(self.read_pos as int, self.write_pos as int)
    }

    /// Cursor well-formedness: `read_pos <= write_pos <= storage.len()`.
    pub closed spec fn wf(self) -> bool {
        self.read_pos <= self.write_pos <= self.storage@.len()
    }

    /// How many consumed bytes sit below the read cursor, awaiting `compact`.
    pub closed spec fn consumed(self) -> int {
        self.read_pos as int
    }

    /// An empty buffer with both cursors at zero.
    pub fn new() -> (r: Buffer)
        ensures
            r.wf(),
            r.unread() == Seq::<u8>::empty(),
            r.consumed() == 0,
    {
        let r = Buffer { storage: Vec::new(), read_pos: 0, write_pos: 0 };
        proof {
            assert(r.unread() =~= Seq::<u8>::empty());
        }
        r
    }

    /// Length of the unread region.
    pub fn unread_len(&self) -> (r: usize)
        requires
            self.wf(),
        ensures
            r == self.unread().len(),
    {
        self.write_pos - self.read_pos
    }

    /// The `i`-th byte of the unread region.
    pub fn get(&self, i: usize) -> (r: u8)
        requires
            self.wf(),
            i < self.unread().len(),
        ensures
            r == self.unread()[i as int],
    {
        self.storage[self.read_pos + i]
    }

    /// Appends `data` after the unread region, as a socket read would.
    pub fn append(&mut self, data: &Vec<u8>)
        requires
            old(self).wf(),
            old(self).unread().len() + data@.len() <= usize::MAX - old(self).consumed(),
        ensures
            final(self).wf(),
            final(self).unread() == old(self).unread() + data@,
            final(self).consumed() == old(self).consumed(),
    {
        // Discard any stale bytes past the write cursor, then extend.
        self.storage.truncate(self.write_pos);
        let mut i: usize = 0;
        while i < data.len()
            invariant
                i <= data@.len(),
                self.read_pos == old(self).read_pos,
                self.write_pos == old(self).write_pos,
                self.write_pos as int + data@.len() <= usize::MAX,
                self.storage@.len() == self.write_pos + i,
                self.read_pos <= self.write_pos,
                self.storage@.subrange(self.read_pos as int, self.write_pos as int)
                    == old(self).unread(),
                self.storage@.subrange(self.write_pos as int, self.storage@.len() as int)
                    == data@.subrange(0, i as int),
            decreases data@.len() - i,
        {
            let b = data[i];
            self.storage.push(b);
            proof {
                assert(self.storage@.subrange(self.read_pos as int, self.write_pos as int)
                    =~= old(self).unread());
                assert(self.storage@.subrange(self.write_pos as int, self.storage@.len() as int)
                    =~= data@.subrange(0, i + 1));
            }
            i = i + 1;
        }
        self.write_pos = self.storage.len();
        proof {
            assert(data@.subrange(0, data@.len() as int) =~= data@);
            assert(self.unread() =~= old(self).unread() + data@);
        }
    }

    /// Advances the read cursor over `n` consumed bytes.
    pub fn consume(&mut self, n: usize)
        requires
            old(self).wf(),
            n <= old(self).unread().len(),
        ensures
            final(self).wf(),
            final(self).unread() == old(self).unread().skip(n as int),
            final(self).consumed() == old(self).consumed() + n,
    {
        self.read_pos = self.read_pos + n;
        proof {
            assert(self.unread() =~= old(self).unread().skip(n as int));
        }
    }

    /// Reclaims consumed storage, keeping the unread region intact.
    pub fn compact(&mut self)
        requires
            old(self).wf(),
        ensures
            final(self).wf(),
            final(self).unread() == old(self).unread(),
            final(self).consumed() == 0,
    {
        let mut kept: Vec<u8> = Vec::new();
        let mut i: usize = self.read_pos;
        while i < self.write_pos
            invariant
                self == old(self),
                self.wf(),
                self.read_pos <= i <= self.write_pos,
                kept@ == self.storage@.subrange(self.read_pos as int, i as int),
            decreases self.write_pos - i,
        {
            let b = self.storage[i];
            kept.push(b);
            proof {
                assert(kept@ =~= self.storage@.subrange(self.read_pos as int, i + 1));
            }
            i = i + 1;
        }
        self.storage = kept;
        self.read_pos = 0;
        self.write_pos = self.storage.len();
        proof {
            assert(self.unread() =~= old(self).unread());
        }
    }

    /// Takes the first `n` unread bytes out of the buffer.
    pub fn take(&mut self, n: usize) -> (r: Vec<u8>)
        requires
            old(self).wf(),
            n <= old(self).unread().len(),
        ensures
            final(self).wf(),
            r@ == old(self).unread().take(n as int),
            final(self).unread() == old(self).unread().skip(n as int),
    {
        let mut out: Vec<u8> = Vec::new();
        let mut i: usize = 0;
        while i < n
            invariant
                self == old(self),
                self.wf(),
                i <= n <= self.unread().len(),
                out@ == self.unread().subrange(0, i as int),
            decreases n - i,
        {
            let b = self.get(i);
            out.push(b);
            proof {
                assert(out@ =~= self.unread().subrange(0, i + 1));
            }
            i = i + 1;
        }
        self.consume(n);
        proof {
            assert(out@ =~= old(self).unread().take(n as int));
        }
        out
    }
}

} // verus!
