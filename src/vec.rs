use vstd::prelude::*;

verus! {

/// An in-memory byte store that readers and writers share. Writers append to
/// it; each reader keeps its own cursor into it.
#[derive(Debug, Default)]
pub struct Builder {
    buffer: Vec<u8>,
}

/// A cursor over a [`Builder`]'s store.
#[derive(Debug)]
pub struct Reader {
    bytes_read: usize,
}

/// An appender to a [`Builder`]'s store.
#[derive(Debug)]
pub struct Writer {}

impl View for Builder {
    type V = Seq<u8>;

    closed spec fn view(&self) -> Seq<u8> {
        self.buffer@
    }
}

impl Reader {
    /// How many bytes of the store this reader has consumed.
    pub closed spec fn cursor(&self) -> nat {
        self.bytes_read as nat
    }
}

impl Builder {
    /// An empty store.
    pub fn new() -> (r: Self)
        ensures
            r@ == Seq::<u8>::empty(),
    {
        Builder { buffer: Vec::new() }
    }

    /// How many bytes the store holds.
    pub fn len(&self) -> (r: usize)
        ensures
            r == self@.len(),
    {
        self.buffer.len()
    }

    /// The bytes of the store.
    pub fn into_bytes(self) -> (r: Vec<u8>)
        ensures
            r@ == self@,
    {
        self.buffer
    }

    /// A reader that starts at the beginning of the store.
    pub fn reader(&self) -> (r: Reader)
        ensures
            r.cursor() == 0,
    {
        Reader { bytes_read: 0 }
    }

    /// A writer that appends to the store.
    pub fn writer(&self) -> (w: Writer) {
        Writer {}
    }
}

impl Reader {
    /// How many bytes of the store this reader has consumed.
    pub fn position(&self) -> (r: usize)
        ensures
            r == self.cursor(),
    {
        self.bytes_read
    }

    /// Copies as many unread bytes of `source` into `buf` as fit, and advances
    /// the cursor past them. Returns 0 once everything written so far is read.
    pub fn read(&mut self, source: &Builder, buf: &mut [u8]) -> (n: usize)
        requires
            old(self).cursor() <= source@.len(),
        ensures
            n == vstd::math::min(
                source@.len() - old(self).cursor(),
                old(buf)@.len() as int,
            ),
            final(self).cursor() == old(self).cursor() + n,
            final(buf)@.len() == old(buf)@.len(),
            final(buf)@.subrange(0, n as int) == source@.subrange(
                old(self).cursor() as int,
                old(self).cursor() + n,
            ),
            final(buf)@.subrange(n as int, old(buf)@.len() as int) == old(buf)@.subrange(
                n as int,
                old(buf)@.len() as int,
            ),
    {
        let available: usize = source.buffer.len() - self.bytes_read;
        let n: usize = if available < buf.len() {
            available
        } else {
            buf.len()
        };
        let start: usize = self.bytes_read;
        let mut i: usize = 0;
        while i < n
            invariant
                i <= n,
                n <= buf@.len(),
                start + n <= source@.len(),
                source@.len() <= usize::MAX,
                buf@.len() == old(buf)@.len(),
                forall|j: int| 0 <= j < i ==> buf@[j] == source@[start + j],
                forall|j: int| i <= j < buf@.len() ==> buf@[j] == old(buf)@[j],
            decreases n - i,
        {
            buf[i] = source.buffer[start + i];
            i = i + 1;
        }
        self.bytes_read = start + n;
        assert(buf@.subrange(0, n as int) =~= source@.subrange(start as int, start + n));
        assert(buf@.subrange(n as int, buf@.len() as int) =~= old(buf)@.subrange(
            n as int,
            old(buf)@.len() as int,
        ));
        n
    }
}

impl Writer {
    /// Appends all of `buf` to the store of `target` and returns its length.
    pub fn write(&mut self, target: &mut Builder, buf: &[u8]) -> (n: usize)
        requires
            old(target)@.len() + buf@.len() <= usize::MAX,
        ensures
            n == buf@.len(),
            final(target)@ == old(target)@ + buf@,
    {
        target.buffer.extend_from_slice(buf);
        buf.len()
    }

    /// Nothing to synchronise: the store is in memory.
    pub fn flush(&mut self) {
    }
}

} // verus!
