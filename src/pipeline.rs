use crate::checksum::{crc32_of, crc_fed};
use crate::compression::{Compression, CompressionBuilder, Deflate, Gz, Zlib};
use crate::transform::{
    apply_layer, cipher_exhausted, decode, exhausts, encode, lemma_chunks, lemma_exhausted_later, lemma_mask_low, lemma_mask_split, lemma_xor_assoc,
    mask, through, Transform,
};
use crate::Error;
use vstd::prelude::*;

verus! {

/// How many bytes one read of [`Pipeline::read_all`] asks for.
pub const BLOCK_SIZE: usize = 1024;

/// A stack of layers over a shared in-memory store. The last layer added is
/// the outermost: a writer hands data to it first, a reader gets data from it
/// last.
#[derive(Debug)]
pub struct Pipeline {
    source: crate::vec::Builder,
    layers: Vec<Transform>,
}

/// Reads through every layer of a [`Pipeline`], decoding from the innermost
/// layer outwards.
#[derive(Debug)]
pub struct Reader {
    inner: crate::vec::Reader,
    sums: Vec<Option<flate2::Crc>>,
}

/// Writes through every layer of a [`Pipeline`], encoding from the outermost
/// layer inwards.
pub struct Writer {
    inner: crate::vec::Writer,
    written: usize,
    sums: Vec<Option<flate2::Crc>>,
    sent: Ghost<Seq<u8>>,
}

impl Reader {
    /// How many bytes of the store this reader has consumed.
    pub closed spec fn cursor(&self) -> nat {
        self.inner.cursor()
    }

    /// The running checksum kept for each layer (`None` for all but `Crc`).
    pub closed spec fn sums(&self) -> Seq<Option<flate2::Crc>> {
        self.sums@
    }

    /// The CRC-32 of what passed the checksum layer at index `layer`, or
    /// `None` where that layer computes no checksum.
    pub fn crc(&self, layer: usize) -> (r: Option<u32>)
        ensures
            r == (if layer < self.sums().len() && self.sums()[layer as int] is Some {
                Some(crc32_of(crc_fed(self.sums()[layer as int]->Some_0)))
            } else {
                None::<u32>
            }),
    {
        if layer < self.sums.len() {
            match &self.sums[layer] {
                Some(c) => Some(c.sum()),
                None => None,
            }
        } else {
            None
        }
    }

    /// How many bytes passed the checksum layer at index `layer`, modulo
    /// 2^32, or `None` where that layer computes no checksum.
    pub fn amount(&self, layer: usize) -> (r: Option<u32>)
        ensures
            r == (if layer < self.sums().len() && self.sums()[layer as int] is Some {
                Some((crc_fed(self.sums()[layer as int]->Some_0).len() % 0x1_0000_0000) as u32)
            } else {
                None::<u32>
            }),
    {
        if layer < self.sums.len() {
            match &self.sums[layer] {
                Some(c) => Some(c.amount()),
                None => None,
            }
        } else {
            None
        }
    }
}

impl Writer {
    /// How many plaintext bytes this writer has written.
    pub closed spec fn written(&self) -> nat {
        self.written as nat
    }

    /// The plaintext bytes this writer has written, in order.
    pub closed spec fn sent(&self) -> Seq<u8> {
        self.sent@
    }

    /// The running checksum kept for each layer (`None` for all but `Crc`).
    pub closed spec fn sums(&self) -> Seq<Option<flate2::Crc>> {
        self.sums@
    }

    /// The CRC-32 of what passed the checksum layer at index `layer`, or
    /// `None` where that layer computes no checksum.
    pub fn crc(&self, layer: usize) -> (r: Option<u32>)
        ensures
            r == (if layer < self.sums().len() && self.sums()[layer as int] is Some {
                Some(crc32_of(crc_fed(self.sums()[layer as int]->Some_0)))
            } else {
                None::<u32>
            }),
    {
        if layer < self.sums.len() {
            match &self.sums[layer] {
                Some(c) => Some(c.sum()),
                None => None,
            }
        } else {
            None
        }
    }

    /// How many bytes passed the checksum layer at index `layer`, modulo
    /// 2^32, or `None` where that layer computes no checksum.
    pub fn amount(&self, layer: usize) -> (r: Option<u32>)
        ensures
            r == (if layer < self.sums().len() && self.sums()[layer as int] is Some {
                Some((crc_fed(self.sums()[layer as int]->Some_0).len() % 0x1_0000_0000) as u32)
            } else {
                None::<u32>
            }),
    {
        if layer < self.sums.len() {
            match &self.sums[layer] {
                Some(c) => Some(c.amount()),
                None => None,
            }
        } else {
            None
        }
    }
}

/// Fresh checksum slots: one computation for each `Crc` layer.
fn fresh_sums(layers: &Vec<Transform>) -> (r: Vec<Option<flate2::Crc>>)
    ensures
        r@.len() == layers@.len(),
        forall|k: int|
            0 <= k < r@.len() ==> (#[trigger] r@[k] is Some <==> layers@[k] is Crc),
        forall|k: int|
            0 <= k < r@.len() && #[trigger] r@[k] is Some ==> crc_fed(r@[k]->Some_0) == Seq::<
                u8,
            >::empty(),
{
    let mut r: Vec<Option<flate2::Crc>> = Vec::new();
    let mut k: usize = 0;
    while k < layers.len()
        invariant
            k <= layers@.len(),
            r@.len() == k,
            forall|j: int| 0 <= j < k ==> (#[trigger] r@[j] is Some <==> layers@[j] is Crc),
            forall|j: int|
                0 <= j < k && #[trigger] r@[j] is Some ==> crc_fed(r@[j]->Some_0) == Seq::<
                    u8,
                >::empty(),
        decreases layers@.len() - k,
    {
        match layers[k] {
            Transform::Crc => r.push(Some(flate2::Crc::new())),
            _ => r.push(None),
        }
        k = k + 1;
    }
    r
}

impl Pipeline {
    /// The bytes held by the shared store.
    pub closed spec fn store(&self) -> Seq<u8> {
        self.source@
    }

    /// The layers, innermost first.
    pub closed spec fn layers(&self) -> Seq<Transform> {
        self.layers@
    }

    /// A reader is consistent with this stack: its cursor lies in the store
    /// and each checksum has been fed what reached its layer so far.
    pub open spec fn reader_wf(&self, r: &Reader) -> bool {
        let layers = self.layers();
        &&& r.cursor() <= self.store().len()
        &&& r.sums().len() == layers.len()
        &&& forall|k: int|
            0 <= k < layers.len() ==> (#[trigger] r.sums()[k] is Some <==> layers[k] is Crc)
        &&& forall|k: int|
            0 <= k < layers.len() && #[trigger] r.sums()[k] is Some ==> crc_fed(r.sums()[k]->Some_0)
                == through(layers, 0, k, 0, self.store().take(r.cursor() as int))
    }

    /// A writer is consistent with this stack: all it wrote is in the store
    /// and each checksum has been fed what reached its layer so far.
    pub open spec fn writer_wf(&self, w: &Writer) -> bool {
        let layers = self.layers();
        &&& w.written() == w.sent().len()
        &&& w.written() <= self.store().len()
        &&& w.sums().len() == layers.len()
        &&& forall|k: int|
            0 <= k < layers.len() ==> (#[trigger] w.sums()[k] is Some <==> layers[k] is Crc)
        &&& forall|k: int|
            0 <= k < layers.len() && #[trigger] w.sums()[k] is Some ==> crc_fed(w.sums()[k]->Some_0)
                == through(layers, k + 1, layers.len() as int, 0, w.sent())
    }

    /// A stack with no layers over `source`.
    pub fn new(source: crate::vec::Builder) -> (r: Pipeline)
        ensures
            r.store() == source@,
            r.layers() == Seq::<Transform>::empty(),
    {
        Pipeline { source, layers: Vec::new() }
    }

    /// A stack of `layers`, innermost first, over `source`.
    pub fn from_parts(source: crate::vec::Builder, layers: Vec<Transform>) -> (r: Pipeline)
        ensures
            r.store() == source@,
            r.layers() == layers@,
    {
        Pipeline { source, layers }
    }

    /// Adds `t` as the new outermost layer.
    pub fn wrap(self, t: Transform) -> (r: Pipeline)
        ensures
            r.store() == self.store(),
            r.layers() == self.layers().push(t),
    {
        let mut layers = self.layers;
        layers.push(t);
        Pipeline { source: self.source, layers }
    }

    /// A reader from the start of the store, with fresh checksums.
    pub fn reader(&self) -> (r: Reader)
        ensures
            self.reader_wf(&r),
            r.cursor() == 0,
    {
        let r = Reader { inner: self.source.reader(), sums: fresh_sums(&self.layers) };
        assert forall|k: int| 0 <= k < self.layers().len() implies #[trigger] through(
            self.layers(),
            0,
            k,
            0,
            self.store().take(0),
        ) == Seq::<u8>::empty() by {
            assert(through(self.layers(), 0, k, 0, self.store().take(0)) =~= Seq::<u8>::empty());
        }
        r
    }

    /// A writer that has written nothing yet, with fresh checksums. Its
    /// keystreams start at position 0.
    pub fn writer(&self) -> (w: Writer)
        ensures
            self.writer_wf(&w),
            w.written() == 0,
    {
        let w = Writer {
            inner: self.source.writer(),
            written: 0,
            sums: fresh_sums(&self.layers),
            sent: Ghost(Seq::empty()),
        };
        assert forall|k: int| 0 <= k < self.layers().len() implies #[trigger] through(
            self.layers(),
            k + 1,
            self.layers().len() as int,
            0,
            Seq::<u8>::empty(),
        ) == Seq::<u8>::empty() by {
            assert(through(self.layers(), k + 1, self.layers().len() as int, 0, Seq::<u8>::empty())
                =~= Seq::<u8>::empty());
        }
        w
    }

    /// Reads the next bytes of the store into `buf`, as many as are unread
    /// and fit, and decodes them through every layer, innermost first. Only
    /// the bytes actually read are decoded; the rest of `buf` is left alone.
    /// Fails only where a cipher layer refuses to go on.
    pub fn read(&self, reader: &mut Reader, buf: &mut [u8]) -> (r: Result<usize, Error>)
        requires
            self.reader_wf(old(reader)),
        ensures
            final(buf)@.len() == old(buf)@.len(),
            match r {
                Ok(n) => {
                    let c = old(reader).cursor() as int;
                    &&& n == vstd::math::min(self.store().len() - c, old(buf)@.len() as int)
                    &&& final(reader).cursor() == c + n
                    &&& self.reader_wf(final(reader))
                    &&& final(buf)@.take(n as int) == decode(
                        self.layers(),
                        c,
                        self.store().subrange(c, c + n),
                    )
                    &&& final(buf)@.skip(n as int) == old(buf)@.skip(n as int)
                },
                Err(e) => e == Error::Cipher,
            },
            r is Err <==> cipher_exhausted(
                self.layers(),
                old(reader).cursor() + vstd::math::min(
                    self.store().len() - old(reader).cursor(),
                    old(buf)@.len() as int,
                ),
            ),
    {
        let ghost layers = self.layers();
        let ghost store = self.store();
        let start: usize = reader.inner.position();
        let available: usize = self.source.len() - start;
        let want: usize = if available < buf.len() {
            available
        } else {
            buf.len()
        };
        if exhausts(&self.layers, start + want) {
            return Err(Error::Cipher);
        }
        let n: usize = reader.inner.read(&self.source, buf);
        let ghost raw = store.subrange(start as int, start + n);
        assert forall|i: int| n <= i < buf@.len() implies #[trigger] buf@[i] == old(buf)@[i] by {
            assert(buf@.subrange(n as int, buf@.len() as int)[i - n] == buf@[i]);
        }
        assert forall|i: int| 0 <= i < n implies #[trigger] buf@[i] == raw[i] ^ mask(layers, 0, 0, start + i) by {
            assert(buf@.take(n as int)[i] == buf@[i]);
            lemma_xor_assoc(raw[i], 0, 0);
        }
        let mut k: usize = 0;
        while k < self.layers.len()
            invariant
                layers == self.layers@,
                store == self.source@,
                k <= layers.len(),
                start + n <= store.len(),
                raw == store.subrange(start as int, start + n),
                buf@.len() == old(buf)@.len(),
                n <= buf@.len(),
                forall|i: int| 0 <= i < n ==> #[trigger] buf@[i] == raw[i] ^ mask(layers, 0, k as int, start + i),
                forall|i: int| n <= i < buf@.len() ==> #[trigger] buf@[i] == old(buf)@[i],
                reader.inner.cursor() == start + n,
                old(reader).cursor() == start,
                n == vstd::math::min(store.len() - start, old(buf)@.len() as int),
                !cipher_exhausted(layers, start + n),
                reader.sums@.len() == layers.len(),
                forall|j: int|
                    0 <= j < layers.len() ==> (#[trigger] reader.sums@[j] is Some <==> layers[j] is Crc),
                forall|j: int|
                    0 <= j < k && #[trigger] reader.sums@[j] is Some ==> crc_fed(reader.sums@[j]->Some_0)
                        == through(layers, 0, j, 0, store.take(start + n)),
                forall|j: int|
                    k <= j < layers.len() && #[trigger] reader.sums@[j] is Some ==> crc_fed(
                        reader.sums@[j]->Some_0,
                    ) == through(layers, 0, j, 0, store.take(start as int)),
            decreases layers.len() - k,
        {
            let t: Transform = self.layers[k];
            match t {
                Transform::Crc => {
                    let slot = reader.sums.remove(k);
                    let mut c = slot.unwrap();
                    let ghost before = crc_fed(c);
                    c.update(&buf[0..n]);
                    proof {
                        let whole = through(layers, 0, k as int, 0, store.take(start + n));
                        let head = through(layers, 0, k as int, 0, store.take(start as int));
                        assert(buf@.subrange(0, n as int) =~= whole.subrange(start as int, start + n));
                        assert(whole =~= head + whole.subrange(start as int, start + n));
                    }
                    reader.sums.insert(k, Some(c));
                    assert forall|i: int| 0 <= i < n implies #[trigger] buf@[i] == raw[i] ^ mask(layers, 0, k + 1, start + i) by {
                        lemma_xor_assoc(mask(layers, 0, k as int, start + i), 0, 0);
                    }
                },
                _ => {
                    let ghost prev = buf@;
                    if !apply_layer(&t, start, buf, n) {
                        // Cannot happen: the keystream was checked to reach far enough.
                        assert(layers[k as int] is ChaCha20);
                        return Err(Error::Cipher);
                    }
                    assert forall|i: int| 0 <= i < n implies #[trigger] buf@[i] == raw[i] ^ mask(layers, 0, k + 1, start + i) by {
                        assert(buf@[i] == prev[i] ^ t.keystream(start + i));
                        lemma_xor_assoc(raw[i], mask(layers, 0, k as int, start + i), t.keystream(start + i));
                    }
                },
            }
            k = k + 1;
        }
        assert(buf@.take(n as int) =~= decode(layers, start as int, raw));
        assert(buf@.skip(n as int) =~= old(buf)@.skip(n as int));
        Ok(n)
    }

    /// Encodes `buf` through every layer, outermost first, and appends the
    /// result to the store. `buf` itself is left alone. Fails only where a
    /// cipher layer refuses to go on, and then the store is unchanged.
    pub fn write(&mut self, writer: &mut Writer, buf: &[u8]) -> (r: Result<usize, Error>)
        requires
            old(self).writer_wf(old(writer)),
            old(self).store().len() + buf@.len() <= usize::MAX,
        ensures
            final(self).layers() == old(self).layers(),
            match r {
                Ok(n) => {
                    &&& n == buf@.len()
                    &&& final(self).store() == old(self).store() + encode(
                        old(self).layers(),
                        old(writer).written() as int,
                        buf@,
                    )
                    &&& final(writer).sent() == old(writer).sent() + buf@
                    &&& final(self).writer_wf(final(writer))
                },
                Err(e) => e == Error::Cipher && final(self).store() == old(self).store(),
            },
            r is Err <==> cipher_exhausted(old(self).layers(), (old(writer).written() + buf@.len()) as int),
    {
        let ghost layers = self.layers();
        let ghost sent = writer.sent@;
        let nl: usize = self.layers.len();
        let pos: usize = writer.written;
        let len: usize = buf.len();
        if exhausts(&self.layers, pos + len) {
            return Err(Error::Cipher);
        }
        let mut data: Vec<u8> = vstd::slice::slice_to_vec(buf);
        assert forall|i: int| 0 <= i < len implies #[trigger] data@[i] == buf@[i] ^ mask(layers, nl as int, nl as int, pos + i) by {
            lemma_xor_assoc(buf@[i], 0, 0);
        }
        let mut k: usize = nl;
        while k > 0
            invariant
                layers == self.layers@,
                nl == layers.len(),
                self.source@ == old(self).source@,
                self.layers@ == old(self).layers@,
                k <= nl,
                pos == writer.written,
                old(writer).written() == pos,
                !cipher_exhausted(layers, pos + len),
                sent == writer.sent@,
                pos == sent.len(),
                data@.len() == len,
                len == buf@.len(),
                forall|i: int| 0 <= i < len ==> #[trigger] data@[i] == buf@[i] ^ mask(layers, k as int, nl as int, pos + i),
                writer.sums@.len() == nl,
                forall|j: int|
                    0 <= j < nl ==> (#[trigger] writer.sums@[j] is Some <==> layers[j] is Crc),
                forall|j: int|
                    k <= j < nl && #[trigger] writer.sums@[j] is Some ==> crc_fed(writer.sums@[j]->Some_0)
                        == through(layers, j + 1, nl as int, 0, sent + buf@),
                forall|j: int|
                    0 <= j < k && #[trigger] writer.sums@[j] is Some ==> crc_fed(writer.sums@[j]->Some_0)
                        == through(layers, j + 1, nl as int, 0, sent),
            decreases k,
        {
            k = k - 1;
            let t: Transform = self.layers[k];
            proof {
                lemma_mask_low(layers, k as int, nl as int, 0);
            }
            match t {
                Transform::Crc => {
                    let slot = writer.sums.remove(k);
                    let mut c = slot.unwrap();
                    c.update(data.as_slice());
                    proof {
                        let whole = through(layers, k + 1, nl as int, 0, sent + buf@);
                        let head = through(layers, k + 1, nl as int, 0, sent);
                        assert(data@ =~= whole.subrange(pos as int, pos + len));
                        assert(whole =~= head + whole.subrange(pos as int, pos + len));
                    }
                    writer.sums.insert(k, Some(c));
                    assert forall|i: int| 0 <= i < len implies #[trigger] data@[i] == buf@[i] ^ mask(layers, k as int, nl as int, pos + i) by {
                        lemma_mask_low(layers, k as int, nl as int, pos + i);
                        lemma_xor_assoc(0, mask(layers, k + 1, nl as int, pos + i), 0);
                        lemma_xor_assoc(mask(layers, k + 1, nl as int, pos + i), 0, 0);
                    }
                },
                _ => {
                    let ghost prev = data@;
                    if !apply_layer(&t, pos, data.as_mut_slice(), len) {
                        // Cannot happen: the keystream was checked to reach far enough.
                        assert(layers[k as int] is ChaCha20);
                        return Err(Error::Cipher);
                    }
                    assert forall|i: int| 0 <= i < len implies #[trigger] data@[i] == buf@[i] ^ mask(layers, k as int, nl as int, pos + i) by {
                        assert(data@[i] == prev[i] ^ t.keystream(pos + i));
                        lemma_mask_low(layers, k as int, nl as int, pos + i);
                        let m = mask(layers, k + 1, nl as int, pos + i);
                        let ks = t.keystream(pos + i);
                        lemma_xor_assoc(buf@[i], m, ks);
                        lemma_xor_assoc(ks, m, 0);
                    }
                },
            }
        }
        writer.inner.write(&mut self.source, data.as_slice());
        writer.written = pos + len;
        writer.sent = Ghost(sent + buf@);
        assert(data@ =~= encode(layers, pos as int, buf@));
        Ok(len)
    }

    /// Nothing to synchronise: every layer hands its bytes on at once.
    pub fn flush(&mut self, writer: &mut Writer)
        ensures
            final(self).store() == old(self).store(),
            final(self).layers() == old(self).layers(),
            *final(writer) == *old(writer),
    {
    }

    /// Gives the store back, without its layers.
    pub fn into_source(self) -> (r: crate::vec::Builder)
        ensures
            r@ == self.store(),
    {
        self.source
    }

    /// How many bytes the store holds.
    pub fn store_len(&self) -> (r: usize)
        ensures
            r == self.store().len(),
    {
        self.source.len()
    }

    /// Reads everything from a fresh reader, block by block until a read
    /// comes back short, and returns it decoded.
    pub fn read_all(&self) -> (r: Result<Vec<u8>, Error>)
        ensures
            match r {
                Ok(v) => v@ == decode(self.layers(), 0, self.store()),
                Err(e) => e == Error::Cipher,
            },
            r is Err <==> cipher_exhausted(self.layers(), self.store().len() as int),
    {
        let ghost store = self.store();
        let ghost layers = self.layers();
        let mut reader = self.reader();
        let mut out: Vec<u8> = Vec::new();
        let mut done = false;
        assert(out@ =~= decode(layers, 0, store.take(0)));
        while !done
            invariant
                store == self.store(),
                layers == self.layers(),
                self.reader_wf(&reader),
                out@ == decode(layers, 0, store.take(reader.cursor() as int)),
                done ==> reader.cursor() == store.len(),
                !cipher_exhausted(layers, reader.cursor() as int),
            decreases store.len() - reader.cursor() + (if done { 0int } else { 1int }),
        {
            let mut block: Vec<u8> = vec![0u8; BLOCK_SIZE];
            let ghost c = reader.cursor() as int;
            let n = match self.read(&mut reader, block.as_mut_slice()) {
                Ok(n) => n,
                Err(e) => {
                    proof {
                        lemma_exhausted_later(
                            layers,
                            c + vstd::math::min(store.len() - c, BLOCK_SIZE as int),
                            store.len() as int,
                        );
                    }
                    return Err(e);
                },
            };
            let ghost piece = block@.take(n as int);
            let head = vstd::slice::slice_subrange(block.as_slice(), 0, n);
            assert(head@ =~= piece);
            out.extend_from_slice(head);
            proof {
                lemma_chunks(layers, 0, store.take(c), store.subrange(c, c + n));
                assert(store.take(c) + store.subrange(c, c + n) =~= store.take(c + n));
            }
            if n < BLOCK_SIZE {
                done = true;
            }
        }
        assert(store.take(store.len() as int) =~= store);
        Ok(out)
    }

    /// Writes all of `data` through a fresh writer, whose keystreams start at
    /// position 0, and flushes it.
    pub fn write_all(&mut self, data: &[u8]) -> (r: Result<(), Error>)
        requires
            old(self).store().len() + data@.len() <= usize::MAX,
        ensures
            final(self).layers() == old(self).layers(),
            match r {
                Ok(()) => final(self).store() == old(self).store() + encode(old(self).layers(), 0, data@),
                Err(e) => e == Error::Cipher && final(self).store() == old(self).store(),
            },
            r is Err <==> cipher_exhausted(old(self).layers(), data@.len() as int),
    {
        let mut writer = self.writer();
        match self.write(&mut writer, data) {
            Ok(_) => {
                self.flush(&mut writer);
                Ok(())
            },
            Err(e) => Err(e),
        }
    }
}

/// Builds stacks: every chaining method adds one layer, or ends the stack
/// with a sink. Implemented by the bare store and by stacks.
pub trait RwBuilder: Sized {
    /// The bytes held by the store under the stack.
    spec fn stored(&self) -> Seq<u8>;

    /// The layers of the stack, innermost first.
    spec fn stack(&self) -> Seq<Transform>;

    /// The stack itself.
    fn into_pipeline(self) -> (r: Pipeline)
        ensures
            r.store() == self.stored(),
            r.layers() == self.stack(),
    ;

    /// Buffers reads and writes; the bytes pass unchanged.
    fn buffered(self) -> (r: Pipeline)
        ensures
            r.store() == self.stored(),
            r.layers() == self.stack().push(Transform::Buffered),
    {
        self.into_pipeline().wrap(Transform::Buffered)
    }

    /// Decrypts while reading and encrypts while writing with ChaCha20.
    fn chacha20(self, key: [u8; 32], nonce: [u8; 12]) -> (r: Pipeline)
        ensures
            r.store() == self.stored(),
            r.layers() == self.stack().push(Transform::ChaCha20 { key, nonce }),
    {
        self.into_pipeline().wrap(Transform::ChaCha20 { key, nonce })
    }

    /// Decrypts while reading and encrypts while writing with Salsa20.
    fn salsa20(self, key: [u8; 32], nonce: [u8; 8]) -> (r: Pipeline)
        ensures
            r.store() == self.stored(),
            r.layers() == self.stack().push(Transform::Salsa20 { key, nonce }),
    {
        self.into_pipeline().wrap(Transform::Salsa20 { key, nonce })
    }

    /// Computes the CRC-32 of the bytes passing this layer.
    fn crc(self) -> (r: Pipeline)
        ensures
            r.store() == self.stored(),
            r.layers() == self.stack().push(Transform::Crc),
    {
        self.into_pipeline().wrap(Transform::Crc)
    }

    /// Ends the stack with a text sink.
    fn string(self) -> (r: crate::string::Builder)
        ensures
            r.store() == self.stored(),
            r.layers() == self.stack(),
    {
        crate::string::Builder::new(self.into_pipeline())
    }

    /// Ends the stack with zlib compression of whole messages.
    fn zlib(self, compression: Compression) -> (r: CompressionBuilder<Zlib>)
        requires
            compression.value() <= 9,
        ensures
            r.store() == self.stored(),
            r.layers() == self.stack(),
            r.level() == compression.value(),
            r.outer() == Seq::<Transform>::empty(),
            r.wf(),
    {
        CompressionBuilder::new(self.into_pipeline(), compression, Zlib)
    }

    /// Ends the stack with gzip compression of whole messages.
    fn gz(self, compression: Compression) -> (r: CompressionBuilder<Gz>)
        requires
            compression.value() <= 9,
        ensures
            r.store() == self.stored(),
            r.layers() == self.stack(),
            r.level() == compression.value(),
            r.outer() == Seq::<Transform>::empty(),
            r.wf(),
    {
        CompressionBuilder::new(self.into_pipeline(), compression, Gz)
    }

    /// Ends the stack with raw deflate compression of whole messages.
    fn deflate(self, compression: Compression) -> (r: CompressionBuilder<Deflate>)
        requires
            compression.value() <= 9,
        ensures
            r.store() == self.stored(),
            r.layers() == self.stack(),
            r.level() == compression.value(),
            r.outer() == Seq::<Transform>::empty(),
            r.wf(),
    {
        CompressionBuilder::new(self.into_pipeline(), compression, Deflate)
    }
}

impl RwBuilder for Pipeline {
    open spec fn stored(&self) -> Seq<u8> {
        self.store()
    }

    open spec fn stack(&self) -> Seq<Transform> {
        self.layers()
    }

    fn into_pipeline(self) -> (r: Pipeline) {
        self
    }
}

impl RwBuilder for crate::vec::Builder {
    open spec fn stored(&self) -> Seq<u8> {
        self@
    }

    open spec fn stack(&self) -> Seq<Transform> {
        Seq::empty()
    }

    fn into_pipeline(self) -> (r: Pipeline) {
        Pipeline::new(self)
    }
}

/// Appending to the store never disturbs a reader: what it has consumed
/// stays as it was, and the appended bytes are next in line for it.
pub proof fn lemma_reader_survives_append(p: &Pipeline, q: &Pipeline, r: &Reader, extra: Seq<u8>)
    requires
        p.reader_wf(r),
        q.layers() == p.layers(),
        q.store() == p.store() + extra,
    ensures
        q.reader_wf(r),
{
    let c = r.cursor() as int;
    assert(q.store().take(c) =~= p.store().take(c));
}

/// Appending to the store never disturbs a writer.
pub proof fn lemma_writer_survives_append(p: &Pipeline, q: &Pipeline, w: &Writer)
    requires
        p.writer_wf(w),
        q.layers() == p.layers(),
        q.store().len() >= p.store().len(),
    ensures
        q.writer_wf(w),
{
}

/// A reader that has consumed everything one writer put into an empty
/// store has fed each of its checksums exactly the bytes that the writer fed
/// the same checksum, so both report the same CRC-32.
pub proof fn lemma_checksums_agree(p: &Pipeline, w: &Writer, r: &Reader, k: int)
    requires
        p.writer_wf(w),
        p.reader_wf(r),
        p.store() == encode(p.layers(), 0, w.sent()),
        r.cursor() == p.store().len(),
        0 <= k < p.layers().len(),
        p.layers()[k] is Crc,
    ensures
        r.sums()[k] is Some,
        w.sums()[k] is Some,
        crc_fed(r.sums()[k]->Some_0) == crc_fed(w.sums()[k]->Some_0),
{
    let layers = p.layers();
    let n = layers.len() as int;
    let s = w.sent();
    let store = p.store();
    assert(store.take(r.cursor() as int) =~= store);
    assert forall|i: int| 0 <= i < s.len() implies #[trigger] through(layers, 0, k, 0, store)[i]
        == through(layers, k + 1, n, 0, s)[i] by {
        lemma_mask_split(layers, 0, k, n, i);
        lemma_mask_low(layers, k, n, i);
        let a = mask(layers, 0, k, i);
        let b = mask(layers, k + 1, n, i);
        lemma_xor_assoc(0, b, 0);
        lemma_xor_assoc(b, 0, 0);
        let x = s[i];
        assert((x ^ (a ^ b)) ^ a == x ^ b) by (bit_vector);
    }
    assert(through(layers, 0, k, 0, store) =~= through(layers, k + 1, n, 0, s));
}

} // verus!
