use crate::pipeline::Pipeline;
use crate::string::{string_from_utf8, AdhocWriter};
use crate::transform::{cipher_exhausted, decode, encode, lemma_round_trip, Transform};
use crate::Error;
use std::io::Write;
use vstd::prelude::*;
use vstd::utf8::{decode_utf8, encode_utf8, valid_utf8};

verus! {

broadcast use vstd::utf8::encode_utf8_valid_utf8, vstd::utf8::encode_utf8_decode_utf8;

/// A compression level, from 0 (none) to 9 (smallest output).
#[derive(Debug, Clone, Copy, PartialEq, Eq, Structural)]
pub struct Compression {
    level: u32,
}

impl Compression {
    /// The level, from 0 to 9.
    pub closed spec fn value(&self) -> u32 {
        self.level
    }

    /// The level, from 0 to 9.
    pub fn level(&self) -> (r: u32)
        ensures
            r == self.value(),
    {
        self.level
    }

    pub fn new(level: u32) -> (r: Compression)
        requires
            level <= 9,
        ensures
            r.value() == level,
    {
        Compression { level }
    }

    /// No compression.
    pub fn none() -> (r: Compression)
        ensures
            r.value() == 0,
    {
        Compression { level: 0 }
    }

    /// The fastest compression.
    pub fn fast() -> (r: Compression)
        ensures
            r.value() == 1,
    {
        Compression { level: 1 }
    }

    /// The smallest output.
    pub fn best() -> (r: Compression)
        ensures
            r.value() == 9,
    {
        Compression { level: 9 }
    }
}

/// The zlib stream that flate2 makes of `data` at `level`.
pub uninterp spec fn zlib_encoded(data: Seq<u8>, level: u32) -> Seq<u8>;

/// The gzip stream that flate2 makes of `data` at `level`.
pub uninterp spec fn gz_encoded(data: Seq<u8>, level: u32) -> Seq<u8>;

/// The raw deflate stream that flate2 makes of `data` at `level`.
pub uninterp spec fn deflate_encoded(data: Seq<u8>, level: u32) -> Seq<u8>;

/// What flate2's zlib decoder makes of `data`, if it is well formed.
pub uninterp spec fn zlib_decoded(data: Seq<u8>) -> Option<Seq<u8>>;

/// What flate2's gzip decoder makes of `data`, if it is well formed.
pub uninterp spec fn gz_decoded(data: Seq<u8>) -> Option<Seq<u8>>;

/// What flate2's raw deflate decoder makes of `data`, if it is well formed.
pub uninterp spec fn deflate_decoded(data: Seq<u8>) -> Option<Seq<u8>>;

/// Relies on flate2's `write::ZlibEncoder` (`new`, `write_all`, `finish`)
/// writing into a `Vec`, which never fails: the zlib stream of `data` at
/// `level`.
#[verifier::external_body]
fn zlib_compress(data: &[u8], level: u32) -> (r: Option<Vec<u8>>)
    requires
        level <= 9,
    ensures
        r is Some,
        r matches Some(v) ==> v@ == zlib_encoded(data@, level),
{
    let mut e = flate2::write::ZlibEncoder::new(Vec::new(), flate2::Compression::new(level));
    e.write_all(data).ok()?;
    e.finish().ok()
}

/// Relies on flate2's `write::ZlibDecoder` (`new`, `write_all`, `finish`)
/// writing into a `Vec`: it inflates what its encoder made back losslessly.
#[verifier::external_body]
fn zlib_decompress(data: &[u8]) -> (r: Option<Vec<u8>>)
    ensures
        r.deep_view() == zlib_decoded(data@),
        forall|d: Seq<u8>, l: u32| l <= 9 && data@ == zlib_encoded(d, l) ==> r.deep_view() == Some(d),
{
    let mut d = flate2::write::ZlibDecoder::new(Vec::new());
    d.write_all(data).ok()?;
    d.finish().ok()
}

/// Relies on flate2's `write::GzEncoder` (`new`, `write_all`, `finish`)
/// writing into a `Vec`, which never fails: the gzip stream of `data` at
/// `level`.
#[verifier::external_body]
fn gz_compress(data: &[u8], level: u32) -> (r: Option<Vec<u8>>)
    requires
        level <= 9,
    ensures
        r is Some,
        r matches Some(v) ==> v@ == gz_encoded(data@, level),
{
    let mut e = flate2::write::GzEncoder::new(Vec::new(), flate2::Compression::new(level));
    e.write_all(data).ok()?;
    e.finish().ok()
}

/// Relies on flate2's `write::GzDecoder` (`new`, `write_all`, `finish`)
/// writing into a `Vec`: it inflates what its encoder made back losslessly.
#[verifier::external_body]
fn gz_decompress(data: &[u8]) -> (r: Option<Vec<u8>>)
    ensures
        r.deep_view() == gz_decoded(data@),
        forall|d: Seq<u8>, l: u32| l <= 9 && data@ == gz_encoded(d, l) ==> r.deep_view() == Some(d),
{
    let mut d = flate2::write::GzDecoder::new(Vec::new());
    d.write_all(data).ok()?;
    d.finish().ok()
}

/// Relies on flate2's `write::DeflateEncoder` (`new`, `write_all`, `finish`)
/// writing into a `Vec`, which never fails: the raw deflate stream of
/// `data` at `level`.
#[verifier::external_body]
fn deflate_compress(data: &[u8], level: u32) -> (r: Option<Vec<u8>>)
    requires
        level <= 9,
    ensures
        r is Some,
        r matches Some(v) ==> v@ == deflate_encoded(data@, level),
{
    let mut e = flate2::write::DeflateEncoder::new(Vec::new(), flate2::Compression::new(level));
    e.write_all(data).ok()?;
    e.finish().ok()
}

/// Relies on flate2's `write::DeflateDecoder` (`new`, `write_all`,
/// `finish`) writing into a `Vec`: it inflates what its encoder made back
/// losslessly.
#[verifier::external_body]
fn deflate_decompress(data: &[u8]) -> (r: Option<Vec<u8>>)
    ensures
        r.deep_view() == deflate_decoded(data@),
        forall|d: Seq<u8>, l: u32| l <= 9 && data@ == deflate_encoded(d, l) ==> r.deep_view() == Some(d),
{
    let mut d = flate2::write::DeflateDecoder::new(Vec::new());
    d.write_all(data).ok()?;
    d.finish().ok()
}

/// Makes the encoder and the decoder of one compression format.
pub trait CoderBuilder: Sized {
    /// What the encoder makes of `data` at `level`.
    spec fn encoded(&self, data: Seq<u8>, level: u32) -> Seq<u8>;

    /// What the decoder makes of `data`, if it is well formed.
    spec fn decoded(&self, data: Seq<u8>) -> Option<Seq<u8>>;

    /// Compresses all of `data`.
    fn encoder(&self, data: &[u8], compression: Compression) -> (r: Option<Vec<u8>>)
        requires
            compression.value() <= 9,
        ensures
            r is Some,
            r matches Some(v) ==> v@ == self.encoded(data@, compression.value()),
    ;

    /// Decompresses all of `data`; what the encoder made comes back whole.
    fn decoder(&self, data: &[u8]) -> (r: Option<Vec<u8>>)
        ensures
            r.deep_view() == self.decoded(data@),
            forall|d: Seq<u8>, l: u32| l <= 9 && data@ == self.encoded(d, l) ==> r.deep_view() == Some(d),
    ;
}

/// The zlib format.
#[derive(Debug, Default, Clone, Copy)]
pub struct Zlib;

/// The gzip format.
#[derive(Debug, Default, Clone, Copy)]
pub struct Gz;

/// The raw deflate format.
#[derive(Debug, Default, Clone, Copy)]
pub struct Deflate;

impl CoderBuilder for Zlib {
    open spec fn encoded(&self, data: Seq<u8>, level: u32) -> Seq<u8> {
        zlib_encoded(data, level)
    }

    open spec fn decoded(&self, data: Seq<u8>) -> Option<Seq<u8>> {
        zlib_decoded(data)
    }

    fn encoder(&self, data: &[u8], compression: Compression) -> (r: Option<Vec<u8>>) {
        zlib_compress(data, compression.level())
    }

    fn decoder(&self, data: &[u8]) -> (r: Option<Vec<u8>>) {
        zlib_decompress(data)
    }
}

impl CoderBuilder for Gz {
    open spec fn encoded(&self, data: Seq<u8>, level: u32) -> Seq<u8> {
        gz_encoded(data, level)
    }

    open spec fn decoded(&self, data: Seq<u8>) -> Option<Seq<u8>> {
        gz_decoded(data)
    }

    fn encoder(&self, data: &[u8], compression: Compression) -> (r: Option<Vec<u8>>) {
        gz_compress(data, compression.level())
    }

    fn decoder(&self, data: &[u8]) -> (r: Option<Vec<u8>>) {
        gz_decompress(data)
    }
}

impl CoderBuilder for Deflate {
    open spec fn encoded(&self, data: Seq<u8>, level: u32) -> Seq<u8> {
        deflate_encoded(data, level)
    }

    open spec fn decoded(&self, data: Seq<u8>) -> Option<Seq<u8>> {
        deflate_decoded(data)
    }

    fn encoder(&self, data: &[u8], compression: Compression) -> (r: Option<Vec<u8>>) {
        deflate_compress(data, compression.level())
    }

    fn decoder(&self, data: &[u8]) -> (r: Option<Vec<u8>>) {
        deflate_decompress(data)
    }
}

/// `data` handed on by a fresh writer of `layers` from position 0.
fn encode_message(layers: &Vec<Transform>, data: &[u8]) -> (r: Result<Vec<u8>, Error>)
    ensures
        match r {
            Ok(v) => v@ == encode(layers@, 0, data@),
            Err(e) => e == Error::Cipher,
        },
        r is Err <==> cipher_exhausted(layers@, data@.len() as int),
{
    let mut p = Pipeline::from_parts(crate::vec::Builder::new(), copy_layers(layers));
    let len: usize = data.len();
    assert(len == data@.len());
    match p.write_all(data) {
        Ok(()) => {
            let v = p.into_source().into_bytes();
            assert(v@ =~= encode(layers@, 0, data@));
            Ok(v)
        },
        Err(e) => Err(e),
    }
}

/// `data` read back through a fresh reader of `layers` from position 0.
fn decode_message(layers: &Vec<Transform>, data: &[u8]) -> (r: Result<Vec<u8>, Error>)
    ensures
        match r {
            Ok(v) => v@ == decode(layers@, 0, data@),
            Err(e) => e == Error::Cipher,
        },
        r is Err <==> cipher_exhausted(layers@, data@.len() as int),
{
    let mut source = crate::vec::Builder::new();
    let mut w = source.writer();
    let len: usize = data.len();
    assert(len == data@.len());
    w.write(&mut source, data);
    assert(source@ =~= data@);
    let p = Pipeline::from_parts(source, copy_layers(layers));
    p.read_all()
}

/// A copy of a list of layers.
fn copy_layers(layers: &Vec<Transform>) -> (r: Vec<Transform>)
    ensures
        r@ == layers@,
{
    let mut r: Vec<Transform> = Vec::new();
    let mut k: usize = 0;
    while k < layers.len()
        invariant
            k <= layers@.len(),
            r@ == layers@.take(k as int),
        decreases layers@.len() - k,
    {
        r.push(layers[k]);
        k = k + 1;
        assert(r@ =~= layers@.take(k as int));
    }
    assert(layers@.take(k as int) =~= layers@);
    r
}

/// Compresses a whole message before it goes through a stack, and
/// decompresses everything read back from it. Layers added on top act on
/// the message before it is compressed and after it is decompressed, each
/// from stream position 0.
#[derive(Debug)]
pub struct CompressionBuilder<C> {
    builder: Pipeline,
    outer: Vec<Transform>,
    compression: Compression,
    coder: C,
}

impl<C: CoderBuilder> CompressionBuilder<C> {
    /// Ends `builder` with `coder` at `compression`.
    pub fn new(builder: Pipeline, compression: Compression, coder: C) -> (r: Self)
        requires
            compression.value() <= 9,
        ensures
            r.store() == builder.store(),
            r.layers() == builder.layers(),
            r.outer() == Seq::<Transform>::empty(),
            r.level() == compression.value(),
            r.coder() == coder,
            r.wf(),
    {
        CompressionBuilder { builder, outer: Vec::new(), compression, coder }
    }

    /// The bytes held by the store.
    pub closed spec fn store(&self) -> Seq<u8> {
        self.builder.store()
    }

    /// The layers under the compression, innermost first.
    pub closed spec fn layers(&self) -> Seq<Transform> {
        self.builder.layers()
    }

    /// The layers over the compression, innermost first.
    pub closed spec fn outer(&self) -> Seq<Transform> {
        self.outer@
    }

    pub closed spec fn level(&self) -> u32 {
        self.compression.value()
    }

    pub closed spec fn coder(&self) -> C {
        self.coder
    }

    pub open spec fn wf(&self) -> bool {
        self.level() <= 9
    }

    /// The compressed bytes that the stack holds, decoded.
    pub open spec fn packed(&self) -> Seq<u8> {
        decode(self.layers(), 0, self.store())
    }

    /// What the compressor is handed for message `data`.
    pub open spec fn message(&self, data: Seq<u8>) -> Seq<u8> {
        encode(self.outer(), 0, data)
    }

    /// The compressed form of message `data`.
    pub open spec fn compressed(&self, data: Seq<u8>) -> Seq<u8> {
        self.coder().encoded(self.message(data), self.level())
    }

    /// Gives the stack under the compression back.
    pub fn into_inner(self) -> (r: Pipeline)
        ensures
            r.store() == self.store(),
            r.layers() == self.layers(),
    {
        self.builder
    }

    /// Adds `t` as the new outermost layer.
    pub fn wrap(self, t: Transform) -> (r: Self)
        ensures
            r.store() == self.store(),
            r.layers() == self.layers(),
            r.outer() == self.outer().push(t),
            r.level() == self.level(),
            r.coder() == self.coder(),
    {
        let mut outer = self.outer;
        outer.push(t);
        CompressionBuilder { builder: self.builder, outer, compression: self.compression, coder: self.coder }
    }

    /// Buffers reads and writes; the bytes pass unchanged.
    pub fn buffered(self) -> (r: Self)
        ensures
            r.store() == self.store(),
            r.layers() == self.layers(),
            r.outer() == self.outer().push(Transform::Buffered),
            r.level() == self.level(),
            r.coder() == self.coder(),
    {
        self.wrap(Transform::Buffered)
    }

    /// Encrypts each message before it is compressed with ChaCha20.
    pub fn chacha20(self, key: [u8; 32], nonce: [u8; 12]) -> (r: Self)
        ensures
            r.store() == self.store(),
            r.layers() == self.layers(),
            r.outer() == self.outer().push(Transform::ChaCha20 { key, nonce }),
            r.level() == self.level(),
            r.coder() == self.coder(),
    {
        self.wrap(Transform::ChaCha20 { key, nonce })
    }

    /// Encrypts each message before it is compressed with Salsa20.
    pub fn salsa20(self, key: [u8; 32], nonce: [u8; 8]) -> (r: Self)
        ensures
            r.store() == self.store(),
            r.layers() == self.layers(),
            r.outer() == self.outer().push(Transform::Salsa20 { key, nonce }),
            r.level() == self.level(),
            r.coder() == self.coder(),
    {
        self.wrap(Transform::Salsa20 { key, nonce })
    }

    /// It already reads and writes whole messages as text.
    pub fn string(self) -> (r: Self)
        ensures
            r == self,
    {
        self
    }

    /// Compresses all of `data` and writes it through a fresh writer.
    pub fn save(&mut self, data: &[u8]) -> (r: Result<(), Error>)
        requires
            old(self).wf(),
        ensures
            final(self).wf(),
            final(self).layers() == old(self).layers(),
            final(self).outer() == old(self).outer(),
            final(self).level() == old(self).level(),
            final(self).coder() == old(self).coder(),
            match r {
                Ok(()) => {
                    &&& final(self).store() == old(self).store() + encode(
                        old(self).layers(),
                        0,
                        old(self).compressed(data@),
                    )
                    &&& !cipher_exhausted(old(self).outer(), data@.len() as int)
                    &&& !cipher_exhausted(old(self).layers(), old(self).compressed(data@).len() as int)
                },
                Err(Error::Cipher) => final(self).store() == old(self).store() && (cipher_exhausted(
                    old(self).outer(),
                    data@.len() as int,
                ) || cipher_exhausted(old(self).layers(), old(self).compressed(data@).len() as int)),
                Err(Error::Codec) => final(self).store() == old(self).store()
                    && old(self).store().len() + old(self).compressed(data@).len() > usize::MAX,
                Err(_) => false,
            },
            !cipher_exhausted(old(self).outer(), data@.len() as int) && !cipher_exhausted(
                old(self).layers(),
                old(self).compressed(data@).len() as int,
            ) && old(self).store().len() + old(self).compressed(data@).len() <= usize::MAX ==> r is Ok,
    {
        let message = match encode_message(&self.outer, data) {
            Ok(v) => v,
            Err(e) => {
                return Err(e);
            },
        };
        let packed = match self.coder.encoder(message.as_slice(), self.compression) {
            Some(v) => v,
            None => {
                return Err(Error::Codec);
            },
        };
        if packed.len() > usize::MAX - self.builder.store_len() {
            return Err(Error::Codec);
        }
        self.builder.write_all(packed.as_slice())
    }

    /// Reads everything through a fresh reader, decompresses it and reads it
    /// back through the layers over the compression.
    pub fn load(&self) -> (r: Result<Vec<u8>, Error>)
        ensures
            match r {
                Ok(v) => self.coder().decoded(self.packed()) is Some && v@ == decode(
                    self.outer(),
                    0,
                    self.coder().decoded(self.packed())->Some_0,
                ),
                Err(Error::Codec) => self.coder().decoded(self.packed()) is None,
                Err(Error::Cipher) => cipher_exhausted(self.layers(), self.store().len() as int) || (
                self.coder().decoded(self.packed()) is Some && cipher_exhausted(
                    self.outer(),
                    (self.coder().decoded(self.packed())->Some_0).len() as int,
                )),
                Err(_) => false,
            },
            !cipher_exhausted(self.layers(), self.store().len() as int) ==> forall|d: Seq<u8>, l: u32|
                l <= 9 && #[trigger] self.coder().encoded(d, l) == self.packed() ==> self.coder().decoded(
                    self.packed(),
                ) == Some(d),
            !cipher_exhausted(self.layers(), self.store().len() as int) && self.coder().decoded(
                self.packed(),
            ) is Some && !cipher_exhausted(
                self.outer(),
                (self.coder().decoded(self.packed())->Some_0).len() as int,
            ) ==> r is Ok,
    {
        let packed = match self.builder.read_all() {
            Ok(v) => v,
            Err(e) => {
                return Err(e);
            },
        };
        let message = match self.coder.decoder(packed.as_slice()) {
            Some(v) => v,
            None => {
                return Err(Error::Codec);
            },
        };
        decode_message(&self.outer, message.as_slice())
    }

    /// Reads everything back as [`CompressionBuilder::load`] does and decodes
    /// it as UTF-8.
    pub fn to_string(&self) -> (r: Result<String, Error>)
        ensures
            match r {
                Ok(s) => self.coder().decoded(self.packed()) is Some && valid_utf8(
                    decode(self.outer(), 0, self.coder().decoded(self.packed())->Some_0),
                ) && s@ == decode_utf8(
                    decode(self.outer(), 0, self.coder().decoded(self.packed())->Some_0),
                ),
                Err(Error::Utf8) => self.coder().decoded(self.packed()) is Some && !valid_utf8(
                    decode(self.outer(), 0, self.coder().decoded(self.packed())->Some_0),
                ),
                Err(Error::Codec) => self.coder().decoded(self.packed()) is None,
                Err(Error::Cipher) => cipher_exhausted(self.layers(), self.store().len() as int) || (
                self.coder().decoded(self.packed()) is Some && cipher_exhausted(
                    self.outer(),
                    (self.coder().decoded(self.packed())->Some_0).len() as int,
                )),
                Err(_) => false,
            },
            !cipher_exhausted(self.layers(), self.store().len() as int) ==> forall|d: Seq<u8>, l: u32|
                l <= 9 && #[trigger] self.coder().encoded(d, l) == self.packed() ==> self.coder().decoded(
                    self.packed(),
                ) == Some(d),
            !cipher_exhausted(self.layers(), self.store().len() as int) && self.coder().decoded(
                self.packed(),
            ) is Some && !cipher_exhausted(
                self.outer(),
                (self.coder().decoded(self.packed())->Some_0).len() as int,
            ) ==> r is Ok || r == Err::<String, Error>(Error::Utf8),
    {
        let v = match self.load() {
            Ok(v) => v,
            Err(e) => {
                return Err(e);
            },
        };
        match string_from_utf8(v) {
            Some(s) => Ok(s),
            None => Err(Error::Utf8),
        }
    }
}

impl<C: CoderBuilder> AdhocWriter for CompressionBuilder<C> {
    open spec fn can_take(&self, text: Seq<char>) -> bool {
        self.wf()
    }

    open spec fn wrote(&self, before: &Self, text: Seq<char>, r: Result<(), Error>) -> bool {
        let packed = before.compressed(encode_utf8(text));
        &&& self.wf()
        &&& self.layers() == before.layers()
        &&& self.outer() == before.outer()
        &&& self.level() == before.level()
        &&& self.coder() == before.coder()
        &&& match r {
            Ok(()) => {
                &&& self.store() == before.store() + encode(before.layers(), 0, packed)
                &&& !cipher_exhausted(before.outer(), encode_utf8(text).len() as int)
                &&& !cipher_exhausted(before.layers(), packed.len() as int)
            },
            Err(Error::Cipher) => self.store() == before.store() && (cipher_exhausted(
                before.outer(),
                encode_utf8(text).len() as int,
            ) || cipher_exhausted(before.layers(), packed.len() as int)),
            Err(Error::Codec) => self.store() == before.store() && before.store().len() + packed.len()
                > usize::MAX,
            Err(_) => false,
        }
        &&& (!cipher_exhausted(before.outer(), encode_utf8(text).len() as int) && !cipher_exhausted(
            before.layers(),
            packed.len() as int,
        ) && before.store().len() + packed.len() <= usize::MAX ==> r is Ok)
    }

    fn write_string(&mut self, text: &str) -> (r: Result<(), Error>) {
        self.save(text.as_bytes())
    }
}

/// A message written through the layers over a compression, compressed and
/// written through the layers under it into an empty store reads back as
/// the message: the stack gives back the compressed form, and the layers
/// over the compression undo what they did.
pub proof fn lemma_compressed_round_trip<C: CoderBuilder>(
    b: &CompressionBuilder<C>,
    data: Seq<u8>,
)
    requires
        b.store() == encode(b.layers(), 0, b.compressed(data)),
    ensures
        b.packed() == b.compressed(data),
        decode(b.outer(), 0, b.message(data)) == data,
{
    lemma_round_trip(b.layers(), 0, b.compressed(data));
    lemma_round_trip(b.outer(), 0, data);
}

/// Text written with [`AdhocWriter::write_string`] into an empty store
/// reads back with [`CompressionBuilder::to_string`] as exactly that text:
/// nothing runs out on the way back, the stack gives back what the
/// compressor made of the message, and the layers over the compression undo
/// what they did to it.
pub proof fn lemma_compressed_sink_round_trip<C: CoderBuilder>(
    before: &CompressionBuilder<C>,
    after: &CompressionBuilder<C>,
    text: Seq<char>,
)
    requires
        before.store().len() == 0,
        after.wrote(before, text, Ok(())),
    ensures
        !cipher_exhausted(after.layers(), after.store().len() as int),
        after.level() <= 9,
        after.coder().encoded(after.message(encode_utf8(text)), after.level()) == after.packed(),
        !cipher_exhausted(after.outer(), after.message(encode_utf8(text)).len() as int),
        valid_utf8(decode(after.outer(), 0, after.message(encode_utf8(text)))),
        decode_utf8(decode(after.outer(), 0, after.message(encode_utf8(text)))) == text,
{
    let data = encode_utf8(text);
    assert(after.store() =~= encode(after.layers(), 0, after.compressed(data)));
    lemma_compressed_round_trip(after, data);
}

} // verus!
