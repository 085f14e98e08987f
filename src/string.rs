use crate::pipeline::Pipeline;
use crate::transform::{cipher_exhausted, decode, encode, lemma_round_trip, Transform};
use crate::Error;
use vstd::prelude::*;
use vstd::utf8::{decode_utf8, encode_utf8, valid_utf8};

verus! {

broadcast use vstd::utf8::encode_utf8_valid_utf8, vstd::utf8::encode_utf8_decode_utf8;

/// Writes text through a stack and reads it back as text. It ends a stack:
/// it cannot be wrapped further.
#[derive(Debug)]
pub struct Builder {
    builder: Pipeline,
}

/// Writes a whole string through a freshly made writer.
pub trait AdhocWriter: Sized {
    /// Whether the bytes of `text` fit in what can still be written.
    spec fn can_take(&self, text: Seq<char>) -> bool;

    /// `self` is what writing `text` to `before` with result `r` leaves.
    spec fn wrote(&self, before: &Self, text: Seq<char>, r: Result<(), Error>) -> bool;

    /// Makes a writer, writes the UTF-8 bytes of `text` and flushes.
    fn write_string(&mut self, text: &str) -> (r: Result<(), Error>)
        requires
            old(self).can_take(text@),
        ensures
            final(self).wrote(old(self), text@, r),
    ;
}

/// Relies on std's `String::from_utf8`: it accepts exactly the valid UTF-8
/// byte sequences and decodes them.
#[verifier::external_body]
pub(crate) fn string_from_utf8(bytes: Vec<u8>) -> (r: Option<String>)
    ensures
        r is Some <==> valid_utf8(bytes@),
        r matches Some(s) ==> s@ == decode_utf8(bytes@),
{
    String::from_utf8(bytes).ok()
}

/// The text a stack holds: its store decoded from position 0.
pub open spec fn plain(b: &Builder) -> Seq<u8> {
    decode(b.layers(), 0, b.store())
}

impl Builder {
    /// Ends `builder` with a text sink.
    pub fn new(builder: Pipeline) -> (r: Builder)
        ensures
            r.store() == builder.store(),
            r.layers() == builder.layers(),
    {
        Builder { builder }
    }

    pub closed spec fn store(&self) -> Seq<u8> {
        self.builder.store()
    }

    pub closed spec fn layers(&self) -> Seq<Transform> {
        self.builder.layers()
    }

    /// Reads everything from a fresh reader and decodes it as UTF-8.
    pub fn to_string(&self) -> (r: Result<String, Error>)
        ensures
            match r {
                Ok(s) => valid_utf8(plain(self)) && s@ == decode_utf8(plain(self)),
                Err(Error::Utf8) => !valid_utf8(plain(self)),
                Err(Error::Cipher) => true,
                Err(_) => false,
            },
            r == Err::<String, Error>(Error::Cipher) <==> cipher_exhausted(
                self.layers(),
                self.store().len() as int,
            ),
    {
        let out = match self.builder.read_all() {
            Ok(v) => v,
            Err(e) => {
                return Err(e);
            },
        };
        match string_from_utf8(out) {
            Some(s) => Ok(s),
            None => Err(Error::Utf8),
        }
    }
}

impl AdhocWriter for Builder {
    open spec fn can_take(&self, text: Seq<char>) -> bool {
        self.store().len() + encode_utf8(text).len() <= usize::MAX
    }

    open spec fn wrote(&self, before: &Self, text: Seq<char>, r: Result<(), Error>) -> bool {
        &&& self.layers() == before.layers()
        &&& match r {
            Ok(()) => self.store() == before.store() + encode(before.layers(), 0, encode_utf8(text)),
            Err(e) => e == Error::Cipher && self.store() == before.store(),
        }
        &&& (r is Err <==> cipher_exhausted(before.layers(), encode_utf8(text).len() as int))
    }

    fn write_string(&mut self, text: &str) -> (r: Result<(), Error>) {
        self.builder.write_all(text.as_bytes())
    }
}

/// Text written through a stack into an empty store reads back unchanged.
pub proof fn lemma_text_round_trip(layers: Seq<Transform>, text: Seq<char>)
    ensures
        valid_utf8(decode(layers, 0, encode(layers, 0, encode_utf8(text)))),
        decode_utf8(decode(layers, 0, encode(layers, 0, encode_utf8(text)))) == text,
{
    lemma_round_trip(layers, 0, encode_utf8(text));
}

/// Text written with [`AdhocWriter::write_string`] into an empty store,
/// whatever the layers, reads back with [`Builder::to_string`] as exactly
/// that text: the store decodes to its UTF-8 bytes and no cipher runs out.
pub proof fn lemma_sink_round_trip(before: &Builder, after: &Builder, text: Seq<char>)
    requires
        before.store().len() == 0,
        after.wrote(before, text, Ok(())),
    ensures
        !cipher_exhausted(after.layers(), after.store().len() as int),
        valid_utf8(plain(after)),
        decode_utf8(plain(after)) == text,
{
    assert(after.store() =~= encode(before.layers(), 0, encode_utf8(text)));
    lemma_text_round_trip(before.layers(), text);
}

} // verus!
